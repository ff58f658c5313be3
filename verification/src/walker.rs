//! The decisions of a walk over the source tree.
//!
//! Enumerating directories and handing files to workers is the caller's
//! part. What is decided here: where the walk starts, which resolver a scan
//! root gets, which rules concern a path, and what is done with an entry of
//! a directory.

use crate::configs::project::ProjectConfig;
use crate::file_processor::{edge_issues, issues_of};
use crate::imports::classification::ImportResolver;
use crate::imports::import_line::EdgeView;
use crate::modpath::{dir_path, ModulePath};
use crate::paths::{chars_of, text_of_prefix};
use crate::results::IssueView;
use crate::rules::ImportRule;
use crate::text::same_text;
use vstd::prelude::*;

verus! {

/// The views of a list of module paths, item by item.
pub open spec fn path_views(paths: Seq<ModulePath>) -> Seq<Seq<Seq<char>>> {
    Seq::new(paths.len(), |i: int| paths[i]@)
}

/// Where a run starts: at the configured source modules, or at the empty
/// path, which stands for the working directory, where none is configured.
pub open spec fn roots_of(sources: Seq<Seq<Seq<char>>>) -> Seq<Seq<Seq<char>>> {
    if sources.len() > 0 {
        sources
    } else {
        seq![Seq::<Seq<char>>::empty()]
    }
}

/// The scan roots of a project.
pub fn scan_roots(project: &ProjectConfig) -> (r: Vec<ModulePath>)
    ensures
        path_views(r@) == roots_of(path_views(project.source_modules@)),
{
    let mut roots: Vec<ModulePath> = Vec::new();
    if project.source_modules.len() == 0 {
        roots.push(ModulePath::default());
        assert(roots@[0]@ =~= Seq::<Seq<char>>::empty());
        assert(path_views(roots@) =~= seq![Seq::<Seq<char>>::empty()]);
        return roots;
    }
    let mut i: usize = 0;
    while i < project.source_modules.len()
        invariant
            i <= project.source_modules@.len(),
            path_views(roots@) == path_views(project.source_modules@).take(i as int),
        decreases project.source_modules@.len() - i,
    {
        let ghost before = path_views(roots@);
        roots.push(project.source_modules[i].clone());
        assert(path_views(roots@) == before.push(project.source_modules@[i as int]@));
        i = i + 1;
    }
    assert(path_views(project.source_modules@).take(i as int) == path_views(
        project.source_modules@,
    ));
    roots
}

/// The directory of a scan root that is a single file: the directory that
/// its segments but the last name, and the current directory for the empty
/// path.
pub open spec fn containing_dir(root: Seq<Seq<char>>) -> Seq<char> {
    if root.len() == 0 {
        seq!['.']
    } else {
        dir_path(root.drop_last())
    }
}

/// The resolver of a scan root. Its namespace is the root's first segment.
/// Its directory is the one that the root names where that is a directory,
/// and the one that holds the root's source file where it is not.
pub fn resolver_for_root(root: &ModulePath, is_dir: bool, verbose: bool) -> (r: ImportResolver)
    ensures
        r.namespace() == if root@.len() > 0 {
            Some(root@[0])
        } else {
            None
        },
        r.root_text() == if is_dir {
            dir_path(root@)
        } else {
            containing_dir(root@)
        },
{
    let parts = root.segments();
    let namespace = if parts.len() > 0 {
        assert(crate::text::views_of(parts@)[0] == parts@[0]@);
        Some(parts[0].clone())
    } else {
        None
    };
    let root_dir = if is_dir {
        root.to_dir_pathbuf()
    } else {
        match root.split_last() {
            Some((_, parent)) => parent.to_dir_pathbuf(),
            None => {
                let mut here = String::new();
                here.push('.');
                here
            },
        }
    };
    ImportResolver::new(root_dir, namespace, verbose)
}

/// The first `n` rules that concern `path`, in their order.
pub open spec fn concerned<'a, R: ImportRule>(
    rules: Seq<R>,
    path: Seq<Seq<char>>,
    n: nat,
) -> Seq<&'a R>
    decreases n,
{
    if n == 0 {
        Seq::empty()
    } else {
        let before = concerned(rules, path, (n - 1) as nat);
        if rules[n - 1].concerns(path) {
            before.push(&rules[n - 1])
        } else {
            before
        }
    }
}

/// All rules, by reference.
pub open spec fn all_of<'a, R: ImportRule>(rules: Seq<R>) -> Seq<&'a R> {
    Seq::new(rules.len(), |i: int| &rules[i])
}

/// The rules that concern `path`. Where there is none, nothing at or below
/// `path` needs to be visited.
pub fn relevant_rules<'a, R: ImportRule>(rules: &'a [R], path: &ModulePath) -> (r: Vec<&'a R>)
    ensures
        r@ == concerned(rules@, path@, rules@.len()),
{
    let mut kept: Vec<&R> = Vec::new();
    let mut i: usize = 0;
    while i < rules.len()
        invariant
            i <= rules@.len(),
            kept@ == concerned(rules@, path@, i as nat),
        decreases rules@.len() - i,
    {
        if rules[i].concern(path) {
            kept.push(&rules[i]);
        }
        i = i + 1;
    }
    kept
}

/// What the walk does at a path.
#[derive(Debug, Clone, Copy, PartialEq, Eq)]
pub enum Visit {
    /// Nothing at or below the path is visited.
    Skip,
    /// The path is a directory; its entries are enumerated.
    Walk,
    /// The path is a single source file; it is processed.
    ProcessOne,
}

/// What the walk does at a path that `concerned` rules are concerned with,
/// given what the path names on disk. A path of no concern is skipped with
/// all that lies below it. A directory is walked. A file, named by the path
/// itself or by the module's source file, is processed.
pub open spec fn visit_of(
    concerned: nat,
    is_dir: bool,
    is_file: bool,
    source_is_file: bool,
) -> Visit {
    if concerned == 0 {
        Visit::Skip
    } else if is_dir {
        Visit::Walk
    } else if is_file || source_is_file {
        Visit::ProcessOne
    } else {
        Visit::Skip
    }
}

/// Decides what the walk does at a path, of which `relevant` are the rules
/// concerned with it.
pub fn plan_visit<R: ImportRule>(
    relevant: &[&R],
    is_dir: bool,
    is_file: bool,
    source_is_file: bool,
) -> (r: Visit)
    ensures
        r == visit_of(relevant@.len(), is_dir, is_file, source_is_file),
        relevant@.len() == 0 ==> r == Visit::Skip,
{
    if relevant.len() == 0 {
        Visit::Skip
    } else if is_dir {
        Visit::Walk
    } else if is_file || source_is_file {
        Visit::ProcessOne
    } else {
        Visit::Skip
    }
}

/// The issues of an edge depend on the rules that are counted only.
pub proof fn lemma_edge_issues_prefix<R: ImportRule>(
    a: Seq<&R>,
    b: Seq<&R>,
    file: Seq<char>,
    edge: EdgeView,
    n: nat,
)
    requires
        n <= a.len(),
        n <= b.len(),
        forall|i: int| 0 <= i < n ==> a[i] == b[i],
    ensures
        edge_issues(a, file, edge, n) == edge_issues(b, file, edge, n),
    decreases n,
{
    if n > 0 {
        lemma_edge_issues_prefix(a, b, file, edge, (n - 1) as nat);
    }
}

/// For an edge that starts at or below `path`, the rules that concern
/// `path` raise the issues that all rules raise.
pub proof fn lemma_concerned_rules_suffice<R: ImportRule>(
    rules: Seq<R>,
    path: Seq<Seq<char>>,
    file: Seq<char>,
    edge: EdgeView,
    n: nat,
)
    requires
        n <= rules.len(),
        path.is_prefix_of(edge.from),
    ensures
        concerned(rules, path, n).len() <= n,
        edge_issues(concerned(rules, path, n), file, edge, concerned(rules, path, n).len())
            == edge_issues(all_of(rules), file, edge, n),
    decreases n,
{
    if n > 0 {
        let m = (n - 1) as nat;
        lemma_concerned_rules_suffice(rules, path, file, edge, m);
        let before = concerned(rules, path, m);
        let rule = rules[n - 1];
        if rule.concerns(path) {
            let now = before.push(&rule);
            lemma_edge_issues_prefix(now, before, file, edge, before.len());
            assert(now[now.len() - 1] == all_of(rules)[n - 1]);
        } else {
            rule.lemma_unconcerned_passes(path, edge.from, edge.target);
        }
    }
}

/// Pruning loses nothing: for edges that start at or below `path`, the
/// rules that concern `path` raise exactly the issues that all rules raise.
/// In particular a path that concerns no rule has no issues below it.
pub proof fn lemma_pruning_keeps_issues<R: ImportRule>(
    rules: Seq<R>,
    path: Seq<Seq<char>>,
    file: Seq<char>,
    edges: Seq<EdgeView>,
)
    requires
        forall|i: int| 0 <= i < edges.len() ==> path.is_prefix_of((#[trigger] edges[i]).from),
    ensures
        issues_of(concerned(rules, path, rules.len()), file, edges) == issues_of(
            all_of(rules),
            file,
            edges,
        ),
        concerned(rules, path, rules.len()).len() == 0 ==> issues_of(all_of(rules), file, edges)
            == Seq::<IssueView>::empty(),
    decreases edges.len(),
{
    let kept = concerned(rules, path, rules.len());
    if edges.len() > 0 {
        let front = edges.drop_last();
        assert forall|i: int| 0 <= i < front.len() implies path.is_prefix_of(
            (#[trigger] front[i]).from,
        ) by {
            assert(front[i] == edges[i]);
        }
        lemma_pruning_keeps_issues(rules, path, file, front);
        lemma_concerned_rules_suffice(rules, path, file, edges.last(), rules.len());
    }
    lemma_no_rules_no_issues::<R>(kept, file, edges);
}

/// Without rules there are no issues.
pub proof fn lemma_no_rules_no_issues<R: ImportRule>(
    rules: Seq<&R>,
    file: Seq<char>,
    edges: Seq<EdgeView>,
)
    ensures
        rules.len() == 0 ==> issues_of(rules, file, edges) == Seq::<IssueView>::empty(),
    decreases edges.len(),
{
    if edges.len() > 0 {
        lemma_no_rules_no_issues(rules, file, edges.drop_last());
    }
}

/// What the walk does with an entry of a directory.
#[derive(Debug, PartialEq, Eq)]
pub enum EntryAction {
    /// The entry is passed over.
    Skip,
    /// The entry is a directory; the walk goes on inside it, at this path.
    Descend(ModulePath),
    /// The entry is a source file; it is processed as this module.
    Process(ModulePath),
}

/// An entry's action as plain values.
pub enum EntryPlan {
    Skip,
    Descend(Seq<Seq<char>>),
    Process(Seq<Seq<char>>),
}

impl View for EntryAction {
    type V = EntryPlan;

    open spec fn view(&self) -> EntryPlan {
        match self {
            EntryAction::Skip => EntryPlan::Skip,
            EntryAction::Descend(path) => EntryPlan::Descend(path@),
            EntryAction::Process(path) => EntryPlan::Process(path@),
        }
    }
}

/// The name of the directories that hold compiled byte code.
pub open spec fn bytecode_dir() -> Seq<char> {
    "__pycache__"@
}

/// Whether a file of this name is a source file: a stem that is not empty,
/// followed by the source extension.
pub open spec fn is_source_name(name: Seq<char>) -> bool {
    name.len() > 3 && name.skip(name.len() - 3) == seq!['.', 'p', 'y']
}

/// The stem of a source file's name.
pub open spec fn stem_of(name: Seq<char>) -> Seq<char> {
    name.take(name.len() - 3)
}

/// What the walk does with the entry `name` of the directory of `parent`.
/// A byte-code directory is passed over. Any other directory is entered,
/// under its name. A source file is processed, under its stem. Anything
/// else is passed over.
pub open spec fn entry_plan(
    parent: Seq<Seq<char>>,
    name: Seq<char>,
    is_dir: bool,
    is_file: bool,
) -> EntryPlan {
    if is_dir {
        if name == bytecode_dir() {
            EntryPlan::Skip
        } else {
            EntryPlan::Descend(parent.push(name))
        }
    } else if is_file && is_source_name(name) {
        EntryPlan::Process(parent.push(stem_of(name)))
    } else {
        EntryPlan::Skip
    }
}

/// The stem of `name` if it is the name of a source file.
pub fn source_stem(name: &str) -> (r: Option<String>)
    ensures
        match r {
            Some(stem) => is_source_name(name@) && stem@ == stem_of(name@),
            None => !is_source_name(name@),
        },
{
    let chars = chars_of(name);
    let n = chars.len();
    if n <= 3 {
        return None;
    }
    if chars[n - 3] == '.' && chars[n - 2] == 'p' && chars[n - 1] == 'y' {
        assert(name@.skip(n - 3) == seq!['.', 'p', 'y']);
        Some(text_of_prefix(&chars, n - 3))
    } else {
        assert(name@.skip(n - 3)[0] == name@[n - 3]);
        assert(name@.skip(n - 3)[1] == name@[n - 2]);
        assert(name@.skip(n - 3)[2] == name@[n - 1]);
        None
    }
}

/// Decides what the walk does with one entry of a directory.
pub fn classify_entry(parent: &ModulePath, name: &str, is_dir: bool, is_file: bool) -> (r:
    EntryAction)
    ensures
        r@ == entry_plan(parent@, name@, is_dir, is_file),
        is_dir && name@ == bytecode_dir() ==> r is Skip,
        !is_dir && !is_source_name(name@) ==> r is Skip,
{
    if is_dir {
        if same_text(name, "__pycache__") {
            return EntryAction::Skip;
        }
        return EntryAction::Descend(parent.append(name.to_owned()));
    }
    if !is_file {
        return EntryAction::Skip;
    }
    match source_stem(name) {
        Some(stem) => EntryAction::Process(parent.append(stem)),
        None => EntryAction::Skip,
    }
}

} // verus!
