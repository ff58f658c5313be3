//! Deciding whether a module is local, and resolving import specifiers.
//!
//! A resolver stands for one scan root: a directory, and optionally the
//! dotted name that the directory carries. A module is local when its source
//! file, or its package marker, is found below that directory. What is found
//! depends on the disk, so the verdicts themselves are not determined here;
//! which paths are asked for, and what follows from each answer, is.

use crate::disk::{is_regular_file, path_exists};
use crate::modpath::{
    dotted, is_canonical, leading_dots, lemma_round_trip, lemma_split_canonical,
    resolve_relative, split_dotted, ModulePath,
};
use crate::paths::{join_path, pushed};
use crate::text::{has_prefix, replace_char, replaced, same_text, strip_prefix, views_of};
use dashmap::DashMap;
use std::sync::Arc;
use vstd::prelude::*;

verus! {

/// The concurrent map of dashmap. Nothing inside it is visible here.
#[verifier::external_type_specification]
#[verifier::external_body]
#[verifier::reject_recursive_types(K)]
#[verifier::reject_recursive_types(V)]
#[verifier::reject_recursive_types(S)]
pub struct ExDashMap<K, V, S>(DashMap<K, V, S>);

/// `DashMap::new` of dashmap: a map without entries.
#[verifier::external_body]
fn new_cache() -> (cache: DashMap<String, bool>) {
    DashMap::new()
}

/// `DashMap::get` of dashmap, copied out of its guard: the verdict stored
/// under `key`, if there is one. The map is shared between workers, and any
/// of them may have stored it, so nothing is promised of what is found.
#[verifier::external_body]
fn cache_lookup(cache: &DashMap<String, bool>, key: &str) -> (hit: Option<bool>) {
    cache.get(key).map(|verdict| *verdict)
}

/// `DashMap::insert` of dashmap: stores `verdict` under `key`, in place of
/// what was stored there.
#[verifier::external_body]
fn cache_store(cache: &DashMap<String, bool>, key: &str, verdict: bool) {
    cache.insert(key.to_owned(), verdict);
}

/// The text with which the names inside the namespace `root` begin.
pub open spec fn namespace_prefix(root: Seq<char>) -> Seq<char> {
    root.push('.')
}

/// What `name` says inside the namespace: the empty text for the namespace
/// itself, what follows the prefix for a name below it, and `None` for a
/// name outside. Without a namespace every name is inside, as it stands.
pub open spec fn within_namespace(namespace: Option<Seq<char>>, name: Seq<char>) -> Option<
    Seq<char>,
> {
    match namespace {
        None => Some(name),
        Some(root) => {
            if name == root {
                Some(Seq::empty())
            } else if namespace_prefix(root).is_prefix_of(name) {
                Some(name.skip(root.len() as int + 1))
            } else {
                None
            }
        },
    }
}

/// The project-relative reading of `name`: what it says inside the
/// namespace, or the name itself where it lies outside.
pub open spec fn below_root(namespace: Option<Seq<char>>, name: Seq<char>) -> Seq<char> {
    match within_namespace(namespace, name) {
        Some(rest) => rest,
        None => name,
    }
}

/// The relative path of a dotted name: its dots become slashes.
pub open spec fn relative_text(name: Seq<char>) -> Seq<char> {
    replaced(name, '.', '/')
}

/// The name of the file that marks a directory as a package.
pub open spec fn package_marker() -> Seq<char> {
    "__init__.py"@
}

/// Where the source file of the module `rest` below `root_dir` would be.
/// The empty name stands for the root itself, whose file is its marker.
pub open spec fn source_candidate(root_dir: Seq<char>, rest: Seq<char>) -> Seq<char> {
    if rest.len() == 0 {
        pushed(root_dir, package_marker())
    } else {
        pushed(root_dir, relative_text(rest) + ".py"@)
    }
}

/// Where the package marker of the module `rest` below `root_dir` would be.
pub open spec fn package_candidate(root_dir: Seq<char>, rest: Seq<char>) -> Seq<char> {
    if rest.len() == 0 {
        pushed(root_dir, package_marker())
    } else {
        pushed(pushed(root_dir, relative_text(rest)), package_marker())
    }
}

/// Why a module that was not found counts as external.
pub open spec fn external_reason(
    root_dir: Seq<char>,
    namespace: Option<Seq<char>>,
    name: Seq<char>,
) -> Seq<char> {
    match namespace {
        Some(root) => match within_namespace(namespace, name) {
            None => "not in root module '"@ + root + "'"@,
            Some(rest) => "path not found under root: "@ + source_candidate(root_dir, rest)
                + " (or "@ + package_candidate(root_dir, rest) + ")"@,
        },
        None => "path not found under cwd: "@ + pushed(root_dir, relative_text(name) + ".py"@),
    }
}

/// The package that holds module `current`.
pub open spec fn enclosing(current: Seq<Seq<char>>) -> Seq<Seq<char>> {
    if current.len() == 0 {
        current
    } else {
        current.drop_last()
    }
}

/// The specifier `spec` read below the first `i` segments of the package
/// that holds `current`, as dotted text.
pub open spec fn prefixed_candidate(current: Seq<Seq<char>>, i: int, spec: Seq<char>) -> Seq<
    char,
> {
    dotted(enclosing(current).take(i) + split_dotted(spec))
}

/// Whether `spec` is written with the namespace in front.
pub open spec fn is_qualified(namespace: Option<Seq<char>>, spec: Seq<char>) -> bool {
    namespace matches Some(root) && (spec == root || namespace_prefix(root).is_prefix_of(spec))
}

/// The modules that `spec`, written in `current`, can resolve to. A relative
/// specifier and a qualified one have one reading. Any other resolves to
/// itself or to itself below a prefix of the enclosing package, depending on
/// what is found on disk.
pub open spec fn may_resolve_to(
    namespace: Option<Seq<char>>,
    current: Seq<Seq<char>>,
    spec: Seq<char>,
    result: Seq<Seq<char>>,
) -> bool {
    if leading_dots(spec) > 0 {
        result == resolve_relative(current, spec)
    } else if is_qualified(namespace, spec) {
        result == split_dotted(spec)
    } else {
        ||| result == split_dotted(spec)
        ||| exists|i: int|
            1 <= i <= enclosing(current).len() && result == split_dotted(
                #[trigger] prefixed_candidate(current, i, spec),
            )
    }
}

/// The module that the specifier `spec`, written in `current`, resolves to,
/// given the disk's answers: whether the specifier was found below the root
/// as written, and whether each prefixed candidate was found, the shortest
/// prefix first. A relative specifier and a qualified one have their one
/// reading, whatever the answers. Any other, found as written, is taken as
/// written, whatever the candidates. Else it is the first candidate that was
/// found, and the specifier as written where none was.
pub open spec fn resolved_from(
    namespace: Option<Seq<char>>,
    current: Seq<Seq<char>>,
    spec: Seq<char>,
    found_as_written: bool,
    answers: Seq<bool>,
) -> Seq<Seq<char>> {
    if leading_dots(spec) > 0 {
        resolve_relative(current, spec)
    } else if is_qualified(namespace, spec) || found_as_written {
        split_dotted(spec)
    } else {
        match first_yes(answers) {
            Some(i) => split_dotted(prefixed_candidate(current, i + 1, spec)),
            None => split_dotted(spec),
        }
    }
}

/// Below a canonical module, a prefixed candidate names the prefix followed
/// by the pieces of the specifier.
pub proof fn lemma_candidate_segments(current: Seq<Seq<char>>, i: int, spec: Seq<char>)
    requires
        is_canonical(current),
        0 <= i <= enclosing(current).len(),
    ensures
        split_dotted(prefixed_candidate(current, i, spec)) == enclosing(current).take(i)
            + split_dotted(spec),
{
    lemma_split_canonical(spec);
    let all = enclosing(current).take(i) + split_dotted(spec);
    assert forall|j: int| 0 <= j < all.len() implies crate::modpath::valid_segment(
        #[trigger] all[j],
    ) by {
        if j < i {
            assert(all[j] == current[j]);
        } else {
            assert(all[j] == split_dotted(spec)[j - i]);
        }
    }
    lemma_round_trip(all);
}

/// Every module that a specifier can resolve to below a canonical module is
/// canonical.
pub proof fn lemma_resolution_canonical(
    namespace: Option<Seq<char>>,
    current: Seq<Seq<char>>,
    spec: Seq<char>,
    result: Seq<Seq<char>>,
)
    requires
        is_canonical(current),
        may_resolve_to(namespace, current, spec, result),
    ensures
        is_canonical(result),
{
    lemma_split_canonical(spec);
    if leading_dots(spec) > 0 {
        let k = leading_dots(spec) as int;
        lemma_split_canonical(spec.skip(k));
    } else if result != split_dotted(spec) {
        let i = choose|i: int|
            1 <= i <= enclosing(current).len() && result == split_dotted(
                #[trigger] prefixed_candidate(current, i, spec),
            );
        lemma_split_canonical(prefixed_candidate(current, i, spec));
    }
}

/// What a classification of `module` says: a local module has the empty
/// reason, an external one the reason that its name and the root give.
pub open spec fn classifies(
    root_dir: Seq<char>,
    namespace: Option<Seq<char>>,
    module: Seq<Seq<char>>,
    local: bool,
    reason: Seq<char>,
) -> bool {
    if local {
        reason.len() == 0
    } else {
        reason == external_reason(root_dir, namespace, dotted(module))
    }
}

/// Two classifications of one module below one root that agree on the
/// verdict agree on the reason, and an external module has a reason.
pub proof fn lemma_reason_is_determined(
    root_dir: Seq<char>,
    namespace: Option<Seq<char>>,
    module: Seq<Seq<char>>,
    local: bool,
    first: Seq<char>,
    second: Seq<char>,
)
    requires
        classifies(root_dir, namespace, module, local, first),
        classifies(root_dir, namespace, module, local, second),
    ensures
        first == second,
        !local ==> first.len() > 0,
{
    lemma_reason_not_empty(root_dir, namespace, dotted(module));
}

/// The reason given for an external module is never empty.
pub proof fn lemma_reason_not_empty(
    root_dir: Seq<char>,
    namespace: Option<Seq<char>>,
    name: Seq<char>,
)
    ensures
        external_reason(root_dir, namespace, name).len() > 0,
{
    reveal_strlit("not in root module '");
    reveal_strlit("path not found under root: ");
    reveal_strlit("path not found under cwd: ");
}

/// Where the source file of the module `rest` below `root_dir` would be.
pub fn source_candidate_path(root_dir: &str, rest: &str) -> (r: String)
    ensures
        r@ == source_candidate(root_dir@, rest@),
{
    if rest.unicode_len() == 0 {
        join_path(root_dir, "__init__.py")
    } else {
        let mut rel = replace_char(rest, '.', '/');
        rel.append(".py");
        join_path(root_dir, rel.as_str())
    }
}

/// Where the package marker of the module `rest` below `root_dir` would be.
pub fn package_candidate_path(root_dir: &str, rest: &str) -> (r: String)
    ensures
        r@ == package_candidate(root_dir@, rest@),
{
    if rest.unicode_len() == 0 {
        join_path(root_dir, "__init__.py")
    } else {
        let rel = replace_char(rest, '.', '/');
        let dir = join_path(root_dir, rel.as_str());
        join_path(dir.as_str(), "__init__.py")
    }
}

/// What is asked of the disk about a path.
#[derive(Debug, Clone, Copy, PartialEq, Eq)]
pub enum ProbeKind {
    /// Whether the path leads to a regular file.
    RegularFile,
    /// Whether anything is found at the path.
    Anything,
}

/// One question to the disk.
#[derive(Debug, PartialEq, Eq)]
pub struct Probe {
    pub path: String,
    pub kind: ProbeKind,
}

/// A question to the disk as plain values.
pub struct ProbeView {
    pub path: Seq<char>,
    pub kind: ProbeKind,
}

impl View for Probe {
    type V = ProbeView;

    open spec fn view(&self) -> ProbeView {
        ProbeView { path: self.path@, kind: self.kind }
    }
}

/// The views of a list of questions, item by item.
pub open spec fn probe_views(probes: Seq<Probe>) -> Seq<ProbeView> {
    Seq::new(probes.len(), |i: int| probes[i]@)
}

/// The questions that decide whether the module `rest` is found below
/// `root_dir`, in the order in which they are asked. The root itself, which
/// is the empty name, is found where its package marker is. Any other module
/// is found where its source file is a regular file, or else where its
/// package marker is.
pub open spec fn probes_for(root_dir: Seq<char>, rest: Seq<char>) -> Seq<ProbeView> {
    if rest.len() == 0 {
        seq![ProbeView { path: package_candidate(root_dir, rest), kind: ProbeKind::Anything }]
    } else {
        seq![
            ProbeView { path: source_candidate(root_dir, rest), kind: ProbeKind::RegularFile },
            ProbeView { path: package_candidate(root_dir, rest), kind: ProbeKind::Anything },
        ]
    }
}

/// The questions that decide whether the module `rest` is found below
/// `root_dir`, in the order in which they are asked.
pub fn probe_plan(root_dir: &str, rest: &str) -> (r: Vec<Probe>)
    ensures
        probe_views(r@) == probes_for(root_dir@, rest@),
{
    let mut plan: Vec<Probe> = Vec::new();
    if rest.unicode_len() > 0 {
        plan.push(
            Probe { path: source_candidate_path(root_dir, rest), kind: ProbeKind::RegularFile },
        );
    }
    plan.push(Probe { path: package_candidate_path(root_dir, rest), kind: ProbeKind::Anything });
    assert(probe_views(plan@) =~= probes_for(root_dir@, rest@));
    plan
}

/// The questions that decide whether `name`, read inside the namespace, is
/// found below `root_dir`: those for what the name says inside the
/// namespace. A name outside the namespace raises none.
pub open spec fn in_root_probes(
    root_dir: Seq<char>,
    namespace: Option<Seq<char>>,
    name: Seq<char>,
) -> Seq<ProbeView> {
    match within_namespace(namespace, name) {
        Some(rest) => probes_for(root_dir, rest),
        None => Seq::empty(),
    }
}

/// The questions that decide whether `name`, read project-relative, is
/// found below `root_dir`: those for what the name says inside the
/// namespace, and for the name as written where it lies outside. The empty
/// name raises none.
pub open spec fn under_root_probes(
    root_dir: Seq<char>,
    namespace: Option<Seq<char>>,
    name: Seq<char>,
) -> Seq<ProbeView> {
    if name.len() == 0 {
        Seq::empty()
    } else {
        probes_for(root_dir, below_root(namespace, name))
    }
}

/// Puts one question to the disk.
fn ask(probe: &Probe) -> (found: bool) {
    match probe.kind {
        ProbeKind::RegularFile => is_regular_file(probe.path.as_str()),
        ProbeKind::Anything => path_exists(probe.path.as_str()),
    }
}

/// Puts the questions to the disk in their order, up to and with the first
/// that is answered with yes, and hands back the answers. So no answer but
/// the last can be a yes. What the answers are is the disk's to say.
fn answers_to(plan: &Vec<Probe>) -> (answers: Vec<bool>)
    ensures
        answers@.len() <= plan@.len(),
        forall|i: int| 0 <= i < answers@.len() - 1 ==> !answers@[i],
{
    let mut answers: Vec<bool> = Vec::new();
    while answers.len() < plan.len()
        invariant_except_break
            forall|i: int| 0 <= i < answers@.len() ==> !answers@[i],
        invariant
            answers@.len() <= plan@.len(),
        ensures
            answers@.len() <= plan@.len(),
            forall|i: int| 0 <= i < answers@.len() - 1 ==> !answers@[i],
        decreases plan@.len() - answers@.len(),
    {
        let found = ask(&plan[answers.len()]);
        answers.push(found);
        if found {
            break;
        }
    }
    answers
}

/// Whether one of the answers is a yes.
pub fn found_among(answers: &[bool]) -> (found: bool)
    ensures
        found == exists|i: int| 0 <= i < answers@.len() && answers@[i],
{
    let mut i: usize = 0;
    while i < answers.len()
        invariant
            i <= answers@.len(),
            forall|j: int| 0 <= j < i ==> !answers@[j],
        decreases answers@.len() - i,
    {
        if answers[i] {
            return true;
        }
        i = i + 1;
    }
    false
}

/// The position of the first yes among the answers, if there is one.
pub open spec fn first_yes(answers: Seq<bool>) -> Option<int>
    decreases answers.len(),
{
    if answers.len() == 0 {
        None
    } else {
        match first_yes(answers.drop_last()) {
            Some(i) => Some(i),
            None => if answers.last() {
                Some(answers.len() - 1)
            } else {
                None
            },
        }
    }
}

/// A first yes among the first `k` answers is the first yes among all.
pub proof fn lemma_first_yes_stays(answers: Seq<bool>, k: int)
    requires
        0 <= k <= answers.len(),
        first_yes(answers.take(k)) is Some,
    ensures
        first_yes(answers) == first_yes(answers.take(k)),
    decreases answers.len() - k,
{
    if k == answers.len() {
        assert(answers.take(k) == answers);
    } else {
        assert(answers.take(k + 1).drop_last() == answers.take(k));
        lemma_first_yes_stays(answers, k + 1);
    }
}

/// The position of the first yes among the answers, if there is one.
pub fn pick_first(found: &[bool]) -> (r: Option<usize>)
    ensures
        match r {
            Some(i) => i < found@.len() && found@[i as int] && forall|j: int|
                0 <= j < i ==> !found@[j],
            None => forall|j: int| 0 <= j < found@.len() ==> !found@[j],
        },
        first_yes(found@) == match r {
            Some(i) => Some(i as int),
            None => None,
        },
{
    let mut i: usize = 0;
    proof {
        assert(found@.take(0).len() == 0);
    }
    while i < found.len()
        invariant
            i <= found@.len(),
            forall|j: int| 0 <= j < i ==> !found@[j],
            first_yes(found@.take(i as int)) is None,
        decreases found@.len() - i,
    {
        proof {
            assert(found@.take(i + 1).drop_last() == found@.take(i as int));
            assert(found@.take(i + 1).last() == found@[i as int]);
        }
        if found[i] {
            proof {
                lemma_first_yes_stays(found@, i + 1);
            }
            return Some(i);
        }
        i = i + 1;
    }
    proof {
        assert(found@.take(i as int) == found@);
    }
    None
}

/// The verdict on a name: what is remembered of it, or else whether one of
/// the two checks found it.
pub fn local_verdict(remembered: Option<bool>, in_root: bool, under_root: bool) -> (local: bool)
    ensures
        local == match remembered {
            Some(known) => known,
            None => in_root || under_root,
        },
{
    match remembered {
        Some(known) => known,
        None => in_root || under_root,
    }
}

/// The module that a specifier without leading dots and without the
/// namespace stands for, given the disk's answers. Found as written, it is
/// taken as written, whatever the candidates. Else it is the first candidate
/// that was found, and the specifier as written where none was.
pub fn resolution(
    found_as_written: bool,
    candidates: &[String],
    first: Option<usize>,
    import: &str,
) -> (r: ModulePath)
    requires
        first matches Some(i) ==> i < candidates@.len(),
    ensures
        r@ == if found_as_written {
            split_dotted(import@)
        } else {
            match first {
                Some(i) => split_dotted(candidates@[i as int]@),
                None => split_dotted(import@),
            }
        },
        is_canonical(r@),
{
    if found_as_written {
        return ModulePath::from_dotted(import);
    }
    match first {
        Some(i) => ModulePath::from_dotted(candidates[i].as_str()),
        None => ModulePath::from_dotted(import),
    }
}

/// Resolves import specifiers and tells local modules from external ones,
/// for one scan root. It remembers its verdicts by dotted name; the memory
/// can be shared between workers.
pub struct ImportResolver {
    cache: Arc<DashMap<String, bool>>,
    root_dir: String,
    root_module: Option<String>,
    root_module_prefix: Option<String>,
}

impl Clone for ImportResolver {
    /// A resolver for the same root and namespace that shares the memory of
    /// this one.
    fn clone(&self) -> (r: Self)
        ensures
            r.root_text() == self.root_text(),
            r.namespace() == self.namespace(),
    {
        proof {
            use_type_invariant(self);
        }
        ImportResolver {
            cache: self.cache.clone(),
            root_dir: self.root_dir.clone(),
            root_module: self.root_module.clone(),
            root_module_prefix: self.root_module_prefix.clone(),
        }
    }
}

impl Default for ImportResolver {
    /// The resolver of the empty directory path, without a namespace.
    fn default() -> (r: Self)
        ensures
            r.root_text().len() == 0,
            r.namespace() is None,
    {
        ImportResolver::new(String::new(), None, false)
    }
}

impl ImportResolver {
    #[verifier::type_invariant]
    spec fn prefix_fits(self) -> bool {
        match (self.root_module, self.root_module_prefix) {
            (Some(root), Some(prefix)) => prefix@ == namespace_prefix(root@),
            (None, None) => true,
            _ => false,
        }
    }

    /// The directory of the scan root, as text.
    pub closed spec fn root_text(&self) -> Seq<char> {
        self.root_dir@
    }

    /// The dotted name that the root directory carries, if it carries one.
    pub closed spec fn namespace(&self) -> Option<Seq<char>> {
        match self.root_module {
            Some(root) => Some(root@),
            None => None,
        }
    }

    /// A resolver for the directory `root_dir`, which carries the dotted
    /// name `root_module` if one is given. It has no verdict yet.
    pub fn new(root_dir: String, root_module: Option<String>, _verbose: bool) -> (r:
        ImportResolver)
        ensures
            r.root_text() == root_dir@,
            r.namespace() == match root_module {
                Some(root) => Some(root@),
                None => None,
            },
    {
        let root_module_prefix = match &root_module {
            Some(root) => {
                let mut prefix = root.clone();
                prefix.push('.');
                Some(prefix)
            },
            None => None,
        };
        ImportResolver {
            cache: Arc::new(new_cache()),
            root_dir,
            root_module,
            root_module_prefix,
        }
    }

    /// The directory of the scan root.
    pub fn root_dir(&self) -> (r: &str)
        ensures
            r@ == self.root_text(),
    {
        self.root_dir.as_str()
    }

    /// What `name` says inside the namespace, or `None` where it lies
    /// outside.
    pub fn namespace_rest(&self, name: &str) -> (r: Option<String>)
        ensures
            match r {
                Some(rest) => within_namespace(self.namespace(), name@) == Some(rest@),
                None => within_namespace(self.namespace(), name@) is None,
            },
    {
        proof {
            use_type_invariant(self);
        }
        match (&self.root_module, &self.root_module_prefix) {
            (Some(root), Some(prefix)) => {
                if same_text(name, root.as_str()) {
                    Some(String::new())
                } else {
                    let rest = strip_prefix(name, prefix.as_str());
                    rest
                }
            },
            _ => Some(name.to_owned()),
        }
    }

    /// Whether the specifier is written with the namespace in front.
    pub fn has_namespace(&self, spec: &str) -> (r: bool)
        ensures
            r == is_qualified(self.namespace(), spec@),
    {
        proof {
            use_type_invariant(self);
        }
        match (&self.root_module, &self.root_module_prefix) {
            (Some(root), Some(prefix)) => same_text(spec, root.as_str()) || has_prefix(
                spec,
                prefix.as_str(),
            ),
            _ => false,
        }
    }

    /// Asks the disk whether a module is found below the root: puts the
    /// questions of the plan in their order, up to the first that is
    /// answered with yes. The module is found where, by `found_among`, one
    /// of the answers is a yes. Without a question it is not found; with
    /// one, the answers are the disk's.
    fn found_below_root(plan: &Vec<Probe>) -> (found: bool)
        ensures
            plan@.len() == 0 ==> !found,
    {
        let answers = answers_to(plan);
        found_among(answers.as_slice())
    }

    /// The questions that decide whether `name`, read inside the namespace,
    /// is found below the root.
    pub fn in_root_plan(&self, name: &str) -> (r: Vec<Probe>)
        ensures
            probe_views(r@) == in_root_probes(self.root_text(), self.namespace(), name@),
    {
        match self.namespace_rest(name) {
            Some(rest) => probe_plan(self.root_dir.as_str(), rest.as_str()),
            None => {
                let plan: Vec<Probe> = Vec::new();
                assert(probe_views(plan@) =~= Seq::<ProbeView>::empty());
                plan
            },
        }
    }

    /// The questions that decide whether `name`, read project-relative, is
    /// found below the root. The prefix of the namespace is taken off where
    /// the name has it; a name without it is not turned away but asked for
    /// as written.
    pub fn under_root_plan(&self, name: &str) -> (r: Vec<Probe>)
        ensures
            probe_views(r@) == under_root_probes(self.root_text(), self.namespace(), name@),
    {
        if name.unicode_len() == 0 {
            let plan: Vec<Probe> = Vec::new();
            assert(probe_views(plan@) =~= Seq::<ProbeView>::empty());
            return plan;
        }
        match self.namespace_rest(name) {
            Some(rest) => probe_plan(self.root_dir.as_str(), rest.as_str()),
            None => probe_plan(self.root_dir.as_str(), name),
        }
    }

    /// Whether `name`, read inside the namespace, is found below the root:
    /// whether the disk says yes to one of the questions of `in_root_plan`.
    /// A name outside the namespace raises none and is never found.
    pub fn exists_in_root(&self, name: &str) -> (found: bool)
        ensures
            within_namespace(self.namespace(), name@) is None ==> !found,
    {
        let plan = self.in_root_plan(name);
        assert(probe_views(plan@).len() == plan@.len());
        Self::found_below_root(&plan)
    }

    /// Whether `name`, read project-relative, is found below the root, with
    /// the namespace in front or without it: whether the disk says yes to
    /// one of the questions of `under_root_plan`. The empty name raises none
    /// and is never found.
    pub fn module_exists_under_root(&self, name: &str) -> (found: bool)
        ensures
            name@.len() == 0 ==> !found,
    {
        let plan = self.under_root_plan(name);
        assert(probe_views(plan@).len() == plan@.len());
        Self::found_below_root(&plan)
    }

    /// Whether the dotted name is that of a local module. The empty name
    /// never is. For any other the verdict is that of `local_verdict`: what
    /// the memory holds for the name, or else whether `exists_in_root` or
    /// `module_exists_under_root` finds it, which is then remembered.
    pub fn is_local_dotted(&self, name: &str) -> (local: bool)
        ensures
            name@.len() == 0 ==> !local,
    {
        if name.unicode_len() == 0 {
            return false;
        }
        let remembered = cache_lookup(&self.cache, name);
        let mut in_root = false;
        let mut under_root = false;
        if remembered.is_none() {
            in_root = self.exists_in_root(name);
            if !in_root {
                under_root = self.module_exists_under_root(name);
            }
        }
        let local = local_verdict(remembered, in_root, under_root);
        if remembered.is_none() {
            cache_store(&self.cache, name, local);
        }
        local
    }

    /// Whether the module is local: whether its dotted name is that of a
    /// local module. A module whose dotted name is empty, as that of the
    /// empty path is, never is.
    pub fn is_local_module(&self, module: &ModulePath) -> (local: bool)
        ensures
            dotted(module@).len() == 0 ==> !local,
            module@.len() == 0 ==> !local,
    {
        let name = module.to_dotted();
        proof {
            if module@.len() == 0 {
                assert(dotted(module@).len() == 0);
            }
        }
        self.is_local_dotted(name.as_str())
    }

    /// Why the dotted name counts as external, given that it was not found.
    pub fn explain_external(&self, name: &str) -> (r: String)
        ensures
            r@ == external_reason(self.root_text(), self.namespace(), name@),
            r@.len() > 0,
    {
        proof {
            lemma_reason_not_empty(self.root_text(), self.namespace(), name@);
        }
        match &self.root_module {
            Some(root) => {
                match self.namespace_rest(name) {
                    None => {
                        let mut out = "not in root module '".to_owned();
                        out.append(root.as_str());
                        out.append("'");
                        out
                    },
                    Some(rest) => {
                        let mut out = "path not found under root: ".to_owned();
                        out.append(
                            source_candidate_path(self.root_dir.as_str(), rest.as_str()).as_str(),
                        );
                        out.append(" (or ");
                        out.append(
                            package_candidate_path(
                                self.root_dir.as_str(),
                                rest.as_str(),
                            ).as_str(),
                        );
                        out.append(")");
                        out
                    },
                }
            },
            None => {
                let mut rel = replace_char(name, '.', '/');
                rel.append(".py");
                let mut out = "path not found under cwd: ".to_owned();
                out.append(join_path(self.root_dir.as_str(), rel.as_str()).as_str());
                out
            },
        }
    }

    /// The classification of the dotted name `name`, given whether it was
    /// found to be local: the verdict as given, with the empty reason for a
    /// local module and the reason for an external one.
    pub fn classified(&self, local: bool, name: &str) -> (r: (bool, String))
        ensures
            r.0 == local,
            r.1@ == if local {
                Seq::<char>::empty()
            } else {
                external_reason(self.root_text(), self.namespace(), name@)
            },
            !r.0 ==> r.1@.len() > 0,
    {
        if local {
            (true, String::new())
        } else {
            (false, self.explain_external(name))
        }
    }

    /// Whether the module is local, and if it is not, why it counts as
    /// external. A local module has the empty reason. The verdict is that
    /// of `is_local_dotted` on the module's dotted name; what is returned
    /// for it is that of `classified`.
    pub fn classify_module(&self, module: &ModulePath) -> (r: (bool, String))
        ensures
            classifies(self.root_text(), self.namespace(), module@, r.0, r.1@),
            r.0 ==> dotted(module@).len() > 0 && module@.len() > 0,
            !r.0 ==> r.1@.len() > 0,
    {
        let name = module.to_dotted();
        let local = self.is_local_dotted(name.as_str());
        proof {
            if module@.len() == 0 {
                assert(dotted(module@).len() == 0);
            }
        }
        self.classified(local, name.as_str())
    }

    /// The module that the specifier `import` names when written in module
    /// `current`. A relative specifier is read against `current`. One that
    /// carries the namespace is taken as it stands, and so is one that is
    /// found below the root as it stands. Any other is tried below the
    /// prefixes of the package that holds `current`, the shortest first, and
    /// the first one found is taken. Where none is found the specifier
    /// stands as written. The candidates are asked for in their order, up
    /// to the first that is found; which one is taken for the answers is
    /// decided by `pick_first` and `resolution`.
    pub fn resolve_import(&self, current: &ModulePath, import: &str) -> (r: ModulePath)
        ensures
            exists|found_as_written: bool, answers: Seq<bool>|
                answers.len() <= enclosing(current@).len() && r@ == #[trigger] resolved_from(
                    self.namespace(),
                    current@,
                    import@,
                    found_as_written,
                    answers,
                ),
            may_resolve_to(self.namespace(), current@, import@, r@),
            is_canonical(current@) ==> is_canonical(r@),
    {
        proof {
            lemma_split_canonical(import@);
        }
        if crate::modpath::count_leading_dots(import) > 0 {
            let r = ModulePath::from_import(current, import);
            assert(r@ == resolved_from(
                self.namespace(),
                current@,
                import@,
                false,
                Seq::<bool>::empty(),
            ));
            return r;
        }
        if self.has_namespace(import) {
            let r = ModulePath::from_dotted(import);
            assert(r@ == resolved_from(
                self.namespace(),
                current@,
                import@,
                false,
                Seq::<bool>::empty(),
            ));
            return r;
        }
        let found_as_written = self.module_exists_under_root(import);
        let candidates = if found_as_written {
            Vec::new()
        } else {
            prefixed_candidates(current, import)
        };
        let mut answers: Vec<bool> = Vec::new();
        if !found_as_written {
            while answers.len() < candidates.len()
                invariant
                    answers@.len() <= candidates@.len(),
                    candidates@.len() == enclosing(current@).len(),
                decreases candidates@.len() - answers@.len(),
            {
                let candidate = candidates[answers.len()].as_str();
                let found = if self.root_module.is_some() {
                    self.is_local_dotted(candidate)
                } else {
                    self.module_exists_under_root(candidate)
                };
                answers.push(found);
                if found {
                    break;
                }
            }
        }
        let first = pick_first(answers.as_slice());
        proof {
            if !found_as_written {
                if let Some(i) = first {
                    assert(candidates@[i as int]@ == prefixed_candidate(
                        current@,
                        i + 1,
                        import@,
                    ));
                }
            }
        }
        let r = resolution(found_as_written, candidates.as_slice(), first, import);
        proof {
            let asked = if found_as_written {
                Seq::<bool>::empty()
            } else {
                answers@
            };
            assert(r@ == resolved_from(
                self.namespace(),
                current@,
                import@,
                found_as_written,
                asked,
            ));
        }
        r
    }
}

/// The names under which the specifier `import` is tried below the package
/// that holds `current`: below its first segment, below its first two, and
/// so on to the whole package.
pub fn prefixed_candidates(current: &ModulePath, import: &str) -> (r: Vec<String>)
    ensures
        r@.len() == enclosing(current@).len(),
        forall|k: int|
            0 <= k < r@.len() ==> (#[trigger] r@[k])@ == prefixed_candidate(
                current@,
                k + 1,
                import@,
            ),
{
    let written = ModulePath::from_dotted(import);
    let outer = match current.split_last() {
        Some((_, parent)) => parent,
        None => ModulePath::default(),
    };
    assert(outer@ == enclosing(current@));
    let outer_parts = outer.segments();
    let written_parts = written.segments();
    let mut candidates: Vec<String> = Vec::new();
    let mut done: usize = 0;
    while done < outer_parts.len()
        invariant
            done <= outer_parts@.len(),
            candidates@.len() == done,
            views_of(outer_parts@) == enclosing(current@),
            views_of(written_parts@) == split_dotted(import@),
            forall|k: int|
                0 <= k < done ==> (#[trigger] candidates@[k])@ == prefixed_candidate(
                    current@,
                    k + 1,
                    import@,
                ),
        decreases outer_parts@.len() - done,
    {
        let i = done + 1;
        let mut combined: Vec<String> = Vec::new();
        let mut j: usize = 0;
        while j < i
            invariant
                j <= i <= outer_parts@.len(),
                views_of(combined@) == views_of(outer_parts@).take(j as int),
            decreases i - j,
        {
            let ghost before = views_of(combined@);
            combined.push(outer_parts[j].clone());
            assert(views_of(combined@) == before.push(views_of(outer_parts@)[j as int]));
            j = j + 1;
        }
        let mut k: usize = 0;
        while k < written_parts.len()
            invariant
                k <= written_parts@.len(),
                i <= outer_parts@.len(),
                views_of(combined@) == views_of(outer_parts@).take(i as int) + views_of(
                    written_parts@,
                ).take(k as int),
            decreases written_parts@.len() - k,
        {
            let ghost before = views_of(combined@);
            combined.push(written_parts[k].clone());
            assert(views_of(combined@) == before.push(views_of(written_parts@)[k as int]));
            k = k + 1;
        }
        assert(views_of(written_parts@).take(k as int) == views_of(written_parts@));
        let candidate = ModulePath::new(combined).to_dotted();
        assert(candidate@ == prefixed_candidate(current@, i as int, import@));
        candidates.push(candidate);
        done = done + 1;
    }
    candidates
}

} // verus!
