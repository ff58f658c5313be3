//! Processing one source file: hashing its content, reusing or renewing the
//! cached edges, and holding every edge against the rules.
//!
//! Reading and writing files is left to the caller. What is decided here is
//! whether a stored cache entry may be used, which entry is to be stored, and
//! which issues the edges raise.

use crate::configs::run::RunConfig;
use crate::disk::{is_directory, path_exists};
use crate::imports::classification::ImportResolver;
use crate::imports::collection::{extraction_of, get_file_imports};
use crate::imports::import_line::{edge_views, EdgeView, ImportLine};
use crate::modpath::{
    dir_path, dotted, is_canonical, lemma_round_trip, lemma_split_canonical, module_file,
    split_dotted, ModulePath,
};
use crate::paths::{at_or_above, join_path, nth_parent, parent_dir, parent_of, pushed};
use crate::results::{issue_views, Issue, IssueView};
use crate::rules::ImportRule;
use crate::text::{digit_char, same_text};
use vstd::prelude::*;
use vstd::string::StringSliceAdditionalSpecFns;

verus! {

/// The BLAKE3 digest of a byte string: what `blake3::hash` returns for it.
pub uninterp spec fn blake3_digest(input: Seq<u8>) -> Seq<u8>;

/// `blake3::hash` of blake3, its 32 bytes copied out: the BLAKE3 digest of
/// `input`, which depends on the bytes of `input` and on nothing else.
#[verifier::external_body]
fn digest(input: &[u8]) -> (r: Vec<u8>)
    ensures
        r@ == blake3_digest(input@),
{
    blake3::hash(input).as_bytes().to_vec()
}

/// The character that writes the hexadecimal digit `d` in lower case.
pub open spec fn hex_char(d: int) -> char {
    if d < 10 {
        digit_char(d)
    } else if d == 10 {
        'a'
    } else if d == 11 {
        'b'
    } else if d == 12 {
        'c'
    } else if d == 13 {
        'd'
    } else if d == 14 {
        'e'
    } else {
        'f'
    }
}

/// The bytes written as two lower-case hexadecimal digits each.
pub open spec fn hex_lower(bytes: Seq<u8>) -> Seq<char>
    decreases bytes.len(),
{
    if bytes.len() == 0 {
        Seq::empty()
    } else {
        hex_lower(bytes.drop_last()).push(hex_char(bytes.last() as int / 16)).push(
            hex_char(bytes.last() as int % 16),
        )
    }
}

/// The key under which the content of a file is cached: its BLAKE3 digest in
/// hexadecimal.
pub open spec fn content_hash(content: Seq<u8>) -> Seq<char> {
    hex_lower(blake3_digest(content))
}

/// The character of a hexadecimal digit.
fn hex_digit(d: u8) -> (c: char)
    requires
        d < 16,
    ensures
        c == hex_char(d as int),
{
    if d == 0 {
        '0'
    } else if d == 1 {
        '1'
    } else if d == 2 {
        '2'
    } else if d == 3 {
        '3'
    } else if d == 4 {
        '4'
    } else if d == 5 {
        '5'
    } else if d == 6 {
        '6'
    } else if d == 7 {
        '7'
    } else if d == 8 {
        '8'
    } else if d == 9 {
        '9'
    } else if d == 10 {
        'a'
    } else if d == 11 {
        'b'
    } else if d == 12 {
        'c'
    } else if d == 13 {
        'd'
    } else if d == 14 {
        'e'
    } else {
        'f'
    }
}

/// The bytes in lower-case hexadecimal.
pub fn to_hex(bytes: &[u8]) -> (r: String)
    ensures
        r@ == hex_lower(bytes@),
{
    let mut out = String::new();
    let mut i: usize = 0;
    while i < bytes.len()
        invariant
            i <= bytes@.len(),
            out@ == hex_lower(bytes@.take(i as int)),
        decreases bytes@.len() - i,
    {
        proof {
            assert(bytes@.take(i + 1).drop_last() == bytes@.take(i as int));
            assert(bytes@.take(i + 1).last() == bytes@[i as int]);
        }
        out.push(hex_digit(bytes[i] / 16));
        out.push(hex_digit(bytes[i] % 16));
        i = i + 1;
    }
    assert(bytes@.take(i as int) == bytes@);
    out
}

/// The version of the cache format that is written.
pub fn cache_version_current() -> (v: u8)
    ensures
        v == 2,
{
    2
}

/// The hash of a file's content.
pub fn compute_hash_from_string(content: &str) -> (r: String)
    ensures
        r@ == content_hash(content.spec_bytes()),
{
    let bytes = digest(content.as_bytes());
    to_hex(bytes.as_slice())
}

/// What the search for the project root does at one directory.
#[derive(Debug, PartialEq, Eq)]
pub enum RootStep {
    /// The directory holds a manifest; it is the project root.
    Found,
    /// The directory holds none; the search goes on at its parent.
    Up(String),
    /// The directory holds none and has no parent; the search gives up.
    Fallback,
}

/// What the search for the project root does at the directory `cur`, given
/// whether it holds a manifest. With a manifest the search has found the
/// root. Without one it goes up to the parent, and gives up where there is
/// no parent.
pub fn root_step(cur: &str, has_manifest: bool) -> (r: RootStep)
    ensures
        has_manifest ==> r is Found,
        !has_manifest ==> match parent_of(cur@) {
            Some(p) => r matches RootStep::Up(d) && d@ == p,
            None => r is Fallback,
        },
        r matches RootStep::Up(d) ==> d@.len() < cur@.len(),
{
    if has_manifest {
        return RootStep::Found;
    }
    match parent_dir(cur) {
        Some(parent) => RootStep::Up(parent),
        None => RootStep::Fallback,
    }
}

/// The nearest directory, from `start` upward, that holds a project
/// manifest; `start` itself where none does. The disk is asked for the
/// manifest at `start` and then at each directory above it in turn; what is
/// done on each answer is that of `root_step`, and where the search gives up
/// the result is `start`.
pub fn find_project_root(start: &str) -> (r: String)
    ensures
        at_or_above(r@, start@),
        parent_of(start@) is None ==> r@ == start@,
{
    let mut cur = start.to_owned();
    let ghost mut steps: nat = 0;
    loop
        invariant
            nth_parent(start@, steps) == Some(cur@),
            nth_parent(start@, 0) == Some(start@),
            steps == 0 ==> cur@ == start@,
            parent_of(start@) is None ==> steps == 0,
        decreases cur@.len(),
    {
        let candidate = join_path(cur.as_str(), "pyproject.toml");
        let has_manifest = path_exists(candidate.as_str());
        match root_step(cur.as_str(), has_manifest) {
            RootStep::Found => {
                return cur;
            },
            RootStep::Up(parent) => {
                proof {
                    steps = steps + 1;
                }
                cur = parent;
            },
            RootStep::Fallback => {
                return start.to_owned();
            },
        }
    }
}

/// A stored record of the edges of one file.
#[derive(Debug, PartialEq, Eq)]
pub struct CacheEntry {
    /// The version of the format in which the record was written.
    pub version: u8,
    /// The hash of the content from which the edges were extracted.
    pub hash: String,
    /// For each edge the dotted text of its target, and its line.
    pub imports: Vec<(String, u32)>,
}

/// The stored pairs as plain values.
pub open spec fn stored_pairs(imports: Seq<(String, u32)>) -> Seq<(Seq<char>, u32)> {
    Seq::new(imports.len(), |i: int| (imports[i].0@, imports[i].1))
}

/// Whether a record of the given version and hash stands for content with
/// hash `hash`: its version is supported and the hashes agree.
pub open spec fn entry_valid(version: u8, stored_hash: Seq<char>, hash: Seq<char>) -> bool {
    version >= 2 && stored_hash == hash
}

/// The edges that stored pairs stand for in module `module`.
pub open spec fn edges_from_pairs(module: Seq<Seq<char>>, pairs: Seq<(Seq<char>, u32)>) -> Seq<
    EdgeView,
> {
    Seq::new(
        pairs.len(),
        |i: int| EdgeView { from: module, target: split_dotted(pairs[i].0), line: pairs[i].1 },
    )
}

/// The pairs under which edges are stored.
pub open spec fn pairs_from_edges(edges: Seq<EdgeView>) -> Seq<(Seq<char>, u32)> {
    Seq::new(edges.len(), |i: int| (dotted(edges[i].target), edges[i].line))
}

/// What was stored for a file is what is loaded for it while its content is
/// unchanged: a record written for a hash is valid for that hash and for no
/// other, and the edges read from it are the edges written, provided that
/// they start at the file's module and lead to canonical modules.
pub proof fn lemma_cache_coherent(
    module: Seq<Seq<char>>,
    hash: Seq<char>,
    other_hash: Seq<char>,
    edges: Seq<EdgeView>,
)
    requires
        forall|i: int|
            0 <= i < edges.len() ==> (#[trigger] edges[i]).from == module && is_canonical(
                edges[i].target,
            ),
    ensures
        entry_valid(2, hash, hash),
        other_hash != hash ==> !entry_valid(2, hash, other_hash),
        edges_from_pairs(module, pairs_from_edges(edges)) == edges,
{
    let back = edges_from_pairs(module, pairs_from_edges(edges));
    assert forall|i: int| 0 <= i < edges.len() implies back[i] == edges[i] by {
        lemma_round_trip(edges[i].target);
    }
    assert(back =~= edges);
}

/// The edges of module `module` that the record holds, if the record stands
/// for content with hash `hash`. A missing record, one of an unsupported
/// version and one for another hash all count as a miss.
pub fn try_load_cache(stored: Option<&CacheEntry>, module: &ModulePath, hash: &str) -> (r: Option<
    Vec<ImportLine>,
>)
    ensures
        match r {
            Some(edges) => stored matches Some(entry) && entry_valid(
                entry.version,
                entry.hash@,
                hash@,
            ) && edge_views(edges@) == edges_from_pairs(module@, stored_pairs(entry.imports@)),
            None => !(stored matches Some(entry) && entry_valid(
                entry.version,
                entry.hash@,
                hash@,
            )),
        },
{
    let entry = match stored {
        Some(entry) => entry,
        None => {
            return None;
        },
    };
    if entry.version < 2 {
        return None;
    }
    if !same_text(entry.hash.as_str(), hash) {
        return None;
    }
    let mut out: Vec<ImportLine> = Vec::new();
    let mut i: usize = 0;
    while i < entry.imports.len()
        invariant
            i <= entry.imports@.len(),
            edge_views(out@) == edges_from_pairs(module@, stored_pairs(entry.imports@)).take(
                i as int,
            ),
        decreases entry.imports@.len() - i,
    {
        let ghost before = edge_views(out@);
        let edge = ImportLine {
            from_module: module.clone(),
            target_module: ModulePath::from_dotted(entry.imports[i].0.as_str()),
            import_line: entry.imports[i].1,
        };
        out.push(edge);
        assert(edge_views(out@) == before.push(edge@));
        i = i + 1;
    }
    Some(out)
}

/// The record of `imports` for content with hash `hash`, in the current
/// format.
pub fn make_cache_entry(hash: &str, imports: &[ImportLine]) -> (r: CacheEntry)
    ensures
        r.version == 2,
        r.hash@ == hash@,
        stored_pairs(r.imports@) == pairs_from_edges(edge_views(imports@)),
{
    let mut pairs: Vec<(String, u32)> = Vec::new();
    let mut i: usize = 0;
    while i < imports.len()
        invariant
            i <= imports@.len(),
            stored_pairs(pairs@) == pairs_from_edges(edge_views(imports@)).take(i as int),
        decreases imports@.len() - i,
    {
        let ghost before = stored_pairs(pairs@);
        let pair = (imports[i].target_module.to_dotted(), imports[i].import_line);
        pairs.push(pair);
        assert(stored_pairs(pairs@) == before.push((pair.0@, pair.1)));
        i = i + 1;
    }
    CacheEntry { version: cache_version_current(), hash: hash.to_owned(), imports: pairs }
}

/// The directory of the cache below a project root.
pub open spec fn cache_root(project_root: Seq<char>) -> Seq<char> {
    pushed(project_root, ".importee_cache"@)
}

/// The file that tells version control to leave the cache alone.
pub open spec fn ignore_marker(project_root: Seq<char>) -> Seq<char> {
    pushed(cache_root(project_root), ".gitignore"@)
}

/// The place of a module's record relative to the cache directory: that of
/// its source file, with the extension of a record.
pub open spec fn record_name(module: Seq<Seq<char>>) -> Seq<char> {
    if module.len() == 0 {
        ".imports.json"@
    } else {
        pushed(dir_path(module.drop_last()), module.last() + ".imports.json"@)
    }
}

/// The file of a module's record below a project root.
pub open spec fn record_file(project_root: Seq<char>, module: Seq<Seq<char>>) -> Seq<char> {
    pushed(cache_root(project_root), record_name(module))
}

/// The file that tells version control to leave the cache alone, which is
/// written when the cache directory is made.
pub fn ignore_marker_path(project_root: &str) -> (r: String)
    ensures
        r@ == ignore_marker(project_root@),
{
    let root = join_path(project_root, ".importee_cache");
    join_path(root.as_str(), ".gitignore")
}

/// The file of a module's record below a project root.
pub fn cache_location(project_root: &str, module: &ModulePath) -> (r: String)
    ensures
        r@ == record_file(project_root@, module@),
{
    let root = join_path(project_root, ".importee_cache");
    let name = match module.split_last() {
        Some((leaf, parent)) => {
            let mut file = leaf;
            file.append(".imports.json");
            join_path(parent.to_dir_pathbuf().as_str(), file.as_str())
        },
        None => ".imports.json".to_owned(),
    };
    join_path(root.as_str(), name.as_str())
}

/// The file of a module's record: below the project root that is found from
/// the resolver's root upward.
pub fn cache_file_path(resolver: &ImportResolver, module: &ModulePath) -> (r: String)
    ensures
        exists|root: Seq<char>| #[trigger]
            at_or_above(root, resolver.root_text()) && r@ == record_file(root, module@),
{
    let root = find_project_root(resolver.root_dir());
    cache_location(root.as_str(), module)
}

/// The issue that a failed rule raises for an edge of the file `file`.
pub open spec fn issue_for(
    rule_name: Seq<char>,
    reason: Seq<char>,
    file: Seq<char>,
    edge: EdgeView,
) -> IssueView {
    IssueView {
        rule_name,
        path: file,
        line: edge.line,
        message: "imported \""@ + dotted(edge.target) + "\" : "@ + reason,
    }
}

/// The issues that the first `n` rules raise for one edge, in their order.
pub open spec fn edge_issues<R: ImportRule>(
    rules: Seq<&R>,
    file: Seq<char>,
    edge: EdgeView,
    n: nat,
) -> Seq<IssueView>
    decreases n,
{
    if n == 0 {
        Seq::empty()
    } else {
        let before = edge_issues(rules, file, edge, (n - 1) as nat);
        let verdict = rules[n - 1].verdict(edge.from, edge.target);
        if verdict.pass {
            before
        } else {
            before.push(issue_for(rules[n - 1].rule_name(), verdict.reason, file, edge))
        }
    }
}

/// The issues that the rules raise for the edges of a file: edge by edge,
/// and for each edge rule by rule, one for every rule that the edge fails.
pub open spec fn issues_of<R: ImportRule>(rules: Seq<&R>, file: Seq<char>, edges: Seq<EdgeView>) -> Seq<
    IssueView,
>
    decreases edges.len(),
{
    if edges.len() == 0 {
        Seq::empty()
    } else {
        issues_of(rules, file, edges.drop_last()) + edge_issues(
            rules,
            file,
            edges.last(),
            rules.len(),
        )
    }
}

/// Holds every edge of module `module` against every rule.
pub fn check_edges<R: ImportRule>(module: &ModulePath, edges: &[ImportLine], rules: &[&R]) -> (r:
    Vec<Issue>)
    ensures
        issue_views(r@) == issues_of(rules@, module_file(module@), edge_views(edges@)),
{
    let file = module.file_path();
    let mut issues: Vec<Issue> = Vec::new();
    let mut i: usize = 0;
    while i < edges.len()
        invariant
            i <= edges@.len(),
            file@ == module_file(module@),
            issue_views(issues@) == issues_of(rules@, file@, edge_views(edges@).take(i as int)),
        decreases edges@.len() - i,
    {
        let edge = &edges[i];
        let ghost done = issue_views(issues@);
        let mut k: usize = 0;
        while k < rules.len()
            invariant
                k <= rules@.len(),
                edge == edges@[i as int],
                issue_views(issues@) == done + edge_issues(rules@, file@, edge@, k as nat),
            decreases rules@.len() - k,
        {
            let outcome = rules[k].check_line(file.as_str(), edge);
            if !outcome.pass {
                let mut message = "imported \"".to_owned();
                message.append(edge.target_module.to_dotted().as_str());
                message.append("\" : ");
                message.append(outcome.reason.as_str());
                let issue = Issue {
                    rule_name: rules[k].name().to_owned(),
                    path: file.clone(),
                    line: edge.import_line,
                    message,
                };
                let ghost before = issue_views(issues@);
                issues.push(issue);
                assert(issue_views(issues@) == before.push(issue@));
            }
            k = k + 1;
        }
        proof {
            let all = edge_views(edges@);
            assert(all.take(i + 1).drop_last() == all.take(i as int));
            assert(all.take(i + 1).last() == edge@);
        }
        i = i + 1;
    }
    assert(edge_views(edges@).take(i as int) == edge_views(edges@));
    issues
}

/// What processing one file yields.
#[derive(Debug)]
pub struct FileReport {
    /// The import edges of the file.
    pub edges: Vec<ImportLine>,
    /// The issues that the edges raise.
    pub issues: Vec<Issue>,
    /// The record to store for the file, where one is to be stored.
    pub to_store: Option<CacheEntry>,
}

/// Whether the stored record is used for content with hash `hash`.
pub open spec fn cache_hit(no_cache: bool, stored: Option<&CacheEntry>, hash: Seq<char>) -> bool {
    !no_cache && (stored matches Some(entry) && entry_valid(entry.version, entry.hash@, hash))
}

/// What holds of the report on the source `content` of module `module`. The
/// issues are those that the rules raise for the report's edges. Every edge
/// starts at the module and, where the module is canonical, leads to a
/// canonical module. On a cache hit the edges are the stored ones and
/// nothing is to be stored. Otherwise the edges are those of extraction
/// from the text, and their record is to be stored unless the cache is
/// switched off.
pub open spec fn reports_on<R: ImportRule>(
    report: FileReport,
    module: Seq<Seq<char>>,
    namespace: Option<Seq<char>>,
    no_cache: bool,
    rules: Seq<&R>,
    text: Seq<char>,
    stored: Option<&CacheEntry>,
) -> bool {
    let content = vstd::utf8::encode_utf8(text);
    &&& issue_views(report.issues@) == issues_of(
        rules,
        module_file(module),
        edge_views(report.edges@),
    )
    &&& forall|i: int|
        0 <= i < report.edges@.len() ==> {
            &&& (#[trigger] report.edges@[i]).from_module@ == module
            &&& is_canonical(module) ==> is_canonical(report.edges@[i].target_module@)
        }
    &&& if cache_hit(no_cache, stored, content_hash(content)) {
        &&& edge_views(report.edges@) == edges_from_pairs(
            module,
            stored_pairs(stored->0.imports@),
        )
        &&& report.to_store is None
    } else {
        &&& extraction_of(report.edges@, namespace, module, text)
        &&& if no_cache {
            report.to_store is None
        } else {
            &&& report.to_store matches Some(entry)
            &&& entry.version == 2
            &&& entry.hash@ == content_hash(content)
            &&& stored_pairs(entry.imports@) == pairs_from_edges(edge_views(report.edges@))
        }
    }
}

/// Processes the source text of one module: takes its edges from the stored
/// record where that stands for this content, extracts them otherwise, and
/// holds them against the rules.
pub fn process_source<R: ImportRule>(
    module: &ModulePath,
    run_config: &RunConfig,
    resolver: &ImportResolver,
    rules: &[&R],
    file_content: &str,
    stored: Option<&CacheEntry>,
) -> (report: FileReport)
    ensures
        reports_on(
            report,
            module@,
            resolver.namespace(),
            crate::configs::run::is_on(run_config.no_cache),
            rules@,
            file_content@,
            stored,
        ),
{
    let hash = compute_hash_from_string(file_content);
    let no_cache = run_config.cache_disabled();
    let cached = if no_cache {
        None
    } else {
        try_load_cache(stored, module, hash.as_str())
    };
    match cached {
        Some(edges) => {
            proof {
                let pairs = stored_pairs(stored->0.imports@);
                let held = edges_from_pairs(module@, pairs);
                assert(edge_views(edges@) == held);
                assert forall|i: int| 0 <= i < edges@.len() implies (
                #[trigger] edges@[i]).from_module@ == module@ && is_canonical(
                    edges@[i].target_module@,
                ) by {
                    assert(held[i].from == module@);
                    assert(edge_views(edges@)[i] == edges@[i]@);
                    lemma_split_canonical(pairs[i].0);
                }
            }
            let issues = check_edges(module, edges.as_slice(), rules);
            FileReport { edges, issues, to_store: None }
        },
        None => {
            let edges = get_file_imports(module, resolver, run_config, file_content);
            let to_store = if no_cache {
                None
            } else {
                Some(make_cache_entry(hash.as_str(), edges.as_slice()))
            };
            let issues = check_edges(module, edges.as_slice(), rules);
            FileReport { edges, issues, to_store }
        },
    }
}

/// The record that is on disk for a file after a run: the one that the run
/// handed back, or the one that was there where it handed none back.
pub open spec fn record_after<'a>(report: &'a FileReport, stored: Option<&'a CacheEntry>) -> Option<
    &'a CacheEntry,
> {
    match report.to_store {
        Some(entry) => Some(&entry),
        None => stored,
    }
}

/// An unchanged file yields the same again. With the cache switched on, a
/// second run on the same content of a canonical module, with the record
/// that the first run left, is a cache hit: it has the edges and the issues
/// of the first run and nothing to store.
pub proof fn lemma_second_run_repeats<R: ImportRule>(
    first: FileReport,
    second: FileReport,
    module: Seq<Seq<char>>,
    namespace: Option<Seq<char>>,
    rules: Seq<&R>,
    text: Seq<char>,
    stored: Option<&CacheEntry>,
)
    requires
        is_canonical(module),
        reports_on(first, module, namespace, false, rules, text, stored),
        reports_on(second, module, namespace, false, rules, text, record_after(&first, stored)),
    ensures
        cache_hit(
            false,
            record_after(&first, stored),
            content_hash(vstd::utf8::encode_utf8(text)),
        ),
        edge_views(second.edges@) == edge_views(first.edges@),
        issue_views(second.issues@) == issue_views(first.issues@),
        second.to_store is None,
{
    let content = vstd::utf8::encode_utf8(text);
    if !cache_hit(false, stored, content_hash(content)) {
        let edges = edge_views(first.edges@);
        assert forall|i: int| 0 <= i < edges.len() implies (#[trigger] edges[i]).from == module
            && is_canonical(edges[i].target) by {
            assert(edges[i] == first.edges@[i]@);
        }
        lemma_cache_coherent(module, content_hash(content), content_hash(content), edges);
    }
}

/// A changed file is read anew. A record handed back for one content is no
/// cache hit for content with another hash.
pub proof fn lemma_changed_content_misses(
    entry: CacheEntry,
    content: Seq<u8>,
    other_content: Seq<u8>,
)
    requires
        entry.hash@ == content_hash(content),
        content_hash(other_content) != content_hash(content),
    ensures
        !cache_hit(false, Some(&entry), content_hash(other_content)),
{
}

/// A report without edges, issues or record.
pub open spec fn is_blank(report: FileReport) -> bool {
    report.edges@.len() == 0 && report.issues@.len() == 0 && report.to_store is None
}

/// The report on one module, given whether its path names a directory. A
/// directory is not a file and yields a blank report; otherwise the report
/// is that of `process_source`.
pub fn process_unless_directory<R: ImportRule>(
    names_directory: bool,
    module: &ModulePath,
    run_config: &RunConfig,
    resolver: &ImportResolver,
    rules: &[&R],
    file_content: &str,
    stored: Option<&CacheEntry>,
) -> (report: FileReport)
    ensures
        if names_directory {
            is_blank(report)
        } else {
            reports_on(
                report,
                module@,
                resolver.namespace(),
                crate::configs::run::is_on(run_config.no_cache),
                rules@,
                file_content@,
                stored,
            )
        },
{
    if names_directory {
        return FileReport { edges: Vec::new(), issues: Vec::new(), to_store: None };
    }
    process_source(module, run_config, resolver, rules, file_content, stored)
}

/// Processes one module with the rules that concern it. The disk is asked
/// whether the module's path names a directory; the report is that of
/// `process_unless_directory` for the answer.
pub fn process_file_with_rules<R: ImportRule>(
    module: &ModulePath,
    run_config: &RunConfig,
    resolver: &ImportResolver,
    rules: &[&R],
    file_content: &str,
    stored: Option<&CacheEntry>,
) -> (report: FileReport)
    ensures
        is_blank(report) || reports_on(
            report,
            module@,
            resolver.namespace(),
            crate::configs::run::is_on(run_config.no_cache),
            rules@,
            file_content@,
            stored,
        ),
{
    let dir = module.to_dir_pathbuf();
    let names_directory = is_directory(dir.as_str());
    process_unless_directory(
        names_directory,
        module,
        run_config,
        resolver,
        rules,
        file_content,
        stored,
    )
}

} // verus!
