//! Extracting the import edges of one source file.
//!
//! The source is parsed into its top-level statements. Each import statement
//! names one or more specifiers; each specifier is resolved, and yields an
//! edge if the module it resolves to is local. Statements inside nested
//! blocks are not visited.

use crate::configs::run::RunConfig;
use crate::imports::classification::{lemma_resolution_canonical, may_resolve_to, ImportResolver};
use crate::modpath::is_canonical;
use crate::imports::import_line::{edge_views, EdgeView, ImportLine};
use crate::modpath::ModulePath;
use crate::text::views_of;
use rustpython_ast::{Stmt, Suite};
use rustpython_parser::Parse;
use vstd::prelude::*;
use vstd::string::StringSliceAdditionalSpecFns;

verus! {

/// What the extraction reads of a top-level statement.
#[derive(Debug, PartialEq, Eq)]
pub enum Statement {
    /// `import a, b`: the names, and the byte position of the statement.
    Import { offset: usize, names: Vec<String> },
    /// `from m import a, b`: the module if one is written, the number of
    /// leading dots if the parser counted them, and the names.
    ImportFrom { offset: usize, module: Option<String>, level: Option<u32>, names: Vec<String> },
    /// Any other statement.
    Other,
}

/// A statement as plain values.
pub enum StatementView {
    Import { offset: usize, names: Seq<Seq<char>> },
    ImportFrom { offset: usize, module: Option<Seq<char>>, level: Option<u32>, names: Seq<Seq<char>> },
    Other,
}

/// The text of an optional string, if there is one.
pub open spec fn option_text(s: Option<String>) -> Option<Seq<char>> {
    match s {
        Some(t) => Some(t@),
        None => None,
    }
}

impl View for Statement {
    type V = StatementView;

    open spec fn view(&self) -> StatementView {
        match self {
            Statement::Import { offset, names } => StatementView::Import {
                offset: *offset,
                names: views_of(names@),
            },
            Statement::ImportFrom { offset, module, level, names } => StatementView::ImportFrom {
                offset: *offset,
                module: option_text(*module),
                level: *level,
                names: views_of(names@),
            },
            Statement::Other => StatementView::Other,
        }
    }
}

/// The views of a list of statements, item by item.
pub open spec fn statement_views(statements: Seq<Statement>) -> Seq<StatementView> {
    Seq::new(statements.len(), |i: int| statements[i]@)
}

/// The top-level statements of a source text, as far as the extraction reads
/// them, or `None` where the text does not parse: what the parser of
/// rustpython_parser yields for the text as a module.
pub uninterp spec fn parsed_statements(source: Seq<char>) -> Option<Seq<StatementView>>;

/// `Parse::parse` of rustpython_parser for a suite of statements, which
/// parses the source as a module, and of each top-level statement what the
/// extraction reads: for the two kinds of import the start of its range, its
/// names and, for `from`, the module and the level as the tree holds them.
/// The result is `None` where the source does not parse. It depends on the
/// source text alone; the path only serves the parser's error message, which
/// is dropped. Positions in the tree are 32-bit, so longer sources are left
/// out.
#[verifier::external_body]
fn parse_statements(source: &str, source_path: &str) -> (r: Option<Vec<Statement>>)
    requires
        source.spec_bytes().len() <= u32::MAX,
    ensures
        match r {
            Some(statements) => parsed_statements(source@) == Some(statement_views(statements@)),
            None => parsed_statements(source@) is None,
        },
{
    let body = Suite::parse(source, source_path).ok()?;
    Some(body.into_iter().map(|stmt| match stmt {
        Stmt::Import(i) => Statement::Import {
            offset: i.range.start().to_usize(),
            names: i.names.into_iter().map(|a| a.name.into()).collect(),
        },
        Stmt::ImportFrom(f) => Statement::ImportFrom {
            offset: f.range.start().to_usize(),
            module: f.module.map(Into::into),
            level: f.level.map(|l| l.to_u32()),
            names: f.names.into_iter().map(|a| a.name.into()).collect(),
        },
        _ => Statement::Other,
    }).collect())
}

/// The byte positions at which the lines of a text begin: position 0, and
/// the position behind every line feed.
pub open spec fn line_starts(bytes: Seq<u8>) -> Seq<int>
    decreases bytes.len(),
{
    if bytes.len() == 0 {
        seq![0int]
    } else {
        let before = line_starts(bytes.drop_last());
        if bytes.last() == 10u8 {
            before.push(bytes.len() as int)
        } else {
            before
        }
    }
}

/// Each entry is greater than the one before.
pub open spec fn strictly_increasing(table: Seq<usize>) -> bool {
    forall|i: int, j: int| 0 <= i < j < table.len() ==> table[i] < table[j]
}

/// The number of entries of the table that are not beyond `offset`.
pub open spec fn starts_up_to(table: Seq<usize>, offset: usize) -> nat
    decreases table.len(),
{
    if table.len() == 0 {
        0
    } else {
        starts_up_to(table.drop_last(), offset) + if table.last() <= offset {
            1nat
        } else {
            0nat
        }
    }
}

/// The line starts of a text begin with 0, grow, and stay within the text.
pub proof fn lemma_line_starts(bytes: Seq<u8>)
    ensures
        line_starts(bytes).len() >= 1,
        line_starts(bytes).len() <= bytes.len() + 1,
        line_starts(bytes)[0] == 0,
        forall|i: int| 0 <= i < line_starts(bytes).len() ==> 0 <= #[trigger] line_starts(bytes)[i]
            <= bytes.len(),
        forall|i: int, j: int|
            0 <= i < j < line_starts(bytes).len() ==> line_starts(bytes)[i] < line_starts(
                bytes,
            )[j],
    decreases bytes.len(),
{
    if bytes.len() > 0 {
        lemma_line_starts(bytes.drop_last());
    }
}

/// In a growing table, a position that splits it into the entries up to
/// `offset` and those beyond is the number of entries up to `offset`.
pub proof fn lemma_starts_up_to(table: Seq<usize>, offset: usize, k: int)
    requires
        0 <= k <= table.len(),
        forall|i: int| 0 <= i < k ==> table[i] <= offset,
        forall|i: int| k <= i < table.len() ==> table[i] > offset,
    ensures
        starts_up_to(table, offset) == k,
    decreases table.len(),
{
    if table.len() > 0 {
        let front = table.drop_last();
        if k == table.len() {
            lemma_starts_up_to(front, offset, k - 1);
        } else {
            lemma_starts_up_to(front, offset, k);
        }
    }
}

/// The table of line starts of `source`, in bytes.
pub fn build_line_offsets(source: &str) -> (r: Vec<usize>)
    ensures
        r@.len() == line_starts(source.spec_bytes()).len(),
        forall|i: int| 0 <= i < r@.len() ==> r@[i] == line_starts(source.spec_bytes())[i],
        strictly_increasing(r@),
        1 <= r@.len() <= source.spec_bytes().len() + 1,
        r@[0] == 0,
        r@ == line_table(source.spec_bytes()),
{
    let bytes = source.as_bytes();
    let mut offsets: Vec<usize> = Vec::new();
    offsets.push(0);
    let mut i: usize = 0;
    while i < bytes.len()
        invariant
            i <= bytes@.len(),
            offsets@.len() == line_starts(bytes@.take(i as int)).len(),
            forall|k: int|
                0 <= k < offsets@.len() ==> offsets@[k] == line_starts(bytes@.take(i as int))[k],
        decreases bytes@.len() - i,
    {
        proof {
            assert(bytes@.take(i + 1).drop_last() == bytes@.take(i as int));
            assert(bytes@.take(i + 1).last() == bytes@[i as int]);
        }
        if bytes[i] == 10u8 {
            offsets.push(i + 1);
        }
        i = i + 1;
    }
    proof {
        assert(bytes@.take(i as int) == bytes@);
        lemma_line_starts(bytes@);
        assert(offsets@ =~= line_table(bytes@));
    }
    offsets
}

/// The 1-based line of the byte at `offset`, by the table of line starts:
/// the number of lines that begin at or before it. The table is searched by
/// halving.
pub fn offset_to_line(offset: usize, line_offsets: &[usize]) -> (line: u32)
    requires
        strictly_increasing(line_offsets@),
        line_offsets@.len() <= u32::MAX,
    ensures
        line == starts_up_to(line_offsets@, offset),
{
    let mut lo: usize = 0;
    let mut hi: usize = line_offsets.len();
    while lo < hi
        invariant
            lo <= hi <= line_offsets@.len(),
            strictly_increasing(line_offsets@),
            forall|i: int| 0 <= i < lo ==> line_offsets@[i] <= offset,
            forall|i: int| hi <= i < line_offsets@.len() ==> line_offsets@[i] > offset,
        decreases hi - lo,
    {
        let mid = lo + (hi - lo) / 2;
        if line_offsets[mid] <= offset {
            lo = mid + 1;
        } else {
            hi = mid;
        }
    }
    proof {
        lemma_starts_up_to(line_offsets@, offset, lo as int);
    }
    lo as u32
}

/// `n` dots.
pub open spec fn dots(n: nat) -> Seq<char> {
    Seq::new(n, |i: int| '.')
}

/// The specifier that an import of names from a module stands for. With a
/// module, the specifier is the module, or its submodule of the first name
/// where that one is preferred. Without a module it is the first name behind
/// as many dots as the level counts. Without either there is none.
pub open spec fn from_import_base(
    module: Seq<char>,
    level: nat,
    names: Seq<Seq<char>>,
    prefer_submodule: bool,
) -> Option<Seq<char>> {
    if module.len() > 0 {
        if names.len() > 0 && prefer_submodule {
            Some(module + seq!['.'] + names[0])
        } else {
            Some(module)
        }
    } else if names.len() > 0 {
        Some(dots(level) + names[0])
    } else {
        None
    }
}

/// The text of an optional text; the empty text where there is none.
pub open spec fn text_or_empty(s: Option<Seq<char>>) -> Seq<char> {
    match s {
        Some(t) => t,
        None => Seq::empty(),
    }
}

/// The number behind an optional level; 0 where there is none.
pub open spec fn level_or_zero(level: Option<u32>) -> nat {
    match level {
        Some(n) => n as nat,
        None => 0,
    }
}

impl StatementView {
    /// The byte position of an import statement.
    pub open spec fn position(self) -> usize {
        match self {
            StatementView::Import { offset, .. } => offset,
            StatementView::ImportFrom { offset, .. } => offset,
            StatementView::Other => 0,
        }
    }

    /// The specifiers that the statement stands for, in order. A plain
    /// import stands for each of its names. An import of names from a module
    /// stands for one specifier, which depends on whether the submodule of
    /// the first name is preferred, or for none. Any other statement stands
    /// for none.
    pub open spec fn bases(self, prefer_submodule: bool) -> Seq<Seq<char>> {
        match self {
            StatementView::Import { names, .. } => names,
            StatementView::ImportFrom { module, level, names, .. } => match from_import_base(
                text_or_empty(module),
                level_or_zero(level),
                names,
                prefer_submodule,
            ) {
                Some(base) => seq![base],
                None => Seq::empty(),
            },
            StatementView::Other => Seq::empty(),
        }
    }
}

/// The specifier that an import of `names` from `module` stands for, given
/// whether the submodule of the first name is to be preferred.
pub fn base_specifier(
    module: &Option<String>,
    level: Option<u32>,
    names: &Vec<String>,
    prefer_submodule: bool,
) -> (r: Option<String>)
    ensures
        match r {
            Some(base) => Some(base@) == from_import_base(
                text_or_empty(option_text(*module)),
                level_or_zero(level),
                views_of(names@),
                prefer_submodule,
            ),
            None => from_import_base(
                text_or_empty(option_text(*module)),
                level_or_zero(level),
                views_of(names@),
                prefer_submodule,
            ) is None,
        },
{
    match module {
        Some(name) => {
            if name.as_str().unicode_len() > 0 {
                let mut base = name.clone();
                if names.len() > 0 && prefer_submodule {
                    base.push('.');
                    base.append(names[0].as_str());
                    assert(base@ == name@ + seq!['.'] + views_of(names@)[0]);
                }
                return Some(base);
            }
        },
        None => {},
    }
    if names.len() == 0 {
        return None;
    }
    let count = match level {
        Some(n) => n,
        None => 0,
    };
    let mut base = String::new();
    let mut i: u32 = 0;
    while i < count
        invariant
            i <= count,
            base@ == dots(i as nat),
        decreases count - i,
    {
        base.push('.');
        assert(base@ == dots((i + 1) as nat));
        i = i + 1;
    }
    base.append(names[0].as_str());
    assert(base@ == dots(count as nat) + views_of(names@)[0]);
    Some(base)
}

/// The line that the table gives for the byte at `offset`.
pub open spec fn line_of(table: Seq<usize>, offset: usize) -> u32 {
    starts_up_to(table, offset) as u32
}

/// Whether `outcome` can be what became of the specifier `base` written in
/// module `current`: nothing, or the module that it was resolved to, which
/// has a name and is one that the specifier can resolve to.
pub open spec fn outcome_fits(
    outcome: Option<Seq<Seq<char>>>,
    namespace: Option<Seq<char>>,
    current: Seq<Seq<char>>,
    base: Seq<char>,
) -> bool {
    outcome matches Some(target) ==> target.len() > 0 && may_resolve_to(
        namespace,
        current,
        base,
        target,
    )
}

/// Whether the outcomes can be what became of the specifiers `bases`, one
/// for one.
pub open spec fn outcomes_fit(
    outcomes: Seq<Option<Seq<Seq<char>>>>,
    namespace: Option<Seq<char>>,
    current: Seq<Seq<char>>,
    bases: Seq<Seq<char>>,
) -> bool {
    &&& outcomes.len() == bases.len()
    &&& forall|j: int|
        0 <= j < bases.len() ==> outcome_fits(#[trigger] outcomes[j], namespace, current, bases[j])
}

/// The edges with one more outcome: where the specifier led to a local
/// module, an edge to it from `current` at `line` is added.
pub open spec fn with_outcome(
    edges: Seq<EdgeView>,
    outcome: Option<Seq<Seq<char>>>,
    current: Seq<Seq<char>>,
    line: u32,
) -> Seq<EdgeView> {
    match outcome {
        Some(target) => edges.push(EdgeView { from: current, target, line }),
        None => edges,
    }
}

/// The edges that outcomes amount to: one for each specifier that led to a
/// local module, in the order of the specifiers.
pub open spec fn kept_edges(
    outcomes: Seq<Option<Seq<Seq<char>>>>,
    current: Seq<Seq<char>>,
    line: u32,
) -> Seq<EdgeView>
    decreases outcomes.len(),
{
    if outcomes.len() == 0 {
        Seq::empty()
    } else {
        with_outcome(kept_edges(outcomes.drop_last(), current, line), outcomes.last(), current, line)
    }
}

/// Whether `edges` can be what the statement `stmt` of module `current`
/// yields at line `line`: the edges that the outcomes of its specifiers
/// amount to, for some outcomes that fit them.
pub open spec fn statement_yields(
    edges: Seq<EdgeView>,
    stmt: StatementView,
    namespace: Option<Seq<char>>,
    current: Seq<Seq<char>>,
    line: u32,
) -> bool {
    exists|prefer: bool, outcomes: Seq<Option<Seq<Seq<char>>>>|
        #[trigger] outcomes_fit(outcomes, namespace, current, stmt.bases(prefer)) && edges
            == kept_edges(outcomes, current, line)
}

/// The edges that outcomes amount to are no more than the outcomes. Each
/// starts at `current`, carries the line, and leads to a module with a name,
/// which is canonical where `current` is.
pub proof fn lemma_kept_edges(
    outcomes: Seq<Option<Seq<Seq<char>>>>,
    namespace: Option<Seq<char>>,
    current: Seq<Seq<char>>,
    bases: Seq<Seq<char>>,
    line: u32,
)
    requires
        outcomes_fit(outcomes, namespace, current, bases),
    ensures
        kept_edges(outcomes, current, line).len() <= outcomes.len(),
        forall|i: int|
            0 <= i < kept_edges(outcomes, current, line).len() ==> {
                &&& (#[trigger] kept_edges(outcomes, current, line)[i]).from == current
                &&& kept_edges(outcomes, current, line)[i].line == line
                &&& kept_edges(outcomes, current, line)[i].target.len() > 0
                &&& is_canonical(current) ==> is_canonical(
                    kept_edges(outcomes, current, line)[i].target,
                )
            },
    decreases outcomes.len(),
{
    if outcomes.len() > 0 {
        let front = outcomes.drop_last();
        let front_bases = bases.drop_last();
        assert forall|j: int| 0 <= j < front_bases.len() implies outcome_fits(
            #[trigger] front[j],
            namespace,
            current,
            front_bases[j],
        ) by {
            assert(front[j] == outcomes[j]);
        }
        lemma_kept_edges(front, namespace, current, front_bases, line);
        let last = outcomes[outcomes.len() - 1];
        assert(outcome_fits(last, namespace, current, bases[outcomes.len() - 1]));
        match last {
            Some(target) => {
                if is_canonical(current) {
                    lemma_resolution_canonical(
                        namespace,
                        current,
                        bases[outcomes.len() - 1],
                        target,
                    );
                }
            },
            None => {},
        }
    }
}

/// The views of what is left of a list of edges behind its first `n`.
pub proof fn lemma_views_skip(edges: Seq<ImportLine>, n: int)
    requires
        0 <= n <= edges.len(),
    ensures
        edge_views(edges.skip(n)) == edge_views(edges).skip(n),
        edge_views(edges.take(n)) == edge_views(edges).take(n),
{
}

/// Adds to `out` the edge from `current` to `resolved` at `line` if
/// `local` says that `resolved` is a local module.
pub fn keep_if_local(
    local: bool,
    current: &ModulePath,
    resolved: ModulePath,
    line: u32,
    out: &mut Vec<ImportLine>,
)
    ensures
        old(out)@.len() <= final(out)@.len(),
        final(out)@.take(old(out)@.len() as int) == old(out)@,
        edge_views(final(out)@) == with_outcome(
            edge_views(old(out)@),
            if local {
                Some(resolved@)
            } else {
                None
            },
            current@,
            line,
        ),
{
    if local {
        let edge = ImportLine {
            from_module: current.clone(),
            target_module: resolved,
            import_line: line,
        };
        let ghost before = out@;
        out.push(edge);
        assert(edge_views(out@) == edge_views(before).push(edge@));
        assert(out@.take(before.len() as int) == before);
    } else {
        assert(out@.take(out@.len() as int) == out@);
    }
}

/// Resolves the specifier `base` and adds the edge to the module that it
/// names if that module is found to be local. What is already in `out`
/// stays.
fn push_if_local(
    base: &str,
    current: &ModulePath,
    resolver: &ImportResolver,
    line: u32,
    out: &mut Vec<ImportLine>,
)
    ensures
        old(out)@.len() <= final(out)@.len(),
        final(out)@.take(old(out)@.len() as int) == old(out)@,
        exists|outcome: Option<Seq<Seq<char>>>|
            #[trigger] outcome_fits(outcome, resolver.namespace(), current@, base@)
                && edge_views(final(out)@) == with_outcome(
                edge_views(old(out)@),
                outcome,
                current@,
                line,
            ),
{
    let resolved = resolver.resolve_import(current, base);
    let local = resolver.is_local_module(&resolved);
    let ghost outcome = if local {
        Some(resolved@)
    } else {
        None
    };
    proof {
        if local {
            assert(resolved@.len() > 0) by {
                if resolved@.len() == 0 {
                    assert(crate::modpath::dotted(resolved@).len() == 0);
                }
            }
        }
        assert(outcome_fits(outcome, resolver.namespace(), current@, base@));
    }
    keep_if_local(local, current, resolved, line, out);
}

/// Adds to `out` the edges that one top-level statement of module `current`
/// yields. A plain import yields an edge for each of its names that resolves
/// to a local module, in the order of the names. An import of names from a
/// module yields at most one: to the submodule of the first name where that
/// is local, else to the module. Any other statement yields none. Every edge
/// carries the line of the statement. What is already in `out` stays.
pub fn collect_imports_from_stmt(
    stmt: &Statement,
    current: &ModulePath,
    resolver: &ImportResolver,
    line_offsets: &[usize],
    out: &mut Vec<ImportLine>,
    _run_config: &RunConfig,
)
    requires
        strictly_increasing(line_offsets@),
        line_offsets@.len() <= u32::MAX,
    ensures
        old(out)@.len() <= final(out)@.len(),
        final(out)@.take(old(out)@.len() as int) == old(out)@,
        statement_yields(
            edge_views(final(out)@.skip(old(out)@.len() as int)),
            stmt@,
            resolver.namespace(),
            current@,
            line_of(line_offsets@, stmt@.position()),
        ),
{
    let ghost start = out@.len() as int;
    let ghost mut outcomes: Seq<Option<Seq<Seq<char>>>> = Seq::empty();
    let ghost mut prefer_used: bool = false;
    proof {
        lemma_count_bounds(line_offsets@, stmt@.position());
        assert(edge_views(out@.skip(start)) == kept_edges(outcomes, current@, 0u32));
    }
    match stmt {
        Statement::Import { offset, names } => {
            let line = offset_to_line(*offset, line_offsets);
            let mut j: usize = 0;
            while j < names.len()
                invariant
                    j <= names@.len(),
                    start == old(out)@.len(),
                    start <= out@.len(),
                    out@.take(start) == old(out)@,
                    outcomes.len() == j,
                    forall|k: int|
                        0 <= k < j ==> outcome_fits(
                            #[trigger] outcomes[k],
                            resolver.namespace(),
                            current@,
                            views_of(names@)[k],
                        ),
                    edge_views(out@.skip(start)) == kept_edges(outcomes, current@, line),
                decreases names@.len() - j,
            {
                let ghost before = out@;
                let ghost before_outcomes = outcomes;
                push_if_local(names[j].as_str(), current, resolver, line, out);
                proof {
                    let outcome = choose|outcome: Option<Seq<Seq<char>>>|
                        #[trigger] outcome_fits(
                            outcome,
                            resolver.namespace(),
                            current@,
                            names@[j as int]@,
                        ) && edge_views(out@) == with_outcome(
                            edge_views(before),
                            outcome,
                            current@,
                            line,
                        );
                    outcomes = before_outcomes.push(outcome);
                    assert(outcomes.drop_last() == before_outcomes);
                    assert(outcomes.last() == outcome);
                    lemma_views_skip(before, start);
                    lemma_views_skip(out@, start);
                    assert(edge_views(out@).skip(start) == with_outcome(
                        edge_views(before).skip(start),
                        outcome,
                        current@,
                        line,
                    ));
                    assert(out@.take(start) == before.take(start));
                }
                j = j + 1;
            }
        },
        Statement::ImportFrom { offset, module, level, names } => {
            let line = offset_to_line(*offset, line_offsets);
            let has_module = match module {
                Some(name) => name.as_str().unicode_len() > 0,
                None => false,
            };
            let prefer = if has_module && names.len() > 0 {
                match base_specifier(module, *level, names, true) {
                    Some(submodule) => {
                        let resolved = resolver.resolve_import(current, submodule.as_str());
                        resolver.is_local_module(&resolved)
                    },
                    None => false,
                }
            } else {
                false
            };
            proof {
                prefer_used = prefer;
            }
            match base_specifier(module, *level, names, prefer) {
                Some(base) => {
                    let ghost before = out@;
                    push_if_local(base.as_str(), current, resolver, line, out);
                    proof {
                        let outcome = choose|outcome: Option<Seq<Seq<char>>>|
                            #[trigger] outcome_fits(
                                outcome,
                                resolver.namespace(),
                                current@,
                                base@,
                            ) && edge_views(out@) == with_outcome(
                                edge_views(before),
                                outcome,
                                current@,
                                line,
                            );
                        outcomes = seq![outcome];
                        assert(outcomes.drop_last() == Seq::<Option<Seq<Seq<char>>>>::empty());
                        assert(outcomes.last() == outcome);
                        assert(kept_edges(outcomes.drop_last(), current@, line)
                            == Seq::<EdgeView>::empty());
                        lemma_views_skip(before, start);
                        lemma_views_skip(out@, start);
                        assert(edge_views(before).skip(start) == Seq::<EdgeView>::empty());
                        assert(edge_views(out@).skip(start) == with_outcome(
                            edge_views(before).skip(start),
                            outcome,
                            current@,
                            line,
                        ));
                    }
                },
                None => {
                    proof {
                        assert(edge_views(out@.skip(start)) == kept_edges(
                            outcomes,
                            current@,
                            line,
                        ));
                    }
                },
            }
        },
        Statement::Other => {
            proof {
                assert(edge_views(out@.skip(start)) == kept_edges(
                    outcomes,
                    current@,
                    line_of(line_offsets@, stmt@.position()),
                ));
            }
        },
    }
    proof {
        assert(outcomes_fit(
            outcomes,
            resolver.namespace(),
            current@,
            stmt@.bases(prefer_used),
        ));
    }
}

/// Whether the edges from position `from` up to position `to` can be what
/// the statement `stmt` of module `current` yields.
pub open spec fn yields_between(
    edges: Seq<ImportLine>,
    from: int,
    to: int,
    stmt: StatementView,
    namespace: Option<Seq<char>>,
    current: Seq<Seq<char>>,
    line_offsets: Seq<usize>,
) -> bool {
    &&& 0 <= from <= to <= edges.len()
    &&& statement_yields(
        edge_views(edges.subrange(from, to)),
        stmt,
        namespace,
        current,
        line_of(line_offsets, stmt.position()),
    )
}

/// Whether the positions `cuts` divide `edges` into what each statement of
/// module `current` yields: the edges from `cuts[j]` up to `cuts[j + 1]`
/// are those of statement `j`.
pub open spec fn cut_by_statements(
    cuts: Seq<int>,
    edges: Seq<ImportLine>,
    statements: Seq<StatementView>,
    namespace: Option<Seq<char>>,
    current: Seq<Seq<char>>,
    line_offsets: Seq<usize>,
) -> bool {
    &&& cuts.len() == statements.len() + 1
    &&& cuts[0] == 0
    &&& cuts[statements.len() as int] == edges.len()
    &&& forall|j: int|
        0 <= j < statements.len() ==> yields_between(
            edges,
            cuts[j],
            cuts[j + 1],
            #[trigger] statements[j],
            namespace,
            current,
            line_offsets,
        )
}

/// Whether `edges` can be what the statements of module `current` yield:
/// the edges of the first statement, then those of the second, and so on.
pub open spec fn edges_of_statements(
    edges: Seq<ImportLine>,
    statements: Seq<StatementView>,
    namespace: Option<Seq<char>>,
    current: Seq<Seq<char>>,
    line_offsets: Seq<usize>,
) -> bool {
    exists|cuts: Seq<int>|
        cut_by_statements(cuts, edges, statements, namespace, current, line_offsets)
}

/// What one more statement yields extends the division by one cut.
pub proof fn lemma_one_more_statement(
    cuts: Seq<int>,
    before: Seq<ImportLine>,
    after: Seq<ImportLine>,
    statements: Seq<StatementView>,
    stmt: StatementView,
    namespace: Option<Seq<char>>,
    current: Seq<Seq<char>>,
    line_offsets: Seq<usize>,
)
    requires
        cut_by_statements(cuts, before, statements, namespace, current, line_offsets),
        before.len() <= after.len(),
        after.take(before.len() as int) == before,
        statement_yields(
            edge_views(after.skip(before.len() as int)),
            stmt,
            namespace,
            current,
            line_of(line_offsets, stmt.position()),
        ),
    ensures
        cut_by_statements(
            cuts.push(after.len() as int),
            after,
            statements.push(stmt),
            namespace,
            current,
            line_offsets,
        ),
{
    let more = statements.push(stmt);
    let new_cuts = cuts.push(after.len() as int);
    assert forall|j: int| 0 <= j < more.len() implies yields_between(
        after,
        new_cuts[j],
        new_cuts[j + 1],
        #[trigger] more[j],
        namespace,
        current,
        line_offsets,
    ) by {
        if j < statements.len() {
            assert(more[j] == statements[j]);
            assert(yields_between(
                before,
                cuts[j],
                cuts[j + 1],
                statements[j],
                namespace,
                current,
                line_offsets,
            ));
            assert(after.subrange(cuts[j], cuts[j + 1]) == before.subrange(cuts[j], cuts[j + 1]));
        } else {
            assert(more[j] == stmt);
            assert(after.subrange(before.len() as int, after.len() as int) == after.skip(
                before.len() as int,
            ));
        }
    }
}

/// The edges that the top-level statements of module `current` yield, in
/// the order of the statements. Every edge starts at `current`, leads to a
/// module that was found to be local, and carries the line of its statement.
pub fn collect_edges(
    statements: &[Statement],
    current: &ModulePath,
    resolver: &ImportResolver,
    line_offsets: &[usize],
    run_config: &RunConfig,
) -> (r: Vec<ImportLine>)
    requires
        strictly_increasing(line_offsets@),
        line_offsets@.len() <= u32::MAX,
    ensures
        edges_of_statements(
            r@,
            statement_views(statements@),
            resolver.namespace(),
            current@,
            line_offsets@,
        ),
        forall|i: int|
            0 <= i < r@.len() ==> {
                &&& (#[trigger] r@[i]).from_module@ == current@
                &&& r@[i].target_module@.len() > 0
                &&& r@[i].import_line <= line_offsets@.len()
                &&& line_offsets@.len() > 0 && line_offsets@[0] == 0 ==> r@[i].import_line >= 1
                &&& is_canonical(current@) ==> is_canonical(r@[i].target_module@)
            },
{
    let mut results: Vec<ImportLine> = Vec::new();
    let ghost mut cuts: Seq<int> = seq![0int];
    let mut n: usize = 0;
    while n < statements.len()
        invariant
            n <= statements@.len(),
            strictly_increasing(line_offsets@),
            line_offsets@.len() <= u32::MAX,
            cut_by_statements(
                cuts,
                results@,
                statement_views(statements@).take(n as int),
                resolver.namespace(),
                current@,
                line_offsets@,
            ),
            forall|i: int|
                0 <= i < results@.len() ==> {
                    &&& (#[trigger] results@[i]).from_module@ == current@
                    &&& results@[i].target_module@.len() > 0
                    &&& results@[i].import_line <= line_offsets@.len()
                    &&& line_offsets@.len() > 0 && line_offsets@[0] == 0
                        ==> results@[i].import_line >= 1
                    &&& is_canonical(current@) ==> is_canonical(results@[i].target_module@)
                },
        decreases statements@.len() - n,
    {
        let ghost before = results@;
        collect_imports_from_stmt(
            &statements[n],
            current,
            resolver,
            line_offsets,
            &mut results,
            run_config,
        );
        proof {
            let all = statement_views(statements@);
            let stmt = statements@[n as int]@;
            let line = line_of(line_offsets@, stmt.position());
            let fresh = edge_views(results@.skip(before.len() as int));
            lemma_count_bounds(line_offsets@, stmt.position());
            let (prefer, outcomes) = choose|prefer: bool, outcomes: Seq<Option<Seq<Seq<char>>>>|
                #[trigger] outcomes_fit(
                    outcomes,
                    resolver.namespace(),
                    current@,
                    stmt.bases(prefer),
                ) && fresh == kept_edges(outcomes, current@, line);
            lemma_kept_edges(outcomes, resolver.namespace(), current@, stmt.bases(prefer), line);
            assert forall|i: int| 0 <= i < results@.len() implies {
                &&& (#[trigger] results@[i]).from_module@ == current@
                &&& results@[i].target_module@.len() > 0
                &&& results@[i].import_line <= line_offsets@.len()
                &&& line_offsets@.len() > 0 && line_offsets@[0] == 0
                    ==> results@[i].import_line >= 1
                &&& is_canonical(current@) ==> is_canonical(results@[i].target_module@)
            } by {
                if i < before.len() {
                    assert(results@[i] == results@.take(before.len() as int)[i]);
                } else {
                    assert(results@[i]@ == fresh[i - before.len()]);
                }
            }
            lemma_one_more_statement(
                cuts,
                before,
                results@,
                all.take(n as int),
                stmt,
                resolver.namespace(),
                current@,
                line_offsets@,
            );
            cuts = cuts.push(results@.len() as int);
            assert(all.take(n as int).push(stmt) == all.take(n + 1));
        }
        n = n + 1;
    }
    assert(statement_views(statements@).take(n as int) == statement_views(statements@));
    results
}

/// The table of line starts of a text, as numbers of the machine.
pub open spec fn line_table(bytes: Seq<u8>) -> Seq<usize> {
    Seq::new(line_starts(bytes).len(), |i: int| line_starts(bytes)[i] as usize)
}

/// Whether `edges` can be the import edges of module `module` with the
/// source text `text`: what the top-level statements of the text yield, in
/// the order of the statements and with the lines that the text gives them.
/// A text that does not parse has no edges, and neither has one of 4 GiB or
/// more, whose positions the parser cannot hold.
pub open spec fn extraction_of(
    edges: Seq<ImportLine>,
    namespace: Option<Seq<char>>,
    module: Seq<Seq<char>>,
    text: Seq<char>,
) -> bool {
    let bytes = vstd::utf8::encode_utf8(text);
    if bytes.len() >= 0xffff_ffff {
        edges.len() == 0
    } else {
        match parsed_statements(text) {
            Some(statements) => edges_of_statements(
                edges,
                statements,
                namespace,
                module,
                line_table(bytes),
            ),
            None => edges.len() == 0,
        }
    }
}

/// The import edges of module `module`, whose source text is `file_content`:
/// those that its top-level statements yield, in the order of the statements
/// and with the lines that the text gives them. A source that does not parse
/// has no edges, and neither has one of 4 GiB or more, whose positions the
/// parser cannot hold. Every edge starts at `module`, leads to a module that
/// was found to be local, and carries the line of its statement.
pub fn get_file_imports(
    module: &ModulePath,
    resolver: &ImportResolver,
    run_config: &RunConfig,
    file_content: &str,
) -> (r: Vec<ImportLine>)
    ensures
        extraction_of(r@, resolver.namespace(), module@, file_content@),
        forall|i: int|
            0 <= i < r@.len() ==> {
                &&& (#[trigger] r@[i]).from_module@ == module@
                &&& r@[i].target_module@.len() > 0
                &&& 1 <= r@[i].import_line <= line_starts(file_content.spec_bytes()).len()
                &&& is_canonical(module@) ==> is_canonical(r@[i].target_module@)
            },
{
    if file_content.as_bytes().len() >= 0xffff_ffff {
        return Vec::new();
    }
    let file = module.file_path();
    let statements = match parse_statements(file_content, file.as_str()) {
        Some(statements) => statements,
        None => {
            return Vec::new();
        },
    };
    let line_offsets = build_line_offsets(file_content);
    collect_edges(statements.as_slice(), module, resolver, line_offsets.as_slice(), run_config)
}

/// The count of entries up to an offset is at most the table's length, and
/// at least 1 where the table begins with 0.
pub proof fn lemma_count_bounds(table: Seq<usize>, offset: usize)
    ensures
        starts_up_to(table, offset) <= table.len(),
        table.len() > 0 && table[0] == 0 ==> starts_up_to(table, offset) >= 1,
    decreases table.len(),
{
    if table.len() > 0 {
        lemma_count_bounds(table.drop_last(), offset);
        if table.len() > 1 {
            assert(table.drop_last()[0] == table[0]);
        }
    }
}

} // verus!
