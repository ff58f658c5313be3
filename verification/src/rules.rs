//! Structural rules over import edges.

use crate::configs::project::ProjectConfig;
use crate::configs::run::RunConfig;
use crate::imports::import_line::ImportLine;
use crate::modpath::ModulePath;
use crate::rules::linear::LinearOrderInFolder;
use vstd::prelude::*;

pub mod linear;

verus! {

/// What a rule says of one edge.
#[derive(Debug, Clone, PartialEq, Eq)]
pub struct RuleOutcome {
    pub pass: bool,
    pub reason: String,
}

/// A verdict as plain values: whether the edge passes, and why.
pub struct Verdict {
    pub pass: bool,
    pub reason: Seq<char>,
}

/// A rule over import edges. The verdict on an edge depends on the edge's two
/// modules only. A rule also says which parts of the tree concern it; what
/// does not concern it can be left unvisited, because every edge from there
/// passes.
pub trait ImportRule {
    /// The rule's name.
    spec fn rule_name(&self) -> Seq<char>;

    /// The verdict on an edge from module `from` to module `target`.
    spec fn verdict(&self, from: Seq<Seq<char>>, target: Seq<Seq<char>>) -> Verdict;

    /// Whether a module at or below `path` could fail the rule.
    spec fn concerns(&self, path: Seq<Seq<char>>) -> bool;

    /// The rule's configuration in words.
    spec fn summary(&self) -> Seq<char>;

    /// An edge that starts at or below a path of no concern passes.
    proof fn lemma_unconcerned_passes(
        &self,
        path: Seq<Seq<char>>,
        from: Seq<Seq<char>>,
        target: Seq<Seq<char>>,
    )
        requires
            !self.concerns(path),
            path.is_prefix_of(from),
        ensures
            self.verdict(from, target).pass,
    ;

    fn name(&self) -> (r: &'static str)
        ensures
            r@ == self.rule_name(),
    ;

    fn check_line(&self, current_file: &str, import: &ImportLine) -> (r: RuleOutcome)
        ensures
            r.pass == self.verdict(import.from_module@, import.target_module@).pass,
            r.reason@ == self.verdict(import.from_module@, import.target_module@).reason,
    ;

    /// A summary of the rule's configuration for display.
    fn describe(&self) -> (r: String)
        ensures
            r@ == self.summary(),
    ;

    fn concern(&self, path: &ModulePath) -> (r: bool)
        ensures
            r == self.concerns(path@),
    ;
}

/// The module below which a configured rule applies: its own, or the
/// project's first source module where it names none, or the empty path.
pub open spec fn rule_scope(own: Seq<Seq<char>>, sources: Seq<ModulePath>) -> Seq<Seq<char>> {
    if own.len() > 0 {
        own
    } else if sources.len() > 0 {
        sources[0]@
    } else {
        Seq::empty()
    }
}

/// The module below which a configured rule applies.
pub fn scope_of(own: &ModulePath, sources: &[ModulePath]) -> (r: ModulePath)
    ensures
        r@ == rule_scope(own@, sources@),
{
    if !own.is_empty() {
        own.clone()
    } else if sources.len() > 0 {
        sources[0].clone()
    } else {
        let r = ModulePath::default();
        assert(r@ =~= Seq::<Seq<char>>::empty());
        r
    }
}

/// The rules of a project, one for each configured rule and in their order.
/// The run's switches have no part in it.
pub fn build_rules(project: &ProjectConfig, _config: &RunConfig) -> (r: Vec<LinearOrderInFolder>)
    ensures
        r@.len() == project.rules.linear@.len(),
        forall|i: int|
            0 <= i < r@.len() ==> {
                &&& (#[trigger] r@[i]).scope() == rule_scope(
                    project.rules.linear@[i].source_module@,
                    project.source_modules@,
                )
                &&& r@[i].order() == crate::text::views_of(project.rules.linear@[i].order@)
            },
{
    let mut rules: Vec<LinearOrderInFolder> = Vec::new();
    let mut i: usize = 0;
    while i < project.rules.linear.len()
        invariant
            i <= project.rules.linear@.len(),
            rules@.len() == i,
            forall|j: int|
                0 <= j < i ==> {
                    &&& (#[trigger] rules@[j]).scope() == rule_scope(
                        project.rules.linear@[j].source_module@,
                        project.source_modules@,
                    )
                    &&& rules@[j].order() == crate::text::views_of(
                        project.rules.linear@[j].order@,
                    )
                },
        decreases project.rules.linear@.len() - i,
    {
        let def = &project.rules.linear[i];
        let scope = scope_of(&def.source_module, project.source_modules.as_slice());
        let order = def.order.clone();
        assert(crate::text::views_of(order@) == crate::text::views_of(def.order@));
        rules.push(LinearOrderInFolder::new(scope, order));
        i = i + 1;
    }
    rules
}

} // verus!
