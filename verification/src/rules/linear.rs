//! The layered-order rule.
//!
//! Below a scope, the first segment of a module names its layer. The
//! configured order ranks the layers from the most foundational (rank 0)
//! upward; a module may import from its own layer and from layers of lower
//! rank, and from nothing of higher rank.

use crate::imports::import_line::{show_module, shown_module, ImportLine};
use crate::modpath::ModulePath;
use crate::rules::{ImportRule, RuleOutcome, Verdict};
use crate::text::{join_texts, join_with, same_text, views_of};
use vstd::prelude::*;

verus! {

/// The rank of `name`: the last position at which the order holds it.
pub open spec fn rank_of(order: Seq<Seq<char>>, name: Seq<char>) -> Option<int>
    decreases order.len(),
{
    if order.len() == 0 {
        None
    } else if order.last() == name {
        Some(order.len() - 1)
    } else {
        rank_of(order.drop_last(), name)
    }
}

/// The first segment of a path, or the empty text where it has none.
pub open spec fn head_of(segments: Seq<Seq<char>>) -> Seq<char> {
    if segments.len() == 0 {
        Seq::empty()
    } else {
        segments[0]
    }
}

/// Whether a layer of rank `from` may import from a layer of rank `target`.
/// A layer without a rank is not constrained.
pub open spec fn ranks_allow(from: Option<int>, target: Option<int>) -> bool {
    match (from, target) {
        (Some(me), Some(other)) => other <= me,
        _ => true,
    }
}

/// The verdict of the layered order with the given scope and order on an
/// edge from `from` to `target`.
pub open spec fn layer_verdict(
    scope: Seq<Seq<char>>,
    order: Seq<Seq<char>>,
    from: Seq<Seq<char>>,
    target: Seq<Seq<char>>,
) -> Verdict {
    if !scope.is_prefix_of(from) {
        Verdict { pass: true, reason: "out of scope (not under source folder)"@ }
    } else if !scope.is_prefix_of(target) {
        Verdict { pass: true, reason: "out of scope (target not under source folder)"@ }
    } else {
        let from_head = head_of(from.skip(scope.len() as int));
        let target_head = head_of(target.skip(scope.len() as int));
        if target_head.len() == 0 {
            Verdict { pass: true, reason: "empty target head"@ }
        } else if from_head.len() == 0 {
            Verdict { pass: true, reason: "empty current head"@ }
        } else if ranks_allow(rank_of(order, from_head), rank_of(order, target_head)) {
            Verdict { pass: true, reason: "ok: "@ + from_head + " can import "@ + target_head }
        } else {
            Verdict {
                pass: false,
                reason: "order violation: '"@ + from_head + "' cannot import from '"@
                    + target_head + "'"@,
            }
        }
    }
}

/// Whether anything at or below `path` lies in the scope: one of the two is
/// a prefix of the other.
pub open spec fn scope_meets(scope: Seq<Seq<char>>, path: Seq<Seq<char>>) -> bool {
    scope.is_prefix_of(path) || path.is_prefix_of(scope)
}

/// Whether position `i` is the last at which the order holds its name.
pub open spec fn is_last_occurrence(order: Seq<Seq<char>>, i: int) -> bool {
    forall|j: int| i < j < order.len() ==> order[j] != order[i]
}

/// The names among the first `n` of the order that keep their rank, that is
/// those that do not occur again later, in order.
pub open spec fn ranked_names(order: Seq<Seq<char>>, n: nat) -> Seq<Seq<char>>
    decreases n,
{
    if n == 0 {
        Seq::empty()
    } else {
        let before = ranked_names(order, (n - 1) as nat);
        if is_last_occurrence(order, n - 1) {
            before.push(order[n - 1])
        } else {
            before
        }
    }
}

/// The summary of a layered order for display.
pub open spec fn layer_summary(scope: Seq<Seq<char>>, order: Seq<Seq<char>>) -> Seq<char> {
    "folder="@ + shown_module(scope) + " order="@ + if order.len() == 0 {
        "<unspecified>"@
    } else {
        join_with(ranked_names(order, order.len()), " -> "@)
    }
}

/// A name has a rank exactly when the order holds it, and its rank is a
/// position of the name behind which it does not occur again.
pub proof fn lemma_rank_of(order: Seq<Seq<char>>, name: Seq<char>)
    ensures
        match rank_of(order, name) {
            Some(r) => 0 <= r < order.len() && order[r] == name && is_last_occurrence(order, r),
            None => forall|i: int| 0 <= i < order.len() ==> order[i] != name,
        },
    decreases order.len(),
{
    if order.len() == 0 {
    } else if order.last() == name {
    } else {
        let front = order.drop_last();
        lemma_rank_of(front, name);
        match rank_of(front, name) {
            Some(r) => {
                assert(order[r] == front[r]);
                assert forall|j: int| r < j < order.len() implies order[j] != order[r] by {
                    if j < front.len() {
                        assert(front[j] != front[r]);
                    }
                }
            },
            None => {
                assert forall|i: int| 0 <= i < order.len() implies order[i] != name by {
                    if i < front.len() {
                        assert(front[i] != name);
                    }
                }
            },
        }
    }
}

/// An edge with an end outside the scope passes, whatever the order, and the
/// reason says that it is out of scope.
pub proof fn lemma_out_of_scope_passes(
    scope: Seq<Seq<char>>,
    order: Seq<Seq<char>>,
    from: Seq<Seq<char>>,
    target: Seq<Seq<char>>,
)
    requires
        !scope.is_prefix_of(from) || !scope.is_prefix_of(target),
    ensures
        layer_verdict(scope, order, from, target).pass,
        "out of scope"@.is_prefix_of(layer_verdict(scope, order, from, target).reason),
{
    reveal_strlit("out of scope");
    reveal_strlit("out of scope (not under source folder)");
    reveal_strlit("out of scope (target not under source folder)");
}

/// An edge fails exactly when both ends lie in the scope, both layers are
/// named and ranked, and the target's layer ranks above the importer's.
pub proof fn lemma_fails_only_upward(
    scope: Seq<Seq<char>>,
    order: Seq<Seq<char>>,
    from: Seq<Seq<char>>,
    target: Seq<Seq<char>>,
)
    ensures
        !layer_verdict(scope, order, from, target).pass <==> {
            &&& scope.is_prefix_of(from)
            &&& scope.is_prefix_of(target)
            &&& rank_of(order, head_of(from.skip(scope.len() as int))) is Some
            &&& rank_of(order, head_of(target.skip(scope.len() as int))) is Some
            &&& rank_of(order, head_of(target.skip(scope.len() as int)))->0 > rank_of(
                order,
                head_of(from.skip(scope.len() as int)),
            )->0
            &&& head_of(from.skip(scope.len() as int)).len() > 0
            &&& head_of(target.skip(scope.len() as int)).len() > 0
        },
{
}

/// Imports within one layer always pass.
pub proof fn lemma_same_layer_passes(
    scope: Seq<Seq<char>>,
    order: Seq<Seq<char>>,
    from: Seq<Seq<char>>,
    target: Seq<Seq<char>>,
)
    requires
        head_of(from.skip(scope.len() as int)) == head_of(target.skip(scope.len() as int)),
    ensures
        layer_verdict(scope, order, from, target).pass,
{
}

/// Two prefixes of one path: one of them is a prefix of the other.
pub proof fn lemma_prefixes_meet(a: Seq<Seq<char>>, b: Seq<Seq<char>>, path: Seq<Seq<char>>)
    requires
        a.is_prefix_of(path),
        b.is_prefix_of(path),
    ensures
        a.is_prefix_of(b) || b.is_prefix_of(a),
{
    if a.len() <= b.len() {
        assert(a =~= b.subrange(0, a.len() as int)) by {
            assert forall|i: int| 0 <= i < a.len() implies a[i] == b[i] by {
                assert(a[i] == path[i]);
                assert(b[i] == path[i]);
            }
        }
    } else {
        assert(b =~= a.subrange(0, b.len() as int)) by {
            assert forall|i: int| 0 <= i < b.len() implies a[i] == b[i] by {
                assert(a[i] == path[i]);
                assert(b[i] == path[i]);
            }
        }
    }
}

/// The layered order below one module.
pub struct LinearOrderInFolder {
    source_folder: ModulePath,
    order: Vec<String>,
}

impl LinearOrderInFolder {
    /// The module below which the rule applies.
    pub closed spec fn scope(&self) -> Seq<Seq<char>> {
        self.source_folder@
    }

    /// The configured names, in their order.
    pub closed spec fn order(&self) -> Seq<Seq<char>> {
        views_of(self.order@)
    }

    /// The rule that ranks the names of `order`, by their position, below
    /// `source_folder`.
    pub fn new(source_folder: ModulePath, order: Vec<String>) -> (r: LinearOrderInFolder)
        ensures
            r.scope() == source_folder@,
            r.order() == views_of(order@),
    {
        LinearOrderInFolder { source_folder, order }
    }

    /// The rank of `name` in the order, if it has one.
    pub fn rank(&self, name: &str) -> (r: Option<usize>)
        ensures
            match r {
                Some(k) => rank_of(self.order(), name@) == Some(k as int),
                None => rank_of(self.order(), name@) is None,
            },
    {
        let mut i: usize = self.order.len();
        proof {
            assert(self.order().take(i as int) == self.order());
        }
        while i > 0
            invariant
                i <= self.order@.len(),
                rank_of(self.order(), name@) == rank_of(self.order().take(i as int), name@),
            decreases i,
        {
            let ghost upto = self.order().take(i as int);
            proof {
                assert(upto.last() == self.order@[i - 1]@);
                assert(upto.drop_last() == self.order().take(i - 1));
            }
            if same_text(self.order[i - 1].as_str(), name) {
                return Some(i - 1);
            }
            i = i - 1;
        }
        proof {
            assert(self.order().take(0).len() == 0);
        }
        None
    }

    /// Whether the name at position `i` does not occur again behind it.
    fn keeps_rank(&self, i: usize) -> (r: bool)
        requires
            i < self.order().len(),
        ensures
            r == is_last_occurrence(self.order(), i as int),
    {
        let n = self.order.len();
        assert(self.order().len() == n);
        let mut j: usize = i + 1;
        while j < n
            invariant
                n == self.order@.len(),
                i < j <= n,
                forall|k: int| i < k < j ==> self.order()[k] != self.order()[i as int],
            decreases n - j,
        {
            if self.order[j] == self.order[i] {
                assert(self.order()[j as int] == self.order()[i as int]);
                return false;
            }
            j = j + 1;
        }
        true
    }
}

impl ImportRule for LinearOrderInFolder {
    open spec fn rule_name(&self) -> Seq<char> {
        "Linear"@
    }

    open spec fn verdict(&self, from: Seq<Seq<char>>, target: Seq<Seq<char>>) -> Verdict {
        layer_verdict(self.scope(), self.order(), from, target)
    }

    open spec fn concerns(&self, path: Seq<Seq<char>>) -> bool {
        scope_meets(self.scope(), path)
    }

    open spec fn summary(&self) -> Seq<char> {
        layer_summary(self.scope(), self.order())
    }

    proof fn lemma_unconcerned_passes(
        &self,
        path: Seq<Seq<char>>,
        from: Seq<Seq<char>>,
        target: Seq<Seq<char>>,
    ) {
        if self.scope().is_prefix_of(from) {
            lemma_prefixes_meet(self.scope(), path, from);
        }
    }

    fn name(&self) -> (r: &'static str) {
        "Linear"
    }

    fn check_line(&self, _current_file: &str, import: &ImportLine) -> (r: RuleOutcome) {
        let rel_from = match import.from_module.relative_from(&self.source_folder) {
            Some(rest) => rest,
            None => {
                return RuleOutcome {
                    pass: true,
                    reason: "out of scope (not under source folder)".to_owned(),
                };
            },
        };
        let rel_target = match import.target_module.relative_from(&self.source_folder) {
            Some(rest) => rest,
            None => {
                return RuleOutcome {
                    pass: true,
                    reason: "out of scope (target not under source folder)".to_owned(),
                };
            },
        };
        let target_parts = rel_target.segments();
        let from_parts = rel_from.segments();
        proof {
            assert(target_parts@.len() > 0 ==> views_of(target_parts@)[0] == target_parts@[0]@);
            assert(from_parts@.len() > 0 ==> views_of(from_parts@)[0] == from_parts@[0]@);
        }
        if target_parts.len() == 0 || target_parts[0].as_str().unicode_len() == 0 {
            return RuleOutcome { pass: true, reason: "empty target head".to_owned() };
        }
        if from_parts.len() == 0 || from_parts[0].as_str().unicode_len() == 0 {
            return RuleOutcome { pass: true, reason: "empty current head".to_owned() };
        }
        let target_head = target_parts[0].as_str();
        let from_head = from_parts[0].as_str();
        let pass = match (self.rank(from_head), self.rank(target_head)) {
            (Some(me), Some(other)) => other <= me,
            _ => true,
        };
        let mut reason = String::new();
        if pass {
            reason.append("ok: ");
            reason.append(from_head);
            reason.append(" can import ");
            reason.append(target_head);
        } else {
            reason.append("order violation: '");
            reason.append(from_head);
            reason.append("' cannot import from '");
            reason.append(target_head);
            reason.append("'");
        }
        RuleOutcome { pass, reason }
    }

    fn describe(&self) -> (r: String) {
        let mut out = "folder=".to_owned();
        out.append(show_module(&self.source_folder).as_str());
        out.append(" order=");
        if self.order.len() == 0 {
            out.append("<unspecified>");
            return out;
        }
        let mut kept: Vec<String> = Vec::new();
        let mut i: usize = 0;
        while i < self.order.len()
            invariant
                i <= self.order@.len(),
                views_of(kept@) == ranked_names(self.order(), i as nat),
            decreases self.order@.len() - i,
        {
            if self.keeps_rank(i) {
                let ghost before = views_of(kept@);
                kept.push(self.order[i].clone());
                assert(views_of(kept@) == before.push(self.order()[i as int]));
            }
            i = i + 1;
        }
        out.append(join_texts(kept.as_slice(), " -> ").as_str());
        out
    }

    fn concern(&self, path: &ModulePath) -> (r: bool) {
        path.starts_with(&self.source_folder) || self.source_folder.starts_with(path)
    }
}

} // verus!
