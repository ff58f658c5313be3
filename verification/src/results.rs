//! What a check produces.

use vstd::prelude::*;

verus! {

/// One violated rule at one import.
#[derive(Debug, PartialEq, Eq)]
pub struct Issue {
    pub rule_name: String,
    pub path: String,
    pub line: u32,
    pub message: String,
}

/// An issue as plain values.
pub struct IssueView {
    pub rule_name: Seq<char>,
    pub path: Seq<char>,
    pub line: u32,
    pub message: Seq<char>,
}

impl View for Issue {
    type V = IssueView;

    open spec fn view(&self) -> IssueView {
        IssueView {
            rule_name: self.rule_name@,
            path: self.path@,
            line: self.line,
            message: self.message@,
        }
    }
}

/// The views of a list of issues, item by item.
pub open spec fn issue_views(issues: Seq<Issue>) -> Seq<IssueView> {
    Seq::new(issues.len(), |i: int| issues[i]@)
}

/// The issues of a run are the same whichever of two lists arrives first:
/// as multisets, the two concatenations are equal.
pub proof fn lemma_arrival_order(first: Seq<Issue>, second: Seq<Issue>)
    ensures
        (first + second).to_multiset() == (second + first).to_multiset(),
{
    vstd::seq_lib::lemma_seq_union_to_multiset_commutative(first, second);
}

/// The lists of issues of the files of a run, as sequences.
pub open spec fn list_views(lists: Seq<Vec<Issue>>) -> Seq<Seq<Issue>> {
    Seq::new(lists.len(), |i: int| lists[i]@)
}

/// Taking one list out of a run takes its issues out of the run's issues.
pub proof fn lemma_without_one_list(lists: Seq<Seq<Issue>>, j: int)
    requires
        0 <= j < lists.len(),
    ensures
        lists.flatten().to_multiset() == lists.remove(j).flatten().to_multiset().add(
            lists[j].to_multiset(),
        ),
{
    let before = lists.take(j);
    let one = seq![lists[j]];
    let after = lists.skip(j + 1);
    assert(lists == before + one + after);
    assert(lists.remove(j) == before + after);
    vstd::seq_lib::lemma_flatten_concat(before + one, after);
    vstd::seq_lib::lemma_flatten_concat(before, one);
    vstd::seq_lib::lemma_flatten_concat(before, after);
    one.lemma_flatten_one_element();
    vstd::seq_lib::lemma_multiset_commutative(before.flatten() + lists[j], after.flatten());
    vstd::seq_lib::lemma_multiset_commutative(before.flatten(), lists[j]);
    vstd::seq_lib::lemma_multiset_commutative(before.flatten(), after.flatten());
    assert(lists.flatten() == before.flatten() + lists[j] + after.flatten());
    assert(lists.remove(j).flatten() == before.flatten() + after.flatten());
    assert(lists.flatten().to_multiset() =~= lists.remove(j).flatten().to_multiset().add(
        lists[j].to_multiset(),
    ));
}

/// The issues of a run do not depend on the order in which the lists of its
/// files arrive: two runs that gather the same lists, in whatever order,
/// hold the same issues, each as often in the one as in the other.
pub proof fn lemma_any_arrival_order(first_run: Seq<Seq<Issue>>, second_run: Seq<Seq<Issue>>)
    requires
        first_run.to_multiset() == second_run.to_multiset(),
    ensures
        first_run.flatten().to_multiset() == second_run.flatten().to_multiset(),
    decreases first_run.len(),
{
    first_run.to_multiset_ensures();
    second_run.to_multiset_ensures();
    if first_run.len() == 0 {
        assert(second_run.len() == 0);
    } else {
        let last = first_run.len() - 1;
        let list = first_run[last];
        assert(first_run.contains(list));
        assert(second_run.to_multiset().count(list) > 0);
        assert(second_run.contains(list));
        let j = choose|j: int| 0 <= j < second_run.len() && second_run[j] == list;
        vstd::seq_lib::to_multiset_remove(first_run, last);
        vstd::seq_lib::to_multiset_remove(second_run, j);
        lemma_any_arrival_order(first_run.remove(last), second_run.remove(j));
        lemma_without_one_list(first_run, last);
        lemma_without_one_list(second_run, j);
    }
}

/// The issues of a whole run, in no particular order.
#[derive(Debug)]
pub struct CheckResult {
    pub issues: Vec<Issue>,
}

impl Default for CheckResult {
    fn default() -> (r: Self)
        ensures
            r.issues@.len() == 0,
    {
        CheckResult { issues: Vec::new() }
    }
}

impl CheckResult {
    /// A result without issues.
    pub fn new() -> (r: CheckResult)
        ensures
            r.issues@.len() == 0,
    {
        CheckResult { issues: Vec::new() }
    }

    /// Adds the issues of one processed file behind those already held.
    pub fn absorb(&mut self, issues: Vec<Issue>)
        ensures
            final(self).issues@ == old(self).issues@ + issues@,
    {
        let mut more = issues;
        self.issues.append(&mut more);
    }

    /// The result of a run from the lists of issues of its files, in the
    /// order in which the lists arrived.
    pub fn gather(lists: Vec<Vec<Issue>>) -> (r: CheckResult)
        ensures
            r.issues@ == list_views(lists@).flatten(),
    {
        let mut result = CheckResult::new();
        let ghost all = list_views(lists@);
        for list in it: lists
            invariant
                it.seq() == lists@,
                all == list_views(lists@),
                result.issues@ == all.take(it.index()).flatten(),
        {
            proof {
                assert(all.take(it.index() + 1) == all.take(it.index()).push(list@));
                all.take(it.index()).lemma_flatten_push(list@);
            }
            result.absorb(list);
        }
        proof {
            assert(all.take(all.len() as int) == all);
        }
        result
    }

    /// Whether the run found nothing, which a caller reports as success.
    pub fn is_clean(&self) -> (r: bool)
        ensures
            r == (self.issues@.len() == 0),
    {
        self.issues.len() == 0
    }
}

} // verus!
