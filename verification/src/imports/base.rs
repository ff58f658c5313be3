//! Relative directory text of a list of names.

use crate::text::views_of;
use vstd::prelude::*;

verus! {

/// Every name followed by one `/`, in order.
pub open spec fn slash_terminated(names: Seq<Seq<char>>) -> Seq<char>
    decreases names.len(),
{
    if names.len() == 0 {
        Seq::empty()
    } else {
        slash_terminated(names.drop_last()) + names.last().push('/')
    }
}

/// The relative directory of the names: each one followed by a `/`.
pub fn get_relative_path(names: Vec<String>) -> (r: String)
    ensures
        r@ == slash_terminated(views_of(names@)),
{
    let mut out = String::new();
    let mut i: usize = 0;
    while i < names.len()
        invariant
            i <= names@.len(),
            out@ == slash_terminated(views_of(names@).take(i as int)),
        decreases names@.len() - i,
    {
        out.append(names[i].as_str());
        out.push('/');
        proof {
            let all = views_of(names@);
            assert(all.take(i + 1).drop_last() == all.take(i as int));
            assert(all.take(i + 1).last() == names@[i as int]@);
        }
        i = i + 1;
    }
    assert(views_of(names@).take(i as int) == views_of(names@));
    out
}

} // verus!
