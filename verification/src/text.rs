//! Character-level helpers on strings, with their mathematical models.
//!
//! A string is modelled by its view, a `Seq<char>`; a list of strings by the
//! sequence of the views of its items.

use vstd::prelude::*;
use vstd::std_specs::iter::IteratorSpec;

verus! {

/// `String::push` of the standard library appends one character to the string
/// and leaves what was there before unchanged.
pub assume_specification[ String::push ](s: &mut String, c: char)
    ensures
        final(s)@ == old(s)@.push(c),
;

/// The views of a list of strings, item by item.
pub open spec fn views_of(items: Seq<String>) -> Seq<Seq<char>> {
    Seq::new(items.len(), |i: int| items[i]@)
}

/// The items of `parts` written one after the other with `sep` between each
/// two neighbours.
pub open spec fn join_with(parts: Seq<Seq<char>>, sep: Seq<char>) -> Seq<char>
    decreases parts.len(),
{
    if parts.len() == 0 {
        Seq::empty()
    } else if parts.len() == 1 {
        parts[0]
    } else {
        join_with(parts.drop_last(), sep) + sep + parts.last()
    }
}

/// `s` with every occurrence of `from` replaced by `to`.
pub open spec fn replaced(s: Seq<char>, from: char, to: char) -> Seq<char> {
    Seq::new(
        s.len(),
        |i: int|
            if s[i] == from {
                to
            } else {
                s[i]
            },
    )
}

/// The character that writes the decimal digit `d`.
pub open spec fn digit_char(d: int) -> char {
    if d == 0 {
        '0'
    } else if d == 1 {
        '1'
    } else if d == 2 {
        '2'
    } else if d == 3 {
        '3'
    } else if d == 4 {
        '4'
    } else if d == 5 {
        '5'
    } else if d == 6 {
        '6'
    } else if d == 7 {
        '7'
    } else if d == 8 {
        '8'
    } else {
        '9'
    }
}

/// The decimal notation of `n`, most significant digit first, without
/// leading zeros.
pub open spec fn decimal(n: nat) -> Seq<char>
    decreases n,
{
    if n < 10 {
        seq![digit_char(n as int)]
    } else {
        decimal(n / 10).push(digit_char((n % 10) as int))
    }
}

/// Joining from the front: the first item, the separator, and the rest joined.
pub proof fn lemma_join_front(parts: Seq<Seq<char>>, sep: Seq<char>)
    requires
        parts.len() >= 2,
    ensures
        join_with(parts, sep) == parts[0] + sep + join_with(parts.drop_first(), sep),
    decreases parts.len(),
{
    if parts.len() == 2 {
        assert(parts.drop_last().len() == 1);
        assert(parts.drop_first().len() == 1);
        assert(join_with(parts.drop_last(), sep) == parts[0]);
        assert(join_with(parts.drop_first(), sep) == parts[1]);
    } else {
        let front = parts.drop_last();
        lemma_join_front(front, sep);
        assert(front.drop_first() == parts.drop_first().drop_last());
        assert(parts.drop_first().last() == parts.last());
        assert(front[0] == parts[0]);
        assert(join_with(parts.drop_first(), sep) == join_with(front.drop_first(), sep) + sep
            + parts.last());
        assert(join_with(parts, sep) == (parts[0] + sep + join_with(front.drop_first(), sep))
            + sep + parts.last());
    }
}

/// Whether `s` begins with `prefix`.
pub fn has_prefix(s: &str, prefix: &str) -> (r: bool)
    ensures
        r == prefix@.is_prefix_of(s@),
{
    let mut rest = s.chars();
    let mut want = prefix.chars();
    let ghost mut seen: int = 0;
    loop
        invariant
            0 <= seen <= prefix@.len(),
            seen <= s@.len(),
            rest.remaining() == s@.skip(seen),
            want.remaining() == prefix@.skip(seen),
            s@.take(seen) == prefix@.take(seen),
        decreases prefix@.len() - seen,
    {
        match want.next() {
            None => {
                assert(prefix@.take(seen) == prefix@);
                return true;
            },
            Some(w) => {
                match rest.next() {
                    None => {
                        return false;
                    },
                    Some(c) => {
                        if c != w {
                            assert(s@[seen] != prefix@[seen]);
                            return false;
                        }
                        proof {
                            assert(s@.take(seen + 1) == s@.take(seen).push(s@[seen]));
                            assert(prefix@.take(seen + 1) == prefix@.take(seen).push(
                                prefix@[seen],
                            ));
                            assert(s@.skip(seen).drop_first() == s@.skip(seen + 1));
                            assert(prefix@.skip(seen).drop_first() == prefix@.skip(seen + 1));
                            seen = seen + 1;
                        }
                    },
                }
            },
        }
    }
}

/// Whether two strings hold the same characters.
pub fn same_text(a: &str, b: &str) -> (r: bool)
    ensures
        r == (a@ == b@),
{
    let r = has_prefix(a, b) && has_prefix(b, a);
    proof {
        if r {
            assert(a@ =~= b@);
        }
    }
    r
}

/// What follows the first `n` characters of `s`; nothing where `s` has no
/// more than `n`.
pub fn text_after(s: &str, n: usize) -> (r: String)
    ensures
        r@ == if n <= s@.len() {
            s@.skip(n as int)
        } else {
            Seq::empty()
        },
{
    let mut out = String::new();
    let mut passed: usize = 0;
    for c in it: s.chars()
        invariant
            it.seq() == s@,
            passed == if it.index() < n {
                it.index()
            } else {
                n as int
            },
            out@ == if it.index() < n {
                Seq::<char>::empty()
            } else {
                s@.subrange(n as int, it.index())
            },
    {
        if passed < n {
            passed = passed + 1;
        } else {
            out.push(c);
        }
    }
    out
}

/// What follows `prefix` in `s`, when `s` begins with it.
pub fn strip_prefix(s: &str, prefix: &str) -> (r: Option<String>)
    ensures
        match r {
            Some(rest) => prefix@.is_prefix_of(s@) && rest@ == s@.skip(prefix@.len() as int),
            None => !prefix@.is_prefix_of(s@),
        },
{
    if has_prefix(s, prefix) {
        Some(text_after(s, prefix.unicode_len()))
    } else {
        None
    }
}

/// A copy of `s` in which every `from` has become `to`.
pub fn replace_char(s: &str, from: char, to: char) -> (r: String)
    ensures
        r@ == replaced(s@, from, to),
{
    let mut out = String::new();
    for c in it: s.chars()
        invariant
            it.seq() == s@,
            out@ == replaced(s@, from, to).take(it.index()),
    {
        if c == from {
            out.push(to);
        } else {
            out.push(c);
        }
    }
    out
}

/// The strings of `parts` joined by `sep`.
pub fn join_texts(parts: &[String], sep: &str) -> (r: String)
    ensures
        r@ == join_with(views_of(parts@), sep@),
{
    let mut out = String::new();
    let mut i: usize = 0;
    while i < parts.len()
        invariant
            i <= parts@.len(),
            out@ == join_with(views_of(parts@).take(i as int), sep@),
        decreases parts@.len() - i,
    {
        if i > 0 {
            out.append(sep);
        }
        out.append(parts[i].as_str());
        proof {
            let all = views_of(parts@);
            assert(all.take(i + 1).drop_last() == all.take(i as int));
            assert(all.take(i + 1).last() == parts@[i as int]@);
        }
        i = i + 1;
    }
    proof {
        assert(views_of(parts@).take(i as int) == views_of(parts@));
    }
    out
}

/// The character of a decimal digit.
fn digit(d: u32) -> (c: char)
    requires
        d < 10,
    ensures
        c == digit_char(d as int),
{
    if d == 0 {
        '0'
    } else if d == 1 {
        '1'
    } else if d == 2 {
        '2'
    } else if d == 3 {
        '3'
    } else if d == 4 {
        '4'
    } else if d == 5 {
        '5'
    } else if d == 6 {
        '6'
    } else if d == 7 {
        '7'
    } else if d == 8 {
        '8'
    } else {
        '9'
    }
}

/// Appends the decimal notation of `n` to `out`.
pub fn push_decimal(out: &mut String, n: u32)
    ensures
        final(out)@ == old(out)@ + decimal(n as nat),
    decreases n,
{
    if n >= 10 {
        push_decimal(out, n / 10);
    }
    out.push(digit(n % 10));
}

} // verus!
