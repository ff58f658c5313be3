//! File-system paths as text.
//!
//! A path is a string whose components are separated by `/`. The functions
//! here only compose and take apart such strings; nothing in this module
//! touches the disk.

use vstd::prelude::*;

verus! {

/// The path that results from entering `comp` below `base`: an absolute
/// `comp` stands for itself, otherwise it follows `base`, after one `/` where
/// `base` is not empty and does not end in one already.
pub open spec fn pushed(base: Seq<char>, comp: Seq<char>) -> Seq<char> {
    if comp.len() > 0 && comp[0] == '/' {
        comp
    } else if base.len() == 0 || base.last() == '/' {
        base + comp
    } else {
        base.push('/') + comp
    }
}

/// The last character of `s`, if it has one.
pub fn last_char(s: &str) -> (r: Option<char>)
    ensures
        match r {
            Some(c) => s@.len() > 0 && c == s@.last(),
            None => s@.len() == 0,
        },
{
    let mut last: Option<char> = None;
    for c in it: s.chars()
        invariant
            it.seq() == s@,
            match last {
                Some(l) => it.index() > 0 && l == s@[it.index() - 1],
                None => it.index() == 0,
            },
    {
        last = Some(c);
    }
    last
}

/// The first character of `s`, if it has one.
pub fn first_char(s: &str) -> (r: Option<char>)
    ensures
        match r {
            Some(c) => s@.len() > 0 && c == s@[0],
            None => s@.len() == 0,
        },
{
    let mut it = s.chars();
    it.next()
}

/// Enters `comp` below the path in `base`.
pub fn push_component(base: &mut String, comp: &str)
    ensures
        final(base)@ == pushed(old(base)@, comp@),
{
    if first_char(comp) == Some('/') {
        *base = comp.to_owned();
    } else {
        match last_char(base.as_str()) {
            None => {},
            Some(c) => {
                if c != '/' {
                    base.push('/');
                }
            },
        }
        base.append(comp);
    }
}

/// The path of `comp` below `base`, as a new string.
pub fn join_path(base: &str, comp: &str) -> (r: String)
    ensures
        r@ == pushed(base@, comp@),
{
    let mut out = base.to_owned();
    push_component(&mut out, comp);
    out
}

/// `path` without the slashes at its end.
pub open spec fn without_trailing_slashes(path: Seq<char>) -> Seq<char>
    decreases path.len(),
{
    if path.len() > 0 && path.last() == '/' {
        without_trailing_slashes(path.drop_last())
    } else {
        path
    }
}

/// `path` without what follows its last slash: empty, or ending in a slash.
pub open spec fn without_last_component(path: Seq<char>) -> Seq<char>
    decreases path.len(),
{
    if path.len() > 0 && path.last() != '/' {
        without_last_component(path.drop_last())
    } else {
        path
    }
}

/// The directory that holds the last component of `path`. Slashes at the
/// end of either do not count. The root and the empty path have no parent;
/// a single relative component has the empty path as its parent. Every
/// component counts, `.` and `..` as any other: the parent of `a/.` is `a`.
pub open spec fn parent_of(path: Seq<char>) -> Option<Seq<char>> {
    let trimmed = without_trailing_slashes(path);
    if trimmed.len() == 0 {
        None
    } else {
        let held = without_last_component(trimmed);
        let dir = without_trailing_slashes(held);
        if held.len() > 0 && dir.len() == 0 {
            Some(seq!['/'])
        } else {
            Some(dir)
        }
    }
}

/// The `n`-th parent of `path`, where it has one; the path itself for 0.
pub open spec fn nth_parent(path: Seq<char>, n: nat) -> Option<Seq<char>>
    decreases n,
{
    if n == 0 {
        Some(path)
    } else {
        match nth_parent(path, (n - 1) as nat) {
            Some(below) => parent_of(below),
            None => None,
        }
    }
}

/// Whether `dir` is `path` itself or one of the directories above it.
pub open spec fn at_or_above(dir: Seq<char>, path: Seq<char>) -> bool {
    exists|n: nat| nth_parent(path, n) == Some(dir)
}

/// Both ways of cutting a path give a prefix of it.
pub proof fn lemma_cut_is_prefix(path: Seq<char>)
    ensures
        without_trailing_slashes(path) == path.take(without_trailing_slashes(path).len() as int),
        without_trailing_slashes(path).len() <= path.len(),
        without_trailing_slashes(path).len() > 0 ==> without_trailing_slashes(path).last() != '/',
        without_last_component(path) == path.take(without_last_component(path).len() as int),
        without_last_component(path).len() <= path.len(),
        without_last_component(path).len() > 0 ==> without_last_component(path).last() == '/',
    decreases path.len(),
{
    if path.len() > 0 {
        let front = path.drop_last();
        lemma_cut_is_prefix(front);
        assert(front.take(without_trailing_slashes(front).len() as int) == path.take(
            without_trailing_slashes(front).len() as int,
        ));
        assert(front.take(without_last_component(front).len() as int) == path.take(
            without_last_component(front).len() as int,
        ));
    }
    assert(path.take(path.len() as int) == path);
}

/// A parent is shorter than its child.
pub proof fn lemma_parent_shorter(path: Seq<char>)
    ensures
        parent_of(path) matches Some(dir) ==> dir.len() < path.len(),
{
    let trimmed = without_trailing_slashes(path);
    lemma_cut_is_prefix(path);
    if trimmed.len() > 0 {
        let held = without_last_component(trimmed);
        lemma_cut_is_prefix(trimmed);
        lemma_cut_is_prefix(held);
        assert(held.len() < trimmed.len()) by {
            if held.len() == trimmed.len() {
                assert(held == trimmed);
            }
        }
    }
}

/// The characters of `s`, one by one.
pub fn chars_of(s: &str) -> (r: Vec<char>)
    ensures
        r@ == s@,
{
    let mut out: Vec<char> = Vec::new();
    for c in it: s.chars()
        invariant
            it.seq() == s@,
            out@ == s@.take(it.index()),
    {
        out.push(c);
    }
    out
}

/// The text of the first `n` characters of `chars`, or of all of them
/// where there are fewer.
pub fn text_of_prefix(chars: &Vec<char>, n: usize) -> (r: String)
    ensures
        r@ == if n <= chars@.len() {
            chars@.take(n as int)
        } else {
            chars@
        },
{
    let end = if n <= chars.len() {
        n
    } else {
        chars.len()
    };
    let mut out = String::new();
    let mut i: usize = 0;
    while i < end
        invariant
            i <= end <= chars@.len(),
            out@ == chars@.take(i as int),
        decreases end - i,
    {
        out.push(chars[i]);
        assert(chars@.take(i + 1) == chars@.take(i as int).push(chars@[i as int]));
        i = i + 1;
    }
    out
}

/// The parent directory of `path`, where it has one.
pub fn parent_dir(path: &str) -> (r: Option<String>)
    ensures
        match r {
            Some(dir) => parent_of(path@) == Some(dir@) && dir@.len() < path@.len(),
            None => parent_of(path@) is None,
        },
{
    let chars = chars_of(path);
    let mut n: usize = chars.len();
    proof {
        lemma_parent_shorter(path@);
        assert(chars@.take(n as int) == chars@);
    }
    while n > 0 && chars[n - 1] == '/'
        invariant
            n <= chars@.len(),
            without_trailing_slashes(chars@) == without_trailing_slashes(chars@.take(n as int)),
        decreases n,
    {
        proof {
            assert(chars@.take(n as int).drop_last() == chars@.take(n - 1));
        }
        n = n - 1;
    }
    if n == 0 {
        return None;
    }
    let ghost trimmed = chars@.take(n as int);
    assert(without_trailing_slashes(chars@) == trimmed);
    let mut m: usize = n;
    while m > 0 && chars[m - 1] != '/'
        invariant
            m <= n <= chars@.len(),
            trimmed == chars@.take(n as int),
            without_last_component(trimmed) == without_last_component(chars@.take(m as int)),
        decreases m,
    {
        proof {
            assert(chars@.take(m as int).drop_last() == chars@.take(m - 1));
        }
        m = m - 1;
    }
    let ghost held = chars@.take(m as int);
    assert(without_last_component(trimmed) == held);
    let mut d: usize = m;
    while d > 0 && chars[d - 1] == '/'
        invariant
            d <= m <= chars@.len(),
            held == chars@.take(m as int),
            without_trailing_slashes(held) == without_trailing_slashes(chars@.take(d as int)),
        decreases d,
    {
        proof {
            assert(chars@.take(d as int).drop_last() == chars@.take(d - 1));
        }
        d = d - 1;
    }
    assert(without_trailing_slashes(held) == chars@.take(d as int));
    if m > 0 && d == 0 {
        let mut root = String::new();
        root.push('/');
        Some(root)
    } else {
        Some(text_of_prefix(&chars, d))
    }
}

} // verus!
