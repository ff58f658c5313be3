//! Dotted module paths and their projection onto the file system.
//!
//! A module path is modelled by the sequence of its segments, each a
//! `Seq<char>`. A path is canonical when no segment is empty and none holds a
//! dot: such a path and its dotted text determine each other.

use crate::paths::{push_component, pushed};
use crate::text::{join_texts, join_with, text_after, views_of};
use vstd::prelude::*;
use vstd::std_specs::iter::IteratorSpec;

verus! {

/// A segment that is not empty and holds no dot.
pub open spec fn valid_segment(s: Seq<char>) -> bool {
    s.len() > 0 && forall|i: int| 0 <= i < s.len() ==> s[i] != '.'
}

/// Every segment is valid.
pub open spec fn is_canonical(segments: Seq<Seq<char>>) -> bool {
    forall|i: int| 0 <= i < segments.len() ==> valid_segment(#[trigger] segments[i])
}

/// The segments joined by single dots.
pub open spec fn dotted(segments: Seq<Seq<char>>) -> Seq<char> {
    join_with(segments, seq!['.'])
}

/// The position of the first dot of `s`, or its length where it has none.
pub open spec fn first_dot(s: Seq<char>) -> nat
    decreases s.len(),
{
    if s.len() == 0 || s[0] == '.' {
        0
    } else {
        1 + first_dot(s.drop_first())
    }
}

/// The non-empty pieces into which the dots of `s` cut it, in order.
pub open spec fn split_dotted(s: Seq<char>) -> Seq<Seq<char>>
    decreases s.len(),
{
    if s.len() == 0 {
        Seq::empty()
    } else {
        let k = first_dot(s) as int;
        let rest = if k < s.len() {
            split_dotted(s.skip(k + 1))
        } else {
            Seq::empty()
        };
        if k == 0 {
            rest
        } else {
            seq![s.take(k)] + rest
        }
    }
}

/// The number of dots with which `s` begins.
pub open spec fn leading_dots(s: Seq<char>) -> nat
    decreases s.len(),
{
    if s.len() == 0 || s[0] != '.' {
        0
    } else {
        1 + leading_dots(s.drop_first())
    }
}

/// The module that the specifier `spec` names when it is written in module
/// `current`. Without a leading dot it is absolute. With `k` leading dots the
/// last `k` segments of `current` are dropped, as many as there are, and the
/// pieces of the remainder are appended.
pub open spec fn resolve_relative(current: Seq<Seq<char>>, spec: Seq<char>) -> Seq<Seq<char>> {
    let k = leading_dots(spec) as int;
    if k == 0 {
        split_dotted(spec)
    } else {
        let kept = if k < current.len() {
            current.len() - k
        } else {
            0
        };
        current.take(kept) + split_dotted(spec.skip(k))
    }
}

/// The directory that the segments name, each entered below the one before.
pub open spec fn dir_path(segments: Seq<Seq<char>>) -> Seq<char>
    decreases segments.len(),
{
    if segments.len() == 0 {
        Seq::empty()
    } else {
        pushed(dir_path(segments.drop_last()), segments.last())
    }
}

/// The extension of a source file, with its dot.
pub open spec fn source_suffix() -> Seq<char> {
    seq!['.', 'p', 'y']
}

/// The source file of the module: the last segment is the file's stem, the
/// others name its directory. The empty path has the empty file path.
pub open spec fn module_file(segments: Seq<Seq<char>>) -> Seq<char> {
    if segments.len() == 0 {
        Seq::empty()
    } else {
        pushed(dir_path(segments.drop_last()), segments.last() + source_suffix())
    }
}

/// The first dot lies within the text, is a dot where the text has one, and
/// has no dot before it.
pub proof fn lemma_first_dot_bound(s: Seq<char>)
    ensures
        first_dot(s) <= s.len(),
        first_dot(s) < s.len() ==> s[first_dot(s) as int] == '.',
        forall|i: int| 0 <= i < first_dot(s) ==> s[i] != '.',
    decreases s.len(),
{
    if s.len() == 0 || s[0] == '.' {
    } else {
        let t = s.drop_first();
        lemma_first_dot_bound(t);
        assert forall|i: int| 0 <= i < first_dot(s) implies s[i] != '.' by {
            if i > 0 {
                assert(s[i] == t[i - 1]);
            }
        }
    }
}

/// A piece without a dot, put before `rest`, moves the first dot of `rest` by
/// its own length.
pub proof fn lemma_first_dot_after(piece: Seq<char>, rest: Seq<char>)
    requires
        forall|i: int| 0 <= i < piece.len() ==> piece[i] != '.',
    ensures
        first_dot(piece + rest) == piece.len() + first_dot(rest),
    decreases piece.len(),
{
    if piece.len() == 0 {
        assert(piece + rest == rest);
    } else {
        let all = piece + rest;
        assert(all[0] == piece[0]);
        assert(all.drop_first() == piece.drop_first() + rest);
        lemma_first_dot_after(piece.drop_first(), rest);
    }
}

/// Splitting a text that begins with a dot-free piece and a dot yields that
/// piece, if it is not empty, and then the pieces of what follows the dot.
pub proof fn lemma_split_at_dot(piece: Seq<char>, rest: Seq<char>)
    requires
        forall|i: int| 0 <= i < piece.len() ==> piece[i] != '.',
    ensures
        split_dotted(piece + seq!['.'] + rest) == if piece.len() == 0 {
            split_dotted(rest)
        } else {
            seq![piece] + split_dotted(rest)
        },
{
    let tail = seq!['.'] + rest;
    let all = piece + seq!['.'] + rest;
    assert(all == piece + tail);
    lemma_first_dot_after(piece, tail);
    assert(first_dot(tail) == 0);
    assert(first_dot(all) == piece.len());
    assert(all.skip(piece.len() as int + 1) == rest);
    assert(all.take(piece.len() as int) == piece);
}

/// A text without a dot is its own only piece, or no piece when it is empty.
pub proof fn lemma_split_plain(piece: Seq<char>)
    requires
        forall|i: int| 0 <= i < piece.len() ==> piece[i] != '.',
    ensures
        split_dotted(piece) == if piece.len() == 0 {
            Seq::<Seq<char>>::empty()
        } else {
            seq![piece]
        },
{
    lemma_first_dot_after(piece, Seq::empty());
    assert(piece + Seq::<char>::empty() == piece);
    assert(piece.take(piece.len() as int) == piece);
}

/// What splitting yields is canonical.
pub proof fn lemma_split_canonical(s: Seq<char>)
    ensures
        is_canonical(split_dotted(s)),
    decreases s.len(),
{
    if s.len() > 0 {
        lemma_first_dot_bound(s);
        let k = first_dot(s) as int;
        if k < s.len() {
            lemma_split_canonical(s.skip(k + 1));
        }
        if k > 0 {
            assert(valid_segment(s.take(k)));
        }
    }
}

/// The dotted text of a canonical path splits back into that path.
pub proof fn lemma_round_trip(segments: Seq<Seq<char>>)
    requires
        is_canonical(segments),
    ensures
        split_dotted(dotted(segments)) == segments,
    decreases segments.len(),
{
    let dot = seq!['.'];
    if segments.len() == 0 {
    } else if segments.len() == 1 {
        assert(valid_segment(segments[0]));
        lemma_split_plain(segments[0]);
        assert(seq![segments[0]] == segments);
    } else {
        let rest = segments.drop_first();
        assert(valid_segment(segments[0]));
        assert forall|i: int| 0 <= i < rest.len() implies valid_segment(#[trigger] rest[i]) by {
            assert(rest[i] == segments[i + 1]);
        }
        crate::text::lemma_join_front(segments, dot);
        lemma_round_trip(rest);
        lemma_split_at_dot(segments[0], dotted(rest));
        assert(seq![segments[0]] + rest == segments);
    }
}

/// A dotted module identifier, held as its segments.
#[derive(Debug, PartialEq, Eq)]
pub struct ModulePath {
    segments: Vec<String>,
}

impl View for ModulePath {
    type V = Seq<Seq<char>>;

    closed spec fn view(&self) -> Seq<Seq<char>> {
        views_of(self.segments@)
    }
}

impl Clone for ModulePath {
    fn clone(&self) -> (r: Self)
        ensures
            r@ == self@,
    {
        let segments = self.segments.clone();
        assert(views_of(segments@) == views_of(self.segments@));
        ModulePath { segments }
    }
}

impl Default for ModulePath {
    fn default() -> (r: Self)
        ensures
            r@.len() == 0,
    {
        ModulePath { segments: Vec::new() }
    }
}

impl ModulePath {
    /// The path with the given segments, taken as they are.
    pub fn new(segments: Vec<String>) -> (r: ModulePath)
        ensures
            r@ == views_of(segments@),
    {
        ModulePath { segments }
    }

    /// The segments, in order.
    pub fn segments(&self) -> (r: &[String])
        ensures
            views_of(r@) == self@,
    {
        self.segments.as_slice()
    }

    /// Whether the path has no segment.
    pub fn is_empty(&self) -> (r: bool)
        ensures
            r == (self@.len() == 0),
    {
        self.segments.len() == 0
    }

    /// The segments joined by dots.
    pub fn to_dotted(&self) -> (r: String)
        ensures
            r@ == dotted(self@),
    {
        proof {
            reveal_strlit(".");
            assert("."@ == seq!['.']);
        }
        join_texts(self.segments.as_slice(), ".")
    }

    /// Whether the path begins with the segments of `base`.
    pub fn starts_with(&self, base: &ModulePath) -> (r: bool)
        ensures
            r == base@.is_prefix_of(self@),
    {
        if base.segments.len() > self.segments.len() {
            return false;
        }
        let mut i: usize = 0;
        while i < base.segments.len()
            invariant
                i <= base.segments@.len() <= self.segments@.len(),
                forall|j: int| 0 <= j < i ==> self@[j] == base@[j],
            decreases base.segments@.len() - i,
        {
            if self.segments[i] != base.segments[i] {
                assert(self@[i as int] != base@[i as int]);
                return false;
            }
            i = i + 1;
        }
        assert(self@.take(base@.len() as int) == base@);
        true
    }

    /// What is left of the path behind `base`, when it begins with `base`.
    pub fn relative_from(&self, base: &ModulePath) -> (r: Option<ModulePath>)
        ensures
            match r {
                Some(rest) => base@.is_prefix_of(self@) && rest@ == self@.skip(base@.len() as int),
                None => !base@.is_prefix_of(self@),
            },
            is_canonical(self@) ==> (r matches Some(rest) ==> is_canonical(rest@)),
    {
        if !self.starts_with(base) {
            return None;
        }
        let mut rest: Vec<String> = Vec::new();
        let mut i: usize = base.segments.len();
        while i < self.segments.len()
            invariant
                base.segments@.len() <= i <= self.segments@.len(),
                views_of(rest@) == self@.subrange(base@.len() as int, i as int),
            decreases self.segments@.len() - i,
        {
            let ghost before = views_of(rest@);
            rest.push(self.segments[i].clone());
            assert(views_of(rest@) == before.push(self@[i as int]));
            i = i + 1;
        }
        assert(self@.subrange(base@.len() as int, i as int) == self@.skip(base@.len() as int));
        Some(ModulePath { segments: rest })
    }

    /// The directory that the path names.
    pub fn to_dir_pathbuf(&self) -> (r: String)
        ensures
            r@ == dir_path(self@),
    {
        let mut out = String::new();
        let mut i: usize = 0;
        while i < self.segments.len()
            invariant
                i <= self.segments@.len(),
                out@ == dir_path(self@.take(i as int)),
            decreases self.segments@.len() - i,
        {
            push_component(&mut out, self.segments[i].as_str());
            proof {
                assert(self@.take(i + 1).drop_last() == self@.take(i as int));
                assert(self@.take(i + 1).last() == self@[i as int]);
            }
            i = i + 1;
        }
        assert(self@.take(i as int) == self@);
        out
    }

    /// The path with `segment` added as its last segment.
    pub fn append(&self, segment: String) -> (r: ModulePath)
        ensures
            r@ == self@.push(segment@),
            is_canonical(self@) && valid_segment(segment@) ==> is_canonical(r@),
    {
        let mut segments = self.segments.clone();
        segments.push(segment);
        assert(views_of(segments@) == self@.push(segment@));
        ModulePath { segments }
    }

    /// The last segment and the path before it; `None` for the empty path.
    pub fn split_last(&self) -> (r: Option<(String, ModulePath)>)
        ensures
            match r {
                Some((leaf, parent)) => self@.len() > 0 && leaf@ == self@.last() && parent@
                    == self@.drop_last(),
                None => self@.len() == 0,
            },
            is_canonical(self@) ==> (r matches Some((leaf, parent)) ==> valid_segment(leaf@)
                && is_canonical(parent@)),
    {
        if self.segments.len() == 0 {
            return None;
        }
        let mut parent = self.segments.clone();
        match parent.pop() {
            Some(leaf) => {
                assert(views_of(parent@) == self@.drop_last());
                Some((leaf, ModulePath { segments: parent }))
            },
            None => None,
        }
    }

    /// The source file of the module.
    pub fn file_path(&self) -> (r: String)
        ensures
            r@ == module_file(self@),
    {
        match self.split_last() {
            Some((leaf, parent)) => {
                let mut out = parent.to_dir_pathbuf();
                let mut name = leaf;
                proof {
                    reveal_strlit(".py");
                    assert(".py"@ == source_suffix());
                }
                name.append(".py");
                push_component(&mut out, name.as_str());
                out
            },
            None => String::new(),
        }
    }

    /// The path that the dotted text names. Empty pieces are dropped, so
    /// leading, trailing and doubled dots leave no trace.
    pub fn from_dotted(dotted: &str) -> (r: ModulePath)
        ensures
            r@ == split_dotted(dotted@),
            is_canonical(r@),
    {
        let mut done: Vec<String> = Vec::new();
        let mut cur = String::new();
        proof {
            assert(dotted@.skip(0) == dotted@);
            assert(cur@ + dotted@ == dotted@);
            assert(views_of(done@) + split_dotted(dotted@) == split_dotted(dotted@));
        }
        for c in it: dotted.chars()
            invariant
                it.seq() == dotted@,
                forall|i: int| 0 <= i < cur@.len() ==> cur@[i] != '.',
                split_dotted(dotted@) == views_of(done@) + split_dotted(
                    cur@ + dotted@.skip(it.index()),
                ),
        {
            let ghost rest = dotted@.skip(it.index() + 1);
            proof {
                assert(dotted@.skip(it.index()) == seq![c] + rest);
            }
            if c == '.' {
                proof {
                    assert(cur@ + dotted@.skip(it.index()) == cur@ + seq!['.'] + rest);
                    lemma_split_at_dot(cur@, rest);
                }
                if cur.unicode_len() > 0 {
                    let ghost before = views_of(done@);
                    done.push(cur);
                    assert(views_of(done@) == before + seq![cur@]);
                }
                cur = String::new();
                assert(cur@ + rest == rest);
            } else {
                let ghost before = cur@;
                cur.push(c);
                assert(before + dotted@.skip(it.index()) == cur@ + rest);
            }
        }
        proof {
            assert(dotted@.skip(dotted@.len() as int) == Seq::<char>::empty());
            assert(cur@ + Seq::<char>::empty() == cur@);
            lemma_split_plain(cur@);
            lemma_split_canonical(dotted@);
        }
        if cur.unicode_len() > 0 {
            let ghost before = views_of(done@);
            done.push(cur);
            assert(views_of(done@) == before + seq![cur@]);
        }
        ModulePath { segments: done }
    }

    /// The module that the import specifier `import` names when it stands in
    /// module `current`.
    pub fn from_import(current: &ModulePath, import: &str) -> (r: ModulePath)
        ensures
            r@ == resolve_relative(current@, import@),
            is_canonical(current@) ==> is_canonical(r@),
    {
        let dots = count_leading_dots(import);
        if dots == 0 {
            return ModulePath::from_dotted(import);
        }
        let kept = if dots < current.segments.len() {
            current.segments.len() - dots
        } else {
            0
        };
        let mut segments: Vec<String> = Vec::new();
        let mut i: usize = 0;
        while i < kept
            invariant
                i <= kept <= current.segments@.len(),
                views_of(segments@) == current@.take(i as int),
            decreases kept - i,
        {
            let ghost before = views_of(segments@);
            segments.push(current.segments[i].clone());
            assert(views_of(segments@) == before.push(current@[i as int]));
            i = i + 1;
        }
        let remainder = text_after(import, dots);
        let tail = ModulePath::from_dotted(remainder.as_str());
        let mut tail_segments = tail.segments;
        let ghost head = views_of(segments@);
        segments.append(&mut tail_segments);
        assert(views_of(segments@) == head + tail@);
        ModulePath { segments }
    }
}

/// Counts the dots with which `s` begins.
pub fn count_leading_dots(s: &str) -> (r: usize)
    ensures
        r == leading_dots(s@),
        r <= s@.len(),
{
    let mut rest = s.chars();
    let mut count: usize = 0;
    let total = s.unicode_len();
    loop
        invariant
            count <= s@.len(),
            total == s@.len(),
            rest.remaining() == s@.skip(count as int),
            leading_dots(s@) == count + leading_dots(s@.skip(count as int)),
        decreases s@.len() - count,
    {
        match rest.next() {
            None => {
                return count;
            },
            Some(c) => {
                if c != '.' {
                    return count;
                }
                proof {
                    assert(s@.skip(count as int).drop_first() == s@.skip(count + 1));
                }
                count = count + 1;
            },
        }
    }
}

} // verus!
