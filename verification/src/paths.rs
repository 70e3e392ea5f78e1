//! Paths as sequences of components, and the parent-directory relation
//! between two paths.
//!
//! A path is read as bytes. It is cut into pieces at every `/`; the first
//! piece tells whether the path starts at the root, and of the later pieces
//! the empty ones and the single dots say nothing. Two paths are the same
//! path when they have the same components, so `usr/bin`, `usr//bin` and
//! `usr/bin/` all name one directory.

use vstd::prelude::*;

verus! {

/// The byte that separates the pieces of a path.
pub const SEPARATOR: u8 = 47;

/// The byte of which the piece for the current directory consists.
pub const DOT: u8 = 46;

/// The component that stands for the root directory.
pub open spec fn root() -> Seq<u8> {
    seq![SEPARATOR]
}

/// The pieces between the separators of `path`, empty ones included. A path
/// with k separators has k + 1 pieces.
pub open spec fn pieces(path: Seq<u8>) -> Seq<Seq<u8>>
    decreases path.len(),
{
    if path.len() == 0 {
        seq![Seq::<u8>::empty()]
    } else {
        let before = pieces(path.drop_last());
        if path.last() == SEPARATOR {
            before.push(Seq::<u8>::empty())
        } else {
            before.drop_last().push(before.last().push(path.last()))
        }
    }
}

/// Whether a piece after the first one is a component: it is neither empty
/// nor a single dot.
pub open spec fn is_name(piece: Seq<u8>) -> bool {
    piece.len() > 0 && piece != seq![DOT]
}

/// The components that the pieces stand for. An empty first piece is the
/// root where `rooted` says that a separator follows it, and nothing
/// otherwise; any other first piece is a component, a single dot too.
pub open spec fn components_of(pieces: Seq<Seq<u8>>, rooted: bool) -> Seq<Seq<u8>>
    decreases pieces.len(),
{
    if pieces.len() == 0 {
        Seq::<Seq<u8>>::empty()
    } else if pieces.len() == 1 {
        if pieces[0].len() > 0 {
            seq![pieces[0]]
        } else if rooted {
            seq![root()]
        } else {
            Seq::<Seq<u8>>::empty()
        }
    } else if is_name(pieces.last()) {
        components_of(pieces.drop_last(), rooted).push(pieces.last())
    } else {
        components_of(pieces.drop_last(), rooted)
    }
}

/// The components of a path: the root where the path starts with a
/// separator, then every piece that is a name. Repeated separators, a
/// trailing separator and single dots after the start do not count.
pub open spec fn components(path: Seq<u8>) -> Seq<Seq<u8>> {
    components_of(pieces(path), path.len() > 0)
}

/// Whether `dir` is exactly the parent directory of `path`: `path` has a
/// last component that is not the root, and without it the components of
/// `dir` remain.
pub open spec fn is_parent_of(dir: Seq<u8>, path: Seq<u8>) -> bool {
    let c = components(path);
    c.len() > 0 && c.last() != root() && components(dir) == c.drop_last()
}

/// Whether two paths have the same components.
pub open spec fn same_path(a: Seq<u8>, b: Seq<u8>) -> bool {
    components(a) == components(b)
}

/// A path has at least one piece, and the last piece holds no separator.
pub proof fn lemma_pieces(path: Seq<u8>)
    ensures
        pieces(path).len() >= 1,
        pieces(path).last().len() <= path.len(),
        pieces(path).last() == path.subrange(
            path.len() - pieces(path).last().len(),
            path.len() as int,
        ),
        pieces(path).len() == 1 ==> pieces(path).last() == path,
    decreases path.len(),
{
    if path.len() > 0 {
        let front = path.drop_last();
        lemma_pieces(front);
        let before = pieces(front);
        if path.last() == SEPARATOR {
            assert(pieces(path).last() =~= path.subrange(path.len() as int, path.len() as int));
        } else {
            let cur = before.last();
            assert(cur.push(path.last()) =~= path.subrange(
                path.len() - cur.len() - 1,
                path.len() as int,
            ));
            if before.len() == 1 {
                assert(cur.push(path.last()) =~= path);
            }
        }
    } else {
        assert(pieces(path).last() =~= path.subrange(0, 0));
    }
}

/// The byte ranges of a path's components, cut out of the path.
pub open spec fn cut(path: Seq<u8>, ranges: Seq<(usize, usize)>) -> Seq<Seq<u8>> {
    Seq::new(ranges.len(), |k: int| path.subrange(ranges[k].0 as int, ranges[k].1 as int))
}

/// Whether every range lies within a path of `len` bytes.
pub open spec fn ranges_within(ranges: Seq<(usize, usize)>, len: int) -> bool {
    forall|k: int| 0 <= k < ranges.len() ==> (#[trigger] ranges[k]).0 <= ranges[k].1 <= len
}

/// Whether the bytes `path[start..end]` are a single dot.
fn is_dot(path: &[u8], start: usize, end: usize) -> (r: bool)
    requires
        start <= end <= path.len(),
    ensures
        r == (path@.subrange(start as int, end as int) == seq![DOT]),
{
    let ghost piece = path@.subrange(start as int, end as int);
    if end - start == 1 {
        let r = path[start] == DOT;
        assert(piece[0] == path@[start as int]);
        assert(r ==> piece =~= seq![DOT]);
        assert(!r ==> seq![DOT][0] != piece[0]);
        r
    } else {
        assert(seq![DOT].len() == 1);
        false
    }
}

/// Finds the components of `path` as byte ranges into it.
pub fn component_ranges(path: &[u8]) -> (ranges: Vec<(usize, usize)>)
    ensures
        ranges_within(ranges@, path@.len() as int),
        cut(path@, ranges@) == components(path@),
{
    let mut ranges: Vec<(usize, usize)> = Vec::new();
    let mut start: usize = 0;
    let mut first: bool = true;
    let mut i: usize = 0;
    proof {
        assert(path@.take(0) =~= Seq::<u8>::empty());
        assert(pieces(path@.take(0)).drop_last() =~= Seq::<Seq<u8>>::empty());
        assert(cut(path@, ranges@) =~= Seq::<Seq<u8>>::empty());
    }
    while i < path.len()
        invariant
            start <= i <= path.len(),
            ranges_within(ranges@, path@.len() as int),
            first == (pieces(path@.take(i as int)).len() == 1),
            pieces(path@.take(i as int)).len() >= 1,
            pieces(path@.take(i as int)).last() == path@.subrange(start as int, i as int),
            cut(path@, ranges@) == components_of(pieces(path@.take(i as int)).drop_last(), true),
        decreases path.len() - i,
    {
        let ghost before = pieces(path@.take(i as int));
        let ghost piece = path@.subrange(start as int, i as int);
        proof {
            assert(path@.take(i + 1).drop_last() =~= path@.take(i as int));
            assert(path@.take(i + 1).last() == path@[i as int]);
            lemma_pieces(path@.take(i + 1));
        }
        if path[i] == SEPARATOR {
            let ghost so_far = cut(path@, ranges@);
            proof {
                assert(pieces(path@.take(i + 1)) == before.push(Seq::<u8>::empty()));
                assert(before.push(Seq::<u8>::empty()).drop_last() =~= before);
                assert(path@.subrange(i + 1, i + 1) =~= Seq::<u8>::empty());
            }
            if first {
                if start < i {
                    ranges.push((start, i));
                    assert(cut(path@, ranges@) =~= seq![piece]);
                } else {
                    ranges.push((i, i + 1));
                    assert(path@.subrange(i as int, i + 1) =~= root());
                    assert(cut(path@, ranges@) =~= seq![root()]);
                }
            } else if start < i && !is_dot(path, start, i) {
                ranges.push((start, i));
                assert(cut(path@, ranges@) =~= so_far.push(piece));
            }
            first = false;
            start = i + 1;
        } else {
            proof {
                assert(piece.push(path@[i as int]) =~= path@.subrange(start as int, i + 1));
                assert(before.drop_last().push(before.last().push(path@[i as int])).drop_last()
                    =~= before.drop_last());
            }
        }
        i += 1;
    }
    let ghost all = pieces(path@);
    let ghost piece = path@.subrange(start as int, i as int);
    let ghost so_far = cut(path@, ranges@);
    proof {
        assert(path@.take(i as int) =~= path@);
        lemma_pieces(path@);
        assert(all.last() == piece);
        assert(all.len() > 1 ==> path@.len() > 0);
    }
    if first {
        assert(all[0] == piece);
        if start < i {
            ranges.push((start, i));
            assert(cut(path@, ranges@) =~= seq![piece]);
        } else {
            assert(piece.len() == 0);
            assert(path@.len() == 0);
        }
    } else if start < i && !is_dot(path, start, i) {
        ranges.push((start, i));
        assert(cut(path@, ranges@) =~= so_far.push(piece));
    }
    ranges
}

} // verus!
