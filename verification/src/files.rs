//! A package's file list without the directories that the next entry
//! already implies.

use crate::paths::{
    component_ranges, components, cut, is_parent_of, ranges_within, root, same_path, SEPARATOR,
};
use crate::search::{indices_where, lemma_indices_where_step};
use crate::text::{contains_filter, lowered, occurs_in};
use vstd::prelude::*;
use vstd::string::StringSliceAdditionalSpecFns;
use vstd::utf8::encode_utf8;

verus! {

/// Whether the bytes of `a` in range `ra` equal the bytes of `b` in `rb`.
fn same_bytes(a: &[u8], ra: (usize, usize), b: &[u8], rb: (usize, usize)) -> (r: bool)
    requires
        ra.0 <= ra.1 <= a.len(),
        rb.0 <= rb.1 <= b.len(),
    ensures
        r == (a@.subrange(ra.0 as int, ra.1 as int) == b@.subrange(rb.0 as int, rb.1 as int)),
{
    let ghost x = a@.subrange(ra.0 as int, ra.1 as int);
    let ghost y = b@.subrange(rb.0 as int, rb.1 as int);
    let len = ra.1 - ra.0;
    if rb.1 - rb.0 != len {
        assert(x.len() != y.len());
        return false;
    }
    let mut i: usize = 0;
    while i < len
        invariant
            i <= len,
            len == ra.1 - ra.0,
            len == rb.1 - rb.0,
            ra.1 <= a.len(),
            rb.1 <= b.len(),
            x == a@.subrange(ra.0 as int, ra.1 as int),
            y == b@.subrange(rb.0 as int, rb.1 as int),
            forall|k: int| 0 <= k < i ==> x[k] == y[k],
        decreases len - i,
    {
        if a[ra.0 + i] != b[rb.0 + i] {
            assert(x[i as int] != y[i as int]);
            return false;
        }
        i += 1;
    }
    assert(x =~= y);
    true
}

/// Whether `dir` is exactly the parent directory of `path`, both given as
/// bytes. Paths are compared by their components, not as text: `usr/` is the
/// parent of `usr/bin/`, and `usr/bin` is not the parent of `usr/bin2/x`.
pub fn is_parent_dir(dir: &[u8], path: &[u8]) -> (r: bool)
    ensures
        r == is_parent_of(dir@, path@),
{
    let of_path = component_ranges(path);
    let of_dir = component_ranges(dir);
    let ghost cp = components(path@);
    let ghost cd = components(dir@);
    let n = of_path.len();
    if n == 0 {
        return false;
    }
    let last = of_path[n - 1];
    assert(cp[n - 1] == path@.subrange(last.0 as int, last.1 as int));
    if last.1 - last.0 == 1 && path[last.0] == SEPARATOR {
        assert(cp.last() =~= root());
        return false;
    }
    assert(cp.last() != root()) by {
        if cp.last() == root() {
            assert(root().len() == 1);
            assert(cp.last()[0] == path@[last.0 as int]);
            assert(root()[0] == SEPARATOR);
        }
    }
    if of_dir.len() != n - 1 {
        assert(cd.len() != cp.drop_last().len());
        return false;
    }
    let mut k: usize = 0;
    while k < n - 1
        invariant
            k <= n - 1,
            n == of_path.len(),
            of_dir.len() == n - 1,
            ranges_within(of_path@, path@.len() as int),
            ranges_within(of_dir@, dir@.len() as int),
            cp == cut(path@, of_path@),
            cd == cut(dir@, of_dir@),
            cp == components(path@),
            cd == components(dir@),
            cp.last() != root(),
            forall|j: int| 0 <= j < k ==> cd[j] == cp[j],
        decreases n - 1 - k,
    {
        assert(cd[k as int] == dir@.subrange(of_dir[k as int].0 as int, of_dir[k as int].1 as int));
        assert(cp[k as int] == path@.subrange(
            of_path[k as int].0 as int,
            of_path[k as int].1 as int,
        ));
        if !same_bytes(dir, of_dir[k], path, of_path[k]) {
            assert(cd[k as int] != cp.drop_last()[k as int]);
            return false;
        }
        k += 1;
    }
    assert(cd =~= cp.drop_last());
    true
}

/// Whether `needle` is exactly the parent directory of `haystack`.
pub fn path_contains_other_path(haystack: &str, needle: &str) -> (r: bool)
    ensures
        r == is_parent_of(needle.spec_bytes(), haystack.spec_bytes()),
{
    is_parent_dir(needle.as_bytes(), haystack.as_bytes())
}

/// The entries of a file list as bytes.
pub open spec fn path_bytes(list: Seq<String>) -> Seq<Seq<u8>> {
    Seq::new(list.len(), |i: int| encode_utf8(list[i]@))
}

/// Whether entry `i` stays: it is the last entry, or it is not the parent
/// directory of the entry that follows it.
pub open spec fn is_kept(paths: Seq<Seq<u8>>, i: int) -> bool {
    i == paths.len() - 1 || !is_parent_of(paths[i], paths[i + 1])
}

/// The indices below `n` of the entries that stay, in ascending order.
pub open spec fn kept_before(paths: Seq<Seq<u8>>, n: int) -> Seq<int>
    decreases n,
{
    if n <= 0 {
        Seq::<int>::empty()
    } else if is_kept(paths, n - 1) {
        kept_before(paths, n - 1).push(n - 1)
    } else {
        kept_before(paths, n - 1)
    }
}

/// The indices of the entries that stay, in ascending order.
pub open spec fn kept(paths: Seq<Seq<u8>>) -> Seq<int> {
    kept_before(paths, paths.len() as int)
}

/// The file list without every entry that is the parent directory of the
/// entry right after it.
pub open spec fn deduped(paths: Seq<Seq<u8>>) -> Seq<Seq<u8>> {
    Seq::new(kept(paths).len(), |j: int| paths[kept(paths)[j]])
}

/// Filters out the entries of a package's file list that are the parent
/// directory of the next entry (`usr/bin` goes where `usr/bin/cat` follows).
/// The entries that stay are handed out in their order; the list itself is
/// not changed.
pub fn deduped_files(list: &[String]) -> (files: Vec<&String>)
    ensures
        files.len() == kept(path_bytes(list@)).len(),
        forall|j: int|
            0 <= j < files.len() ==> *(#[trigger] files[j]) == list[kept(path_bytes(list@))[j]],
{
    let ghost paths = path_bytes(list@);
    let mut files: Vec<&String> = Vec::new();
    let mut i: usize = 0;
    while i < list.len()
        invariant
            i <= list.len(),
            paths == path_bytes(list@),
            files.len() == kept_before(paths, i as int).len(),
            forall|j: int|
                0 <= j < files.len() ==> *(#[trigger] files[j]) == list[kept_before(
                    paths,
                    i as int,
                )[j]] && 0 <= kept_before(paths, i as int)[j] < i,
        decreases list.len() - i,
    {
        let keep = i + 1 == list.len() || !path_contains_other_path(
            list[i + 1].as_str(),
            list[i].as_str(),
        );
        assert(keep == is_kept(paths, i as int));
        if keep {
            files.push(&list[i]);
        }
        i += 1;
    }
    files
}

/// Whether no two entries of the list name the same path.
pub open spec fn distinct_paths(paths: Seq<Seq<u8>>) -> bool {
    forall|a: int, b: int|
        0 <= a < b < paths.len() ==> !same_path(#[trigger] paths[a], #[trigger] paths[b])
}

/// `kept_before` lists exactly the entries below `n` that stay, each once
/// and in ascending order.
pub proof fn lemma_kept_before(paths: Seq<Seq<u8>>, n: int)
    requires
        0 <= n <= paths.len(),
    ensures
        forall|j: int|
            0 <= j < kept_before(paths, n).len() ==> 0 <= #[trigger] kept_before(paths, n)[j] < n
                && is_kept(paths, kept_before(paths, n)[j]),
        forall|j1: int, j2: int|
            0 <= j1 < j2 < kept_before(paths, n).len() ==> #[trigger] kept_before(paths, n)[j1]
                < #[trigger] kept_before(paths, n)[j2],
        forall|i: int|
            0 <= i < n && is_kept(paths, i) ==> exists|j: int|
                0 <= j < kept_before(paths, n).len() && #[trigger] kept_before(paths, n)[j] == i,
    decreases n,
{
    if n > 0 {
        lemma_kept_before(paths, n - 1);
        let before = kept_before(paths, n - 1);
        let now = kept_before(paths, n);
        assert forall|i: int| 0 <= i < n && is_kept(paths, i) implies exists|j: int|
            0 <= j < now.len() && #[trigger] now[j] == i by {
            if i < n - 1 {
                let j = choose|j: int| 0 <= j < before.len() && #[trigger] before[j] == i;
                assert(now[j] == i);
            } else {
                assert(now[now.len() - 1] == i);
            }
        }
    }
}

/// The entries that stay keep their relative order: each comes from a
/// position of the list, and the positions ascend.
pub proof fn law_deduped_keeps_order(paths: Seq<Seq<u8>>)
    ensures
        deduped(paths).len() == kept(paths).len(),
        forall|j: int|
            0 <= j < kept(paths).len() ==> 0 <= #[trigger] kept(paths)[j] < paths.len()
                && deduped(paths)[j] == paths[kept(paths)[j]],
        forall|j1: int, j2: int|
            0 <= j1 < j2 < kept(paths).len() ==> #[trigger] kept(paths)[j1] < #[trigger] kept(
                paths,
            )[j2],
{
    lemma_kept_before(paths, paths.len() as int);
}

/// The last entry of a list always stays, and stays last.
pub proof fn law_last_entry_stays(paths: Seq<Seq<u8>>)
    requires
        paths.len() > 0,
    ensures
        deduped(paths).len() > 0,
        deduped(paths).last() == paths.last(),
{
}

/// An empty list stays empty, and a list of one entry keeps it.
pub proof fn law_deduped_small(path: Seq<u8>)
    ensures
        deduped(Seq::<Seq<u8>>::empty()) == Seq::<Seq<u8>>::empty(),
        deduped(seq![path]) == seq![path],
{
    let one = seq![path];
    assert(kept_before(one, 0) =~= Seq::<int>::empty());
    assert(kept(one) =~= seq![0int]);
    assert(deduped(one) =~= one);
    assert(deduped(Seq::<Seq<u8>>::empty()) =~= Seq::<Seq<u8>>::empty());
}

/// In a list whose entries name different paths, no entry that stays is the
/// parent directory of the entry that stays next.
pub proof fn law_deduped_has_no_parent_before_child(paths: Seq<Seq<u8>>)
    requires
        distinct_paths(paths),
    ensures
        forall|j: int|
            0 <= j < deduped(paths).len() - 1 ==> !is_parent_of(
                #[trigger] deduped(paths)[j],
                deduped(paths)[j + 1],
            ),
{
    let k = kept(paths);
    lemma_kept_before(paths, paths.len() as int);
    assert forall|j: int| 0 <= j < deduped(paths).len() - 1 implies !is_parent_of(
        #[trigger] deduped(paths)[j],
        deduped(paths)[j + 1],
    ) by {
        let a = k[j];
        let b = k[j + 1];
        assert(a < b);
        if b > a + 1 {
            // The entry right before `b` went, so it is the parent of `b`;
            // were `a` the parent of `b` too, both would name one path.
            if is_kept(paths, b - 1) {
                let m = choose|m: int| 0 <= m < k.len() && #[trigger] k[m] == b - 1;
                assert(k[j] < k[m]);
                assert(k[m] < k[j + 1]);
                assert(j < m < j + 1) by {
                    if m <= j {
                        assert(m == j || k[m] < k[j]);
                    }
                    if m >= j + 1 {
                        assert(m == j + 1 || k[j + 1] < k[m]);
                    }
                }
            }
            assert(is_parent_of(paths[b - 1], paths[b]));
            if is_parent_of(paths[a], paths[b]) {
                assert(same_path(paths[a], paths[b - 1]));
            }
        }
    }
}

/// Whether a file name passes the filter of a file list: the name, with
/// ASCII letters in lower case, holds the filter in lower case.
pub open spec fn passes(name: Seq<u8>, filter: Seq<u8>) -> bool {
    occurs_in(lowered(filter), lowered(name))
}

/// Whether the file called `name` is shown under `filter`. An empty filter
/// shows every file.
pub fn file_matches(name: &str, filter: &str) -> (r: bool)
    ensures
        r == passes(name.spec_bytes(), filter.spec_bytes()),
{
    contains_filter(name.as_bytes(), filter.as_bytes(), true)
}

/// The predicate "passes the filter".
pub open spec fn passing(filter: Seq<u8>) -> spec_fn(Seq<u8>) -> bool {
    |name: Seq<u8>| passes(name, filter)
}

/// The positions, within the list without implied directories, of the
/// entries that pass the filter.
pub open spec fn shown_positions(paths: Seq<Seq<u8>>, filter: Seq<u8>) -> Seq<int> {
    indices_where(deduped(paths), passing(filter))
}

/// The file list as a detail view shows it: without the directories that
/// the next entry implies, and of the rest only the entries whose name
/// passes the filter, in their order.
pub fn shown_files<'a>(list: &'a [String], filter: &str) -> (shown: Vec<&'a String>)
    ensures
        shown.len() == shown_positions(path_bytes(list@), filter.spec_bytes()).len(),
        forall|j: int|
            0 <= j < shown.len() ==> *(#[trigger] shown[j]) == list[kept(
                path_bytes(list@),
            )[shown_positions(path_bytes(list@), filter.spec_bytes())[j]]],
{
    let files = deduped_files(list);
    let ghost paths = path_bytes(list@);
    let ghost names = deduped(paths);
    let ghost wanted = passing(filter.spec_bytes());
    let mut shown: Vec<&String> = Vec::new();
    let mut i: usize = 0;
    proof {
        law_deduped_keeps_order(paths);
        assert(names.take(0) =~= Seq::<Seq<u8>>::empty());
    }
    while i < files.len()
        invariant
            i <= files.len(),
            paths == path_bytes(list@),
            names == deduped(paths),
            wanted == passing(filter.spec_bytes()),
            files.len() == kept(paths).len(),
            names.len() == kept(paths).len(),
            forall|j: int|
                0 <= j < files.len() ==> *(#[trigger] files[j]) == list[kept(paths)[j]] && 0
                    <= kept(paths)[j] < list.len(),
            shown.len() == indices_where(names.take(i as int), wanted).len(),
            forall|j: int|
                0 <= j < shown.len() ==> *(#[trigger] shown[j]) == list[kept(paths)[indices_where(
                    names.take(i as int),
                    wanted,
                )[j]]],
        decreases files.len() - i,
    {
        proof {
            lemma_indices_where_step(names, wanted, i as int);
            assert(names[i as int] == encode_utf8(files[i as int]@));
        }
        if file_matches(files[i].as_str(), filter) {
            shown.push(files[i]);
        }
        i += 1;
    }
    assert(names.take(i as int) =~= names);
    shown
}

} // verus!
