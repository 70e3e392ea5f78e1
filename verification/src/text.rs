//! Searching text for a filter string, with ASCII letters folded to lower
//! case. Text is read as bytes; bytes outside `A`..`Z` stay as they are.

use vstd::prelude::*;
use vstd::string::StringExecFns;

verus! {

/// The lower-case form of an ASCII capital; any other byte unchanged.
pub open spec fn lower(b: u8) -> u8 {
    if 65 <= b <= 90 {
        (b + 32) as u8
    } else {
        b
    }
}

/// The text with every byte folded to lower case.
pub open spec fn lowered(text: Seq<u8>) -> Seq<u8> {
    Seq::new(text.len(), |i: int| lower(text[i]))
}

/// Whether `needle` stands in `hay` at offset `at`.
pub open spec fn occurs_at(needle: Seq<u8>, hay: Seq<u8>, at: int) -> bool {
    &&& 0 <= at
    &&& at + needle.len() <= hay.len()
    &&& forall|j: int| 0 <= j < needle.len() ==> hay[at + j] == #[trigger] needle[j]
}

/// Whether `needle` is a contiguous part of `hay`. The empty text is part of
/// every text.
pub open spec fn occurs_in(needle: Seq<u8>, hay: Seq<u8>) -> bool {
    exists|at: int| occurs_at(needle, hay, at)
}

/// What a text is searched as: folded to lower case, or as it is.
pub open spec fn searched(hay: Seq<u8>, fold: bool) -> Seq<u8> {
    if fold {
        lowered(hay)
    } else {
        hay
    }
}

/// Folds one byte to lower case.
pub fn to_lower(b: u8) -> (r: u8)
    ensures
        r == lower(b),
{
    if 65 <= b && b <= 90 {
        b + 32
    } else {
        b
    }
}

/// Whether the filter, folded to lower case, is a part of `hay`; `hay` is
/// folded first where `fold_hay` is set and searched as it is otherwise.
pub fn contains_filter(hay: &[u8], filter: &[u8], fold_hay: bool) -> (r: bool)
    ensures
        r == occurs_in(lowered(filter@), searched(hay@, fold_hay)),
{
    let ghost needle = lowered(filter@);
    let ghost text = searched(hay@, fold_hay);
    let n = filter.len();
    let h = hay.len();
    if n > h {
        return false;
    }
    let mut at: usize = 0;
    while at <= h - n
        invariant
            n == filter@.len(),
            h == hay@.len(),
            n <= h,
            at <= h - n + 1,
            needle == lowered(filter@),
            text == searched(hay@, fold_hay),
            forall|k: int| 0 <= k < at ==> !occurs_at(needle, text, k),
        decreases h - n + 1 - at,
    {
        let mut j: usize = 0;
        let mut same: bool = true;
        while same && j < n
            invariant
                n == filter@.len(),
                h == hay@.len(),
                at + n <= h,
                j <= n,
                needle == lowered(filter@),
                text == searched(hay@, fold_hay),
                same ==> forall|m: int| 0 <= m < j ==> text[at + m] == #[trigger] needle[m],
                !same ==> !occurs_at(needle, text, at as int),
            decreases n - j + if same { 1int } else { 0int },
        {
            let c = if fold_hay {
                to_lower(hay[at + j])
            } else {
                hay[at + j]
            };
            if c == to_lower(filter[j]) {
                j += 1;
            } else {
                assert(text[at + j] != needle[j as int]);
                same = false;
            }
        }
        if same {
            assert(occurs_at(needle, text, at as int));
            return true;
        }
        at += 1;
    }
    assert forall|k: int| !occurs_at(needle, text, k) by {
        if 0 <= k && k + n <= h {
            assert(k < at);
        }
    }
    false
}

/// The ten digits in order.
pub open spec fn digits() -> Seq<char> {
    seq!['0', '1', '2', '3', '4', '5', '6', '7', '8', '9']
}

/// The number in decimal notation, without leading zeros.
pub open spec fn decimal(n: nat) -> Seq<char>
    decreases n,
{
    if n < 10 {
        seq![digits()[n as int]]
    } else {
        decimal(n / 10).push(digits()[(n % 10) as int])
    }
}

/// The text of one digit.
fn digit_text(d: usize) -> (text: &'static str)
    requires
        d < 10,
    ensures
        text@ == seq![digits()[d as int]],
{
    proof {
        reveal_strlit("0");
        reveal_strlit("1");
        reveal_strlit("2");
        reveal_strlit("3");
        reveal_strlit("4");
        reveal_strlit("5");
        reveal_strlit("6");
        reveal_strlit("7");
        reveal_strlit("8");
        reveal_strlit("9");
    }
    let text = if d == 0 {
        "0"
    } else if d == 1 {
        "1"
    } else if d == 2 {
        "2"
    } else if d == 3 {
        "3"
    } else if d == 4 {
        "4"
    } else if d == 5 {
        "5"
    } else if d == 6 {
        "6"
    } else if d == 7 {
        "7"
    } else if d == 8 {
        "8"
    } else {
        "9"
    };
    assert(text@ =~= seq![digits()[d as int]]);
    text
}

/// Appends the decimal notation of `n` to `out`.
pub fn push_decimal(out: &mut String, n: usize)
    ensures
        final(out)@ == old(out)@ + decimal(n as nat),
    decreases n,
{
    if n >= 10 {
        push_decimal(out, n / 10);
    }
    out.append(digit_text(n % 10));
    assert(out@ =~= old(out)@ + decimal(n as nat));
}

} // verus!
