//! Byte strings: comparison, trimming, comma-separated lists, search.
use vstd::prelude::*;

use crate::boundary;

verus! {

/// The lower-case form of an ASCII letter; every other byte is its own.
pub open spec fn lower(b: u8) -> u8 {
    if 65 <= b <= 90 {
        (b + 32) as u8
    } else {
        b
    }
}

/// Equality that takes an ASCII letter and its other case for the same.
pub open spec fn same_ignoring_case(a: Seq<u8>, b: Seq<u8>) -> bool {
    &&& a.len() == b.len()
    &&& forall|i: int| 0 <= i < a.len() ==> lower(#[trigger] a[i]) == lower(b[i])
}

/// ASCII white space: tab, line feed, form feed, carriage return, space.
pub open spec fn is_space(b: u8) -> bool {
    b == 9 || b == 10 || b == 12 || b == 13 || b == 32
}

/// The bytes without the white space at both ends.
pub open spec fn trimmed(s: Seq<u8>) -> Seq<u8>
    decreases s.len(),
{
    if s.len() > 0 && is_space(s.first()) {
        trimmed(s.drop_first())
    } else if s.len() > 0 && is_space(s.last()) {
        trimmed(s.drop_last())
    } else {
        s
    }
}

/// The number of bytes before the first `b`, or all of them if there is none.
pub open spec fn span_to(s: Seq<u8>, b: u8) -> int
    decreases s.len(),
{
    if s.len() == 0 || s.first() == b {
        0
    } else {
        1 + span_to(s.drop_first(), b)
    }
}

/// What stands before the first `b`.
pub open spec fn before(s: Seq<u8>, b: u8) -> Seq<u8> {
    s.take(span_to(s, b))
}

/// Whether `word` is an item of the comma-separated list, white space and
/// letter case aside.
pub open spec fn lists(list: Seq<u8>, word: Seq<u8>) -> bool
    decreases list.len(),
    via lists_decreases
{
    let end = span_to(list, 44);
    ||| same_ignoring_case(trimmed(list.take(end)), word)
    ||| end < list.len() && lists(list.skip(end + 1), word)
}

#[via_fn]
proof fn lists_decreases(list: Seq<u8>, word: Seq<u8>) {
    lemma_span_to(list, 44);
}

/// Whether the needle stands in the haystack at index `i`.
pub open spec fn occurs_at(haystack: Seq<u8>, needle: Seq<u8>, i: int) -> bool {
    &&& 0 <= i
    &&& i + needle.len() <= haystack.len()
    &&& haystack.subrange(i, i + needle.len()) == needle
}

/// Whether index `i` is where the needle stands first.
pub open spec fn first_at(haystack: Seq<u8>, needle: Seq<u8>, i: int) -> bool {
    &&& occurs_at(haystack, needle, i)
    &&& forall|j: int| 0 <= j < i ==> !occurs_at(haystack, needle, j)
}

/// The index of the first occurrence.
pub open spec fn find(haystack: Seq<u8>, needle: Seq<u8>) -> Option<int> {
    if exists|i: int| first_at(haystack, needle, i) {
        Some(choose|i: int| first_at(haystack, needle, i))
    } else {
        None
    }
}

pub open spec fn starts_with(s: Seq<u8>, prefix: Seq<u8>) -> bool {
    prefix.len() <= s.len() && s.take(prefix.len() as int) == prefix
}

pub proof fn lemma_span_to(s: Seq<u8>, b: u8)
    ensures
        0 <= span_to(s, b) <= s.len(),
        forall|i: int| 0 <= i < span_to(s, b) ==> s[i] != b,
        span_to(s, b) < s.len() ==> s[span_to(s, b)] == b,
    decreases s.len(),
{
    if s.len() == 0 || s.first() == b {
    } else {
        lemma_span_to(s.drop_first(), b);
        assert forall|i: int| 0 <= i < span_to(s, b) implies s[i] != b by {
            if i > 0 {
                assert(s[i] == s.drop_first()[i - 1]);
            }
        }
    }
}

/// The span is the only index with those properties.
pub proof fn lemma_span_to_is(s: Seq<u8>, b: u8, n: int)
    requires
        0 <= n <= s.len(),
        forall|i: int| 0 <= i < n ==> s[i] != b,
        n < s.len() ==> s[n] == b,
    ensures
        span_to(s, b) == n,
{
    lemma_span_to(s, b);
}

/// An occurrence with none before it is the one that `find` gives.
pub proof fn lemma_find_is(haystack: Seq<u8>, needle: Seq<u8>, i: int)
    requires
        first_at(haystack, needle, i),
    ensures
        find(haystack, needle) == Some(i),
{
    let j = choose|j: int| first_at(haystack, needle, j);
    assert(first_at(haystack, needle, j));
    assert(i == j);
}

/// Bytes behind the first occurrence do not change where it is.
pub proof fn lemma_find_extends(haystack: Seq<u8>, more: Seq<u8>, needle: Seq<u8>)
    requires
        find(haystack, needle) is Some,
    ensures
        first_at(haystack, needle, find(haystack, needle).unwrap()),
        find(haystack + more, needle) == find(haystack, needle),
{
    let all = haystack + more;
    let at = find(haystack, needle).unwrap();
    let n = needle.len();
    assert(first_at(haystack, needle, at));
    assert(all.subrange(at, at + n) =~= haystack.subrange(at, at + n));
    assert forall|j: int| 0 <= j < at implies !occurs_at(all, needle, j) by {
        assert(!occurs_at(haystack, needle, j));
        assert(all.subrange(j, j + n) =~= haystack.subrange(j, j + n));
    }
    lemma_find_is(all, needle, at);
}

pub fn equal(a: &[u8], b: &[u8]) -> (res: bool)
    ensures
        res == (a@ == b@),
{
    if a.len() != b.len() {
        return false;
    }
    let mut i: usize = 0;
    while i < a.len()
        invariant
            a.len() == b.len(),
            i <= a.len(),
            forall|j: int| 0 <= j < i ==> a@[j] == b@[j],
        decreases a.len() - i,
    {
        if a[i] != b[i] {
            return false;
        }
        i += 1;
    }
    assert(a@ =~= b@);
    true
}

fn to_lower(b: u8) -> (res: u8)
    ensures
        res == lower(b),
{
    if 65 <= b && b <= 90 {
        b + 32
    } else {
        b
    }
}

pub fn equal_ignoring_case(a: &[u8], b: &[u8]) -> (res: bool)
    ensures
        res == same_ignoring_case(a@, b@),
{
    if a.len() != b.len() {
        return false;
    }
    let mut i: usize = 0;
    while i < a.len()
        invariant
            a.len() == b.len(),
            i <= a.len(),
            forall|j: int| 0 <= j < i ==> lower(#[trigger] a@[j]) == lower(b@[j]),
        decreases a.len() - i,
    {
        if to_lower(a[i]) != to_lower(b[i]) {
            return false;
        }
        i += 1;
    }
    true
}

fn space(b: u8) -> (res: bool)
    ensures
        res == is_space(b),
{
    b == 9 || b == 10 || b == 12 || b == 13 || b == 32
}

pub fn trim(s: &[u8]) -> (res: &[u8])
    ensures
        res@ == trimmed(s@),
{
    let mut lo: usize = 0;
    let mut hi: usize = s.len();
    assert(s@.subrange(0, s.len() as int) =~= s@);
    while lo < hi && space(s[lo])
        invariant
            lo <= hi == s.len(),
            trimmed(s@.subrange(lo as int, hi as int)) == trimmed(s@),
        decreases hi - lo,
    {
        assert(s@.subrange(lo as int, hi as int).drop_first() =~= s@.subrange(lo + 1, hi as int));
        lo += 1;
    }
    while lo < hi && space(s[hi - 1])
        invariant
            lo <= hi <= s.len(),
            lo < hi ==> !is_space(s@[lo as int]),
            trimmed(s@.subrange(lo as int, hi as int)) == trimmed(s@),
        decreases hi - lo,
    {
        assert(s@.subrange(lo as int, hi as int).drop_last() =~= s@.subrange(lo as int, hi - 1));
        hi -= 1;
    }
    &s[lo..hi]
}

/// The number of bytes before the first `b`.
pub fn index_of(s: &[u8], b: u8) -> (res: usize)
    ensures
        res == span_to(s@, b),
{
    let mut i: usize = 0;
    while i < s.len() && s[i] != b
        invariant
            i <= s.len(),
            forall|j: int| 0 <= j < i ==> s@[j] != b,
        decreases s.len() - i,
    {
        i += 1;
    }
    proof {
        lemma_span_to_is(s@, b, i as int);
    }
    i
}

pub fn list_has(list: &[u8], word: &[u8]) -> (res: bool)
    ensures
        res == lists(list@, word@),
{
    let mut start: usize = 0;
    assert(list@.skip(0) =~= list@);
    loop
        invariant
            start <= list.len(),
            lists(list@, word@) == lists(list@.skip(start as int), word@),
        decreases list.len() - start,
    {
        let rest = &list[start..list.len()];
        assert(rest@ =~= list@.skip(start as int));
        let end = index_of(rest, 44);
        proof {
            lemma_span_to(rest@, 44);
        }
        let item = &rest[0..end];
        assert(item@ =~= rest@.take(end as int));
        if equal_ignoring_case(trim(item), word) {
            return true;
        }
        if end >= rest.len() {
            return false;
        }
        assert(rest@.skip(end + 1) =~= list@.skip(start + end + 1));
        start = start + end + 1;
    }
}

pub fn has_prefix(s: &[u8], prefix: &[u8]) -> (res: bool)
    ensures
        res == starts_with(s@, prefix@),
{
    if s.len() < prefix.len() {
        return false;
    }
    let front = &s[0..prefix.len()];
    assert(front@ =~= s@.take(prefix@.len() as int));
    equal(front, prefix)
}

/// The index of the first occurrence of the needle.
pub fn find_bytes(haystack: &[u8], needle: &[u8]) -> (res: Option<usize>)
    ensures
        match res {
            Some(i) => find(haystack@, needle@) == Some(i as int) && i + needle@.len()
                <= haystack@.len() <= usize::MAX,
            None => find(haystack@, needle@) is None,
        },
{
    let found = boundary::first_match(haystack, needle);
    assert(haystack.len() <= usize::MAX);
    proof {
        match found {
            Some(i) => lemma_find_is(haystack@, needle@, i as int),
            None => {},
        }
    }
    found
}

/// A copy of the bytes.
pub fn copy(s: &[u8]) -> (res: Vec<u8>)
    ensures
        res@ == s@,
{
    let mut out: Vec<u8> = Vec::new();
    out.extend_from_slice(s);
    assert(out@ =~= s@);
    out
}

/// Two byte strings are the same but for case if they have the same length and
/// differ at most in ASCII letters that stand 32 apart.
pub proof fn law_case(a: Seq<u8>, b: Seq<u8>)
    ensures
        same_ignoring_case(a, b) <==> a.len() == b.len() && forall|i: int|
            0 <= i < a.len() ==> {
                ||| #[trigger] a[i] == b[i]
                ||| 65 <= a[i] <= 90 && b[i] == a[i] + 32
                ||| 65 <= b[i] <= 90 && a[i] == b[i] + 32
            },
{
    if a.len() == b.len() && forall|i: int|
        0 <= i < a.len() ==> {
            ||| #[trigger] a[i] == b[i]
            ||| 65 <= a[i] <= 90 && b[i] == a[i] + 32
            ||| 65 <= b[i] <= 90 && a[i] == b[i] + 32
        } {
        assert forall|i: int| 0 <= i < a.len() implies lower(#[trigger] a[i]) == lower(b[i]) by {}
    }
}

/// A tab, a line feed, a form feed, a carriage return or a space.
pub open spec fn is_blank(b: u8) -> bool {
    9 <= b <= 13 && b != 11 || b == 32
}

/// Whether a range leaves out white space at both ends, and all of it.
pub open spec fn leaves_out_space(s: Seq<u8>, i: int, j: int) -> bool {
    &&& 0 <= i <= j <= s.len()
    &&& forall|k: int| 0 <= k < i ==> is_blank(#[trigger] s[k])
    &&& forall|k: int| j <= k < s.len() ==> is_blank(#[trigger] s[k])
    &&& i < j ==> !is_blank(s[i]) && !is_blank(s[j - 1])
}

/// Trimming takes white space from both ends, all of it and nothing else.
pub proof fn law_trimmed(s: Seq<u8>)
    ensures
        exists|i: int, j: int| #[trigger] leaves_out_space(s, i, j) && trimmed(s) == s.subrange(i, j),
{
    let (i, j) = lemma_trim_range(s);
    assert(leaves_out_space(s, i, j));
}

proof fn lemma_trim_range(s: Seq<u8>) -> (r: (int, int))
    ensures
        leaves_out_space(s, r.0, r.1),
        trimmed(s) == s.subrange(r.0, r.1),
    decreases s.len(),
{
    let n = s.len() as int;
    if n > 0 && is_space(s.first()) {
        let t = s.drop_first();
        let (i, j) = lemma_trim_range(t);
        assert(t.subrange(i, j) =~= s.subrange(i + 1, j + 1));
        assert forall|k: int| 0 <= k < i + 1 implies is_blank(#[trigger] s[k]) by {
            if k > 0 {
                assert(is_blank(t[k - 1]));
            }
        }
        assert forall|k: int| j + 1 <= k < n implies is_blank(#[trigger] s[k]) by {
            assert(is_blank(t[k - 1]));
        }
        (i + 1, j + 1)
    } else if n > 0 && is_space(s.last()) {
        let t = s.drop_last();
        let (i, j) = lemma_trim_range(t);
        assert(t.subrange(i, j) =~= s.subrange(i, j));
        assert forall|k: int| 0 <= k < i implies is_blank(#[trigger] s[k]) by {
            assert(is_blank(t[k]));
        }
        assert forall|k: int| j <= k < n implies is_blank(#[trigger] s[k]) by {
            if k < n - 1 {
                assert(is_blank(t[k]));
            }
        }
        (i, j)
    } else {
        assert(s.subrange(0, n) =~= s);
        (0, n)
    }
}

/// What stands before a byte does not hold it and is followed by it, or is all.
pub proof fn law_before(s: Seq<u8>, b: u8)
    ensures
        !before(s, b).contains(b),
        before(s, b) == s || exists|rest: Seq<u8>| s == #[trigger] (before(s, b) + seq![b] + rest),
{
    lemma_span_to(s, b);
    let n = span_to(s, b);
    if n < s.len() {
        let rest = s.skip(n + 1);
        assert(s =~= before(s, b) + seq![b] + rest);
    } else {
        assert(before(s, b) =~= s);
    }
}

/// A word is listed if it is what stands between two commas, or between a comma
/// and an end, white space and case aside.
pub proof fn law_lists(list: Seq<u8>, word: Seq<u8>)
    ensures
        lists(list, word) <==> exists|i: int, j: int|
            {
                &&& 0 <= i <= j <= list.len()
                &&& i == 0 || list[i - 1] == 44
                &&& j == list.len() || list[j] == 44
                &&& !(#[trigger] list.subrange(i, j)).contains(44)
                &&& same_ignoring_case(trimmed(list.subrange(i, j)), word)
            },
    decreases list.len(),
{
    let end = span_to(list, 44);
    lemma_span_to(list, 44);
    assert(list.take(end) =~= list.subrange(0, end));
    assert(!list.subrange(0, end).contains(44));
    if end < list.len() {
        let rest = list.skip(end + 1);
        law_lists(rest, word);
        if lists(rest, word) {
            let (i, j) = choose|i: int, j: int|
                {
                    &&& 0 <= i <= j <= rest.len()
                    &&& i == 0 || rest[i - 1] == 44
                    &&& j == rest.len() || rest[j] == 44
                    &&& !(#[trigger] rest.subrange(i, j)).contains(44)
                    &&& same_ignoring_case(trimmed(rest.subrange(i, j)), word)
                };
            assert(list.subrange(i + end + 1, j + end + 1) =~= rest.subrange(i, j));
        }
    }
    if exists|i: int, j: int|
        {
            &&& 0 <= i <= j <= list.len()
            &&& i == 0 || list[i - 1] == 44
            &&& j == list.len() || list[j] == 44
            &&& !(#[trigger] list.subrange(i, j)).contains(44)
            &&& same_ignoring_case(trimmed(list.subrange(i, j)), word)
        } {
        let (i, j) = choose|i: int, j: int|
            {
                &&& 0 <= i <= j <= list.len()
                &&& i == 0 || list[i - 1] == 44
                &&& j == list.len() || list[j] == 44
                &&& !(#[trigger] list.subrange(i, j)).contains(44)
                &&& same_ignoring_case(trimmed(list.subrange(i, j)), word)
            };
        if i == 0 {
            if j < end {
                assert(list[j] != 44);
            }
            if end < j {
                assert(list.subrange(0, j)[end] == 44);
            }
            assert(j == end);
        } else {
            assert(end <= i - 1) by {
                if i - 1 < end {
                    assert(list[i - 1] != 44);
                }
            }
            let rest = list.skip(end + 1);
            assert(rest.subrange(i - end - 1, j - end - 1) =~= list.subrange(i, j));
        }
    }
}

/// The place that is found is one where the needle stands, and the first such;
/// none is found only where there is none.
pub proof fn law_find(haystack: Seq<u8>, needle: Seq<u8>)
    ensures
        match find(haystack, needle) {
            Some(i) => {
                &&& 0 <= i <= haystack.len() - needle.len()
                &&& haystack.subrange(i, i + needle.len()) == needle
                &&& forall|j: int|
                    0 <= j < i ==> #[trigger] haystack.subrange(j, j + needle.len()) != needle
            },
            None => forall|j: int|
                0 <= j <= haystack.len() - needle.len() ==> #[trigger] haystack.subrange(
                    j,
                    j + needle.len(),
                ) != needle,
        },
{
    match find(haystack, needle) {
        Some(i) => {
            assert(first_at(haystack, needle, i));
            assert forall|j: int| 0 <= j < i implies #[trigger] haystack.subrange(
                j,
                j + needle.len(),
            ) != needle by {
                assert(!occurs_at(haystack, needle, j));
            }
        },
        None => {
            assert forall|j: int| 0 <= j <= haystack.len() - needle.len() implies
                #[trigger] haystack.subrange(j, j + needle.len()) != needle by {
                if occurs_at(haystack, needle, j) {
                    lemma_first_exists(haystack, needle, j);
                }
            }
        },
    }
}

proof fn lemma_first_exists(haystack: Seq<u8>, needle: Seq<u8>, j: int)
    requires
        occurs_at(haystack, needle, j),
    ensures
        exists|i: int| first_at(haystack, needle, i),
    decreases j,
{
    if !first_at(haystack, needle, j) {
        let k = choose|k: int| 0 <= k < j && occurs_at(haystack, needle, k);
        lemma_first_exists(haystack, needle, k);
    }
}

/// Bytes start with others if those stand at their first places.
pub proof fn law_starts_with(s: Seq<u8>, prefix: Seq<u8>)
    ensures
        starts_with(s, prefix) <==> prefix.len() <= s.len() && forall|i: int|
            0 <= i < prefix.len() ==> #[trigger] s[i] == prefix[i],
{
    if prefix.len() <= s.len() && forall|i: int|
        0 <= i < prefix.len() ==> #[trigger] s[i] == prefix[i] {
        assert(s.take(prefix.len() as int) =~= prefix);
    }
    if starts_with(s, prefix) {
        assert forall|i: int| 0 <= i < prefix.len() implies #[trigger] s[i] == prefix[i] by {
            assert(s.take(prefix.len() as int)[i] == s[i]);
        }
    }
}

/// The first place of a byte is one where it stands, and none is in front of it;
/// where it does not occur, the place is the end.
pub proof fn law_span_to(s: Seq<u8>, b: u8)
    ensures
        0 <= span_to(s, b) <= s.len(),
        span_to(s, b) < s.len() ==> s[span_to(s, b)] == b,
        forall|i: int| 0 <= i < span_to(s, b) ==> #[trigger] s[i] != b,
{
    lemma_span_to(s, b);
}

} // verus!
