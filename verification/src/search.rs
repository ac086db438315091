//! Searching byte strings and texts for a pattern.

use vstd::prelude::*;

use crate::text;

verus! {

/// Whether `pattern` stands in `s` at index `i`.
pub open spec fn occurs_at<T>(s: Seq<T>, pattern: Seq<T>, i: int) -> bool {
    &&& 0 <= i
    &&& i + pattern.len() <= s.len()
    &&& s.subrange(i, i + pattern.len()) == pattern
}

/// Whether `pattern` stands somewhere in `s`.
pub open spec fn occurs<T>(s: Seq<T>, pattern: Seq<T>) -> bool {
    exists|i: int| occurs_at(s, pattern, i)
}

/// Whether `i` is the first index at which `pattern` stands in `s`.
pub open spec fn first_at<T>(s: Seq<T>, pattern: Seq<T>, i: int) -> bool {
    &&& occurs_at(s, pattern, i)
    &&& forall|j: int| 0 <= j < i ==> !occurs_at(s, pattern, j)
}

/// The first index at which `pattern` stands in `s`.
pub open spec fn first_index<T>(s: Seq<T>, pattern: Seq<T>) -> Option<int> {
    if occurs(s, pattern) {
        Some(choose|i: int| first_at(s, pattern, i))
    } else {
        None
    }
}

/// Where a pattern stands somewhere, it stands somewhere first.
proof fn lemma_first_exists<T>(s: Seq<T>, pattern: Seq<T>, i: int)
    requires
        occurs_at(s, pattern, i),
    ensures
        exists|k: int| first_at(s, pattern, k),
    decreases i,
{
    if exists|j: int| 0 <= j < i && occurs_at(s, pattern, j) {
        let j = choose|j: int| 0 <= j < i && occurs_at(s, pattern, j);
        lemma_first_exists(s, pattern, j);
    } else {
        assert(first_at(s, pattern, i));
    }
}

/// `first_index` gives the least index at which the pattern stands.
pub proof fn lemma_first_index<T>(s: Seq<T>, pattern: Seq<T>)
    ensures
        match first_index(s, pattern) {
            Some(i) => first_at(s, pattern, i),
            None => !occurs(s, pattern),
        },
{
    if occurs(s, pattern) {
        let i = choose|i: int| occurs_at(s, pattern, i);
        lemma_first_exists(s, pattern, i);
    }
}

/// An index that is first is the one that `first_index` gives.
pub proof fn lemma_first_index_is<T>(s: Seq<T>, pattern: Seq<T>, i: int)
    requires
        first_at(s, pattern, i),
    ensures
        first_index(s, pattern) == Some(i),
{
    lemma_first_index(s, pattern);
    let k = first_index(s, pattern)->0;
    assert(occurs_at(s, pattern, i));
    if k < i {
        assert(occurs_at(s, pattern, k));
    } else if i < k {
        assert(occurs_at(s, pattern, i));
    }
}

/// Whether `pattern` stands in `data` at index `i`.
fn bytes_at(data: &[u8], pattern: &[u8], i: usize) -> (r: bool)
    requires
        i <= data@.len(),
    ensures
        r == occurs_at(data@, pattern@, i as int),
{
    if data.len() - i < pattern.len() {
        return false;
    }
    let mut k: usize = 0;
    while k < pattern.len()
        invariant
            k <= pattern@.len(),
            i + pattern@.len() <= data@.len() <= usize::MAX,
            forall|j: int| 0 <= j < k ==> data@[i + j] == pattern@[j],
        decreases pattern@.len() - k,
    {
        if data[i + k] != pattern[k] {
            assert(data@.subrange(i as int, i + pattern@.len())[k as int] != pattern@[k as int]);
            return false;
        }
        k = k + 1;
    }
    assert(data@.subrange(i as int, i + pattern@.len()) =~= pattern@);
    true
}

/// The first index at which `pattern` stands in `data`.
pub fn find_bytes(data: &[u8], pattern: &[u8]) -> (out: Option<usize>)
    ensures
        match out {
            Some(i) => first_at(data@, pattern@, i as int) && first_index(data@, pattern@) == Some(i as int),
            None => first_index(data@, pattern@) is None && !occurs(data@, pattern@),
        },
{
    let mut i: usize = 0;
    while i < data.len()
        invariant
            i <= data@.len(),
            forall|j: int| 0 <= j < i ==> !occurs_at(data@, pattern@, j),
        decreases data@.len() - i,
    {
        if bytes_at(data, pattern, i) {
            proof {
                lemma_first_index_is(data@, pattern@, i as int);
            }
            return Some(i);
        }
        i = i + 1;
    }
    if bytes_at(data, pattern, i) {
        proof {
            lemma_first_index_is(data@, pattern@, i as int);
        }
        return Some(i);
    }
    assert(!occurs(data@, pattern@));
    None
}

/// Whether `pattern` stands somewhere in `s`.
pub fn contains_text(s: &str, pattern: &str) -> (r: bool)
    ensures
        r == occurs(s@, pattern@),
{
    let data: Vec<char> = text::chars_of(s);
    let wanted: Vec<char> = text::chars_of(pattern);
    let mut i: usize = 0;
    loop
        invariant
            i <= data@.len(),
            data@ == s@,
            wanted@ == pattern@,
            forall|j: int| 0 <= j < i ==> !occurs_at(s@, pattern@, j),
        decreases data@.len() - i,
    {
        if data.len() - i < wanted.len() {
            assert(!occurs(s@, pattern@));
            return false;
        }
        let mut k: usize = 0;
        let mut same: bool = true;
        while k < wanted.len() && same
            invariant
                k <= wanted@.len(),
                i + wanted@.len() <= data@.len() <= usize::MAX,
                data@ == s@,
                wanted@ == pattern@,
                same ==> forall|j: int| 0 <= j < k ==> data@[i + j] == wanted@[j],
                !same ==> exists|j: int| 0 <= j < k && data@[i + j] != wanted@[j],
            decreases wanted@.len() - k,
        {
            if data[i + k] != wanted[k] {
                same = false;
            }
            k = k + 1;
        }
        if same {
            assert(s@.subrange(i as int, i + pattern@.len()) =~= pattern@);
            assert(occurs_at(s@, pattern@, i as int));
            return true;
        }
        assert(!occurs_at(s@, pattern@, i as int)) by {
            let j = choose|j: int| 0 <= j < k && data@[i + j] != wanted@[j];
            assert(s@.subrange(i as int, i + pattern@.len())[j] != pattern@[j]);
        }
        if i == data.len() {
            return false;
        }
        i = i + 1;
    }
}

/// A pattern stands in a text exactly at those indices at which the text falls into
/// what is before, the pattern and what is behind.
pub proof fn law_pattern_stands_between_its_sides<T>(before: Seq<T>, pattern: Seq<T>, behind: Seq<T>)
    ensures
        occurs_at(before + pattern + behind, pattern, before.len() as int),
        occurs(before + pattern + behind, pattern),
        first_index(before + pattern + behind, pattern) is Some,
        first_index(before + pattern + behind, pattern)->0 <= before.len(),
{
    let s = before + pattern + behind;
    let i = before.len() as int;
    assert(s.subrange(i, i + pattern.len()) =~= pattern);
    assert(occurs_at(s, pattern, i));
    lemma_first_index(s, pattern);
    let first = first_index(s, pattern)->0;
    if i < first {
        assert(!occurs_at(s, pattern, i));
    }
}

/// Cut at the first place of a pattern, a text falls into what is before, the
/// pattern and what is behind, and none of an earlier place holds the pattern.
pub proof fn law_first_place_cuts_the_text<T>(s: Seq<T>, pattern: Seq<T>, j: int)
    requires
        first_index(s, pattern) is Some,
    ensures
        ({
            let i = first_index(s, pattern)->0;
            &&& 0 <= i <= s.len() - pattern.len()
            &&& s == s.take(i) + pattern + s.skip(i + pattern.len())
            &&& 0 <= j < i ==> s.subrange(j, j + pattern.len()) != pattern
        }),
{
    lemma_first_index(s, pattern);
    let i = first_index(s, pattern)->0;
    assert(s.subrange(i, i + pattern.len()) == pattern);
    assert(s =~= s.take(i) + s.subrange(i, i + pattern.len()) + s.skip(i + pattern.len()));
    if 0 <= j < i {
        assert(!occurs_at(s, pattern, j));
    }
}

} // verus!
