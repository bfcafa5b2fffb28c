//! Finding a byte pattern inside a buffer.

use vstd::prelude::*;
use vstd::slice::slice_subrange;

verus! {

/// `pattern` occurs in `data` starting at index `i`.
pub open spec fn occurs_at(data: Seq<u8>, pattern: Seq<u8>, i: int) -> bool {
    0 <= i && i + pattern.len() <= data.len() && data.subrange(i, i + pattern.len()) == pattern
}

/// `pattern` occurs somewhere in `data`.
pub open spec fn contains(data: Seq<u8>, pattern: Seq<u8>) -> bool {
    exists|i: int| occurs_at(data, pattern, i)
}

/// `i` is the first index at which `pattern` occurs in `data`.
pub open spec fn is_first_occurrence(data: Seq<u8>, pattern: Seq<u8>, i: int) -> bool {
    &&& occurs_at(data, pattern, i)
    &&& forall|j: int| 0 <= j < i ==> !occurs_at(data, pattern, j)
}

fn window_matches(data: &[u8], pattern: &[u8], start: usize) -> (r: bool)
    requires
        start + pattern@.len() <= data@.len(),
    ensures
        r == occurs_at(data@, pattern@, start as int),
{
    let n = pattern.len();
    let len = data.len();
    let mut k: usize = 0;
    while k < n
        invariant
            n == pattern@.len(),
            len == data@.len(),
            start + n <= data@.len(),
            k <= n,
            forall|m: int| 0 <= m < k ==> data@[start + m] == pattern@[m],
        decreases n - k,
    {
        if data[start + k] != pattern[k] {
            assert(data@.subrange(start as int, start + n)[k as int] != pattern@[k as int]);
            return false;
        }
        k += 1;
    }
    assert(data@.subrange(start as int, start + n) =~= pattern@);
    true
}

/// Index of the first occurrence of `pattern` in `data`, if there is one.
pub fn find_subslice(data: &[u8], pattern: &[u8]) -> (r: Option<usize>)
    requires
        pattern@.len() > 0,
    ensures
        match r {
            Some(i) => is_first_occurrence(data@, pattern@, i as int),
            None => !contains(data@, pattern@),
        },
{
    if pattern.len() > data.len() {
        return None;
    }
    let len = data.len();
    let last = len - pattern.len();
    let mut i: usize = 0;
    while i <= last
        invariant
            len == data@.len(),
            last == data@.len() - pattern@.len(),
            last < data@.len(),
            i <= last + 1,
            forall|j: int| 0 <= j < i ==> !occurs_at(data@, pattern@, j),
        decreases last + 1 - i,
    {
        if window_matches(data, pattern, i) {
            return Some(i);
        }
        i += 1;
    }
    assert forall|j: int| !occurs_at(data@, pattern@, j) by {
        if 0 <= j < i {
        }
    }
    None
}

/// Splits `data` around the first occurrence of `pattern`: the bytes before
/// it and the bytes after it. `None` when `pattern` does not occur.
pub fn split_once_subslice<'a>(data: &'a [u8], pattern: &[u8]) -> (r: Option<(&'a [u8], &'a [u8])>)
    requires
        pattern@.len() > 0,
    ensures
        match r {
            Some((before, after)) => exists|i: int|
                {
                    &&& is_first_occurrence(data@, pattern@, i)
                    &&& before@ == data@.subrange(0, i)
                    &&& after@ == data@.subrange(i + pattern@.len(), data@.len() as int)
                },
            None => !contains(data@, pattern@),
        },
{
    match find_subslice(data, pattern) {
        Some(pos) => {
            assert(occurs_at(data@, pattern@, pos as int));
            let before = slice_subrange(data, 0, pos);
            let len = data.len();
            let after = slice_subrange(data, pos + pattern.len(), len);
            Some((before, after))
        },
        None => None,
    }
}

} // verus!
