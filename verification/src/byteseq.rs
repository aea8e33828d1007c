//! Small verified helpers over byte vectors: equality, substring search,
//! appending, and zero filling.

use vstd::prelude::*;

verus! {

/// `needle` occurs as a contiguous run somewhere inside `haystack`.
pub open spec fn contains_seq(haystack: Seq<u8>, needle: Seq<u8>) -> bool {
    exists|i: int|
        0 <= i && i + needle.len() <= haystack.len() && #[trigger] haystack.subrange(
            i,
            i + needle.len(),
        ) == needle
}

/// A sequence of `n` zero bytes.
pub open spec fn zero_bytes(n: int) -> Seq<u8> {
    Seq::new(n as nat, |i: int| 0u8)
}

/// Whether two byte vectors hold the same bytes.
pub fn bytes_eq(a: &Vec<u8>, b: &Vec<u8>) -> (r: bool)
    ensures
        r == (a@ == b@),
{
    if a.len() != b.len() {
        return false;
    }
    let mut i: usize = 0;
    while i < a.len()
        invariant
            a@.len() == b@.len(),
            i <= a@.len(),
            forall|j: int| 0 <= j < i ==> a@[j] == b@[j],
        decreases a@.len() - i,
    {
        if a[i] != b[i] {
            return false;
        }
        i = i + 1;
    }
    proof {
        assert(a@ =~= b@);
    }
    true
}

/// Whether `needle` occurs as a contiguous run inside `haystack`.
pub fn contains_sub(haystack: &Vec<u8>, needle: &Vec<u8>) -> (r: bool)
    ensures
        r == contains_seq(haystack@, needle@),
{
    if needle.len() > haystack.len() {
        return false;
    }
    if needle.len() == 0 {
        proof {
            assert(haystack@.subrange(0, 0 + needle@.len() as int) =~= needle@);
        }
        return true;
    }
    let last_start: usize = haystack.len() - needle.len();
    let mut i: usize = 0;
    while i <= last_start
        invariant
            1 <= needle@.len() <= haystack@.len(),
            haystack@.len() <= usize::MAX,
            last_start == haystack@.len() - needle@.len(),
            i <= last_start + 1,
            forall|k: int|
                0 <= k < i ==> #[trigger] haystack@.subrange(k, k + needle@.len() as int)
                    != needle@,
        decreases last_start + 1 - i,
    {
        let mut j: usize = 0;
        let mut mismatch = false;
        while j < needle.len()
            invariant
                needle@.len() <= haystack@.len(),
                haystack@.len() <= usize::MAX,
                i <= haystack@.len() - needle@.len(),
                j <= needle@.len(),
                !mismatch ==> forall|t: int| 0 <= t < j ==> haystack@[i + t] == needle@[t],
                mismatch ==> haystack@.subrange(i as int, i + needle@.len() as int) != needle@,
            decreases needle@.len() - j,
        {
            if haystack[i + j] != needle[j] {
                proof {
                    assert(haystack@.subrange(i as int, i + needle@.len() as int)[j as int]
                        == haystack@[i + j]);
                }
                mismatch = true;
                j = needle.len();
            } else {
                j = j + 1;
            }
        }
        if !mismatch {
            proof {
                assert(haystack@.subrange(i as int, i + needle@.len() as int) =~= needle@);
            }
            return true;
        }
        i = i + 1;
    }
    proof {
        assert forall|k: int| 0 <= k && k + needle@.len() <= haystack@.len() implies #[trigger]
        haystack@.subrange(k, k + needle@.len() as int) != needle@ by {
            assert(k < i);
        }
    }
    false
}

/// Append all bytes of `src` to `dst`.
pub fn push_bytes(dst: &mut Vec<u8>, src: &Vec<u8>)
    ensures
        final(dst)@ == old(dst)@ + src@,
{
    let ghost dst0 = dst@;
    let mut k: usize = 0;
    while k < src.len()
        invariant
            k <= src@.len(),
            dst@ == dst0 + src@.take(k as int),
        decreases src@.len() - k,
    {
        dst.push(src[k]);
        proof {
            assert(dst@ =~= dst0 + src@.take(k + 1));
        }
        k = k + 1;
    }
    proof {
        assert(dst0 + src@.take(src@.len() as int) =~= dst0 + src@);
    }
}

/// Append `n` zero bytes to `dst`.
pub fn push_zeros(dst: &mut Vec<u8>, n: usize)
    ensures
        final(dst)@ == old(dst)@ + zero_bytes(n as int),
{
    let ghost dst0 = dst@;
    let mut k: usize = 0;
    while k < n
        invariant
            k <= n,
            dst@ == dst0 + zero_bytes(k as int),
        decreases n - k,
    {
        dst.push(0u8);
        proof {
            assert(dst@ =~= dst0 + zero_bytes(k + 1));
        }
        k = k + 1;
    }
}

/// The concatenation of two byte vectors.
pub fn concat_bytes(a: &Vec<u8>, b: &Vec<u8>) -> (r: Vec<u8>)
    ensures
        r@ == a@ + b@,
{
    let mut r: Vec<u8> = Vec::new();
    push_bytes(&mut r, a);
    push_bytes(&mut r, b);
    proof {
        assert(r@ =~= a@ + b@);
    }
    r
}

} // verus!
