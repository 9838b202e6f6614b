//! Small constructors for the fixed-size buffers the machine owns.
use vstd::prelude::*;

verus! {

/// A vector of `n` zero bytes.
pub fn zero_bytes(n: usize) -> (v: Vec<u8>)
    ensures
        v@ =~= Seq::new(n as nat, |i: int| 0u8),
{
    let mut v: Vec<u8> = Vec::new();
    let mut k: usize = 0;
    while k < n
        invariant
            k <= n,
            v@.len() == k,
            forall|j: int| 0 <= j < k ==> v@[j] == 0u8,
        decreases n - k,
    {
        v.push(0u8);
        k = k + 1;
    }
    assert(v@ =~= Seq::new(n as nat, |i: int| 0u8));
    v
}

/// A vector of `n` zero 16-bit words.
pub fn zero_words(n: usize) -> (v: Vec<u16>)
    ensures
        v@ =~= Seq::new(n as nat, |i: int| 0u16),
{
    let mut v: Vec<u16> = Vec::new();
    let mut k: usize = 0;
    while k < n
        invariant
            k <= n,
            v@.len() == k,
            forall|j: int| 0 <= j < k ==> v@[j] == 0u16,
        decreases n - k,
    {
        v.push(0u16);
        k = k + 1;
    }
    assert(v@ =~= Seq::new(n as nat, |i: int| 0u16));
    v
}

/// A vector of `n` cleared key states.
pub fn falses(n: usize) -> (v: Vec<bool>)
    ensures
        v@ =~= Seq::new(n as nat, |i: int| false),
{
    let mut v: Vec<bool> = Vec::new();
    let mut k: usize = 0;
    while k < n
        invariant
            k <= n,
            v@.len() == k,
            forall|j: int| 0 <= j < k ==> !v@[j],
        decreases n - k,
    {
        v.push(false);
        k = k + 1;
    }
    assert(v@ =~= Seq::new(n as nat, |i: int| false));
    v
}

} // verus!
