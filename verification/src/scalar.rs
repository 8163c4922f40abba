//! Little-endian byte reinterpretation of secrets as field scalars.
//!
//! The reconstruction engine turns a recovered byte string into an element
//! of the scalar field of the threshold scheme by reading it as a
//! little-endian base-256 numeral. This module fixes that meaning and the
//! field's modulus, and proves that zero-padding a byte string does not
//! change its value.

use vstd::prelude::*;

verus! {

/// The value of a byte string read as a little-endian base-256 numeral.
pub open spec fn le_bytes_value(b: Seq<u8>) -> nat
    decreases b.len(),
{
    if b.len() == 0 {
        0
    } else {
        (b[0] + 256 * le_bytes_value(b.drop_first())) as nat
    }
}

/// 256 raised to a power.
pub open spec fn pow256(n: nat) -> nat
    decreases n,
{
    if n == 0 {
        1
    } else {
        256 * pow256((n - 1) as nat)
    }
}

/// The order of the scalar field of the threshold scheme: a 255-bit prime.
pub open spec fn fr_modulus() -> nat {
    0x73eda753299d7d483339d80809a1d80553bda402fffe5bfeffffffff00000001nat
}

/// Reading a concatenation: the back part is weighted by 256 to the length
/// of the front part.
pub proof fn lemma_le_bytes_value_concat(x: Seq<u8>, y: Seq<u8>)
    ensures
        le_bytes_value(x + y) == le_bytes_value(x) + pow256(x.len()) * le_bytes_value(y),
    decreases x.len(),
{
    if x.len() == 0 {
        assert(x + y =~= y);
        assert(pow256(0) == 1);
    } else {
        lemma_le_bytes_value_concat(x.drop_first(), y);
        let xr = x.drop_first();
        let a = le_bytes_value(xr);
        let p = pow256((x.len() - 1) as nat);
        let b = le_bytes_value(y);
        assert((x + y).len() != 0);
        assert((x + y).drop_first() =~= xr + y);
        assert(le_bytes_value(x + y) == (x + y)[0] + 256 * le_bytes_value((x + y).drop_first()));
        assert(le_bytes_value(xr + y) == a + p * b);
        assert((x + y)[0] == x[0]);
        assert(le_bytes_value(x) == x[0] + 256 * a);
        assert(pow256(x.len()) == 256 * p);
        assert(256 * (a + p * b) == 256 * a + (256 * p) * b) by (nonlinear_arith);
        assert(le_bytes_value(x + y) == x[0] + 256 * a + (256 * p) * b);
    }
}

/// Appending a zero byte does not change the value.
pub proof fn lemma_le_bytes_value_push_zero(x: Seq<u8>)
    ensures
        le_bytes_value(x.push(0)) == le_bytes_value(x),
{
    assert(x.push(0) =~= x + seq![0u8]);
    lemma_le_bytes_value_concat(x, seq![0u8]);
    let z = seq![0u8];
    assert(le_bytes_value(Seq::<u8>::empty()) == 0);
    assert(z.drop_first() =~= Seq::<u8>::empty());
    assert(le_bytes_value(z) == z[0] + 256 * le_bytes_value(z.drop_first()));
    assert(z[0] == 0u8);
    assert(le_bytes_value(z) == 0);
    assert(le_bytes_value(x + z) == le_bytes_value(x) + pow256(x.len()) * 0);
    assert(pow256(x.len()) * 0 == 0);
    assert(le_bytes_value(x.push(0)) == le_bytes_value(x + z));
}

/// Extends a byte string with zero bytes up to 32 bytes; the little-endian
/// value is unchanged.
pub fn pad_to_32(b: &[u8]) -> (r: Vec<u8>)
    requires
        b@.len() <= 32,
    ensures
        r@.len() == 32,
        le_bytes_value(r@) == le_bytes_value(b@),
{
    let mut out: Vec<u8> = Vec::new();
    let mut i: usize = 0;
    while i < b.len()
        invariant
            i <= b@.len(),
            out@ =~= b@.take(i as int),
        decreases b@.len() - i,
    {
        out.push(b[i]);
        i = i + 1;
    }
    assert(out@ =~= b@);
    while out.len() < 32
        invariant
            out@.len() <= 32,
            le_bytes_value(out@) == le_bytes_value(b@),
        decreases 32 - out@.len(),
    {
        proof {
            lemma_le_bytes_value_push_zero(out@);
        }
        out.push(0);
    }
    out
}

} // verus!
