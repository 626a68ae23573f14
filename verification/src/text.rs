//! Byte-string and text utilities shared across the engine: copying,
//! comparison, appending, decimal rendering, and conversion between byte
//! strings and `String`s.

use vstd::prelude::*;
use vstd::utf8::{encode_utf8, valid_utf8};

verus! {

/// Append the bytes of `s[from..to]` to `out`.
pub fn push_range(out: &mut Vec<u8>, s: &[u8], from: usize, to: usize)
    requires
        from <= to <= s@.len(),
    ensures
        final(out)@ == old(out)@ + s@.subrange(from as int, to as int),
{
    let mut k = from;
    while k < to
        invariant
            from <= k <= to <= s@.len(),
            out@ == old(out)@ + s@.subrange(from as int, k as int),
        decreases to - k,
    {
        out.push(s[k]);
        proof {
            assert(out@ =~= old(out)@ + s@.subrange(from as int, k + 1));
        }
        k += 1;
    }
    proof {
        assert(out@ =~= old(out)@ + s@.subrange(from as int, to as int));
    }
}

/// Append the bytes of `line[from..]` to `out`.
pub fn push_tail(out: &mut Vec<u8>, line: &[u8], from: usize)
    requires
        from <= line@.len(),
    ensures
        final(out)@ == old(out)@ + line@.subrange(from as int, line@.len() as int),
{
    push_range(out, line, from, line.len());
}

/// A fresh vector holding the same bytes as `v`.
pub fn copy_bytes(v: &Vec<u8>) -> (r: Vec<u8>)
    ensures
        r@ =~= v@,
{
    let mut r: Vec<u8> = Vec::new();
    let mut k: usize = 0;
    while k < v.len()
        invariant
            k <= v.len(),
            r@ =~= v@.subrange(0, k as int),
        decreases v.len() - k,
    {
        r.push(v[k]);
        k += 1;
    }
    r
}

/// A fresh vector holding the same elements as `v`.
pub fn copy_vec<T: Copy>(v: &Vec<T>) -> (r: Vec<T>)
    ensures
        r@ =~= v@,
{
    let mut r: Vec<T> = Vec::new();
    let mut k: usize = 0;
    while k < v.len()
        invariant
            k <= v.len(),
            r@ =~= v@.subrange(0, k as int),
        decreases v.len() - k,
    {
        r.push(v[k]);
        k += 1;
    }
    r
}

/// `true` iff the two byte strings are equal.
pub fn bytes_eq(a: &[u8], b: &[u8]) -> (r: bool)
    ensures
        r == (a@ == b@),
{
    if a.len() != b.len() {
        assert(a@ != b@);
        return false;
    }
    let mut k: usize = 0;
    while k < a.len()
        invariant
            k <= a.len(),
            a@.len() == b@.len(),
            forall|j: int| 0 <= j < k ==> a@[j] == b@[j],
        decreases a.len() - k,
    {
        if a[k] != b[k] {
            return false;
        }
        k += 1;
    }
    assert(a@ =~= b@);
    true
}

/// Relies on `String::from_utf8`: it succeeds exactly on valid UTF-8
/// input, and the returned string's bytes are the input bytes.
#[verifier::external_body]
pub(crate) fn string_from_utf8(bytes: Vec<u8>) -> (r: Option<String>)
    ensures
        r is Some <==> valid_utf8(bytes@),
        r matches Some(s) ==> encode_utf8(s@) == bytes@,
{
    String::from_utf8(bytes).ok()
}

/// The string holding exactly `bytes` where they are valid UTF-8; the
/// empty string where they are not.
pub fn string_from_utf8_or_empty(bytes: Vec<u8>) -> (r: String)
    ensures
        valid_utf8(bytes@) ==> encode_utf8(r@) == bytes@,
        !valid_utf8(bytes@) ==> r@ == Seq::<char>::empty(),
{
    match string_from_utf8(bytes) {
        Some(s) => s,
        None => String::new(),
    }
}

/// The decimal digits of `n`, most significant first, as ASCII bytes.
pub open spec fn decimal_bytes(n: nat) -> Seq<u8>
    decreases n,
{
    if n < 10 {
        seq![(48 + n) as u8]
    } else {
        decimal_bytes(n / 10).push((48 + n % 10) as u8)
    }
}

/// Append the decimal rendering of `n` to `out`.
pub fn push_decimal(out: &mut Vec<u8>, n: usize)
    ensures
        final(out)@ == old(out)@ + decimal_bytes(n as nat),
    decreases n,
{
    if n < 10 {
        out.push(48 + n as u8);
        proof {
            assert(out@ =~= old(out)@ + decimal_bytes(n as nat));
        }
    } else {
        push_decimal(out, n / 10);
        out.push(48 + (n % 10) as u8);
        proof {
            assert(out@ =~= old(out)@ + decimal_bytes(n as nat));
        }
    }
}

/// Append the bytes of the string slice `s` to `out`.
pub fn push_str_bytes(out: &mut Vec<u8>, s: &str)
    ensures
        final(out)@ == old(out)@ + encode_utf8(s@),
{
    push_tail(out, s.as_bytes(), 0);
    proof {
        assert(old(out)@ + encode_utf8(s@).subrange(0, encode_utf8(s@).len() as int) =~= old(out)@
            + encode_utf8(s@));
    }
}

/// The bytes of `prefix`, then `mid`, then `suffix`.
pub open spec fn framed_bytes(prefix: Seq<char>, mid: Seq<u8>, suffix: Seq<char>) -> Seq<u8> {
    encode_utf8(prefix) + mid + encode_utf8(suffix)
}

/// The string framing the bytes `mid` between `prefix` and `suffix`;
/// the empty string in the unusual case that `mid` breaks the result's
/// UTF-8 validity.
pub fn framed_string(prefix: &str, mid: &[u8], suffix: &str) -> (r: String)
    ensures
        ({
            let b = framed_bytes(prefix@, mid@, suffix@);
            &&& (valid_utf8(b) ==> encode_utf8(r@) == b)
            &&& (!valid_utf8(b) ==> r@ == Seq::<char>::empty())
        }),
{
    let mut out: Vec<u8> = Vec::new();
    push_str_bytes(&mut out, prefix);
    push_tail(&mut out, mid, 0);
    push_str_bytes(&mut out, suffix);
    proof {
        assert(out@ =~= framed_bytes(prefix@, mid@, suffix@));
    }
    string_from_utf8_or_empty(out)
}

} // verus!
