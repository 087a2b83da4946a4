//! The canonical wire encoding of Aethel records.
//!
//! Every statement digest is taken over a record's canonical JSON form:
//! fields in declaration order under their camelCase names, 32-byte values as
//! arrays of decimal bytes, integers in decimal without sign or leading
//! zeros, absent optional fields omitted where the record says so and written
//! `null` otherwise, and enumerations by their snake_case names. This module
//! holds the pieces that form is built from, each as a spec function and a
//! writer that appends exactly those bytes.

use vstd::prelude::*;
use vstd::string::StringSliceAdditionalSpecFns;

use crate::types::{hex_bytes, push_all};

verus! {

broadcast use vstd::array::group_array_axioms;

/// The bytes of an ASCII literal.
pub open spec fn lit(s: &str) -> Seq<u8> {
    s.spec_bytes()
}

/// Appends the bytes of `s`.
pub fn push_lit(out: &mut Vec<u8>, s: &str)
    ensures
        final(out)@ == old(out)@ + s.spec_bytes(),
{
    push_all(out, s.as_bytes());
}

/// One decimal digit.
pub open spec fn digit(d: nat) -> u8 {
    (48 + d % 10) as u8
}

/// Decimal form of a natural number, most significant digit first.
pub open spec fn dec(n: nat) -> Seq<u8>
    decreases n,
{
    if n < 10 {
        seq![digit(n)]
    } else {
        dec(n / 10).push(digit(n % 10))
    }
}

/// Appends the decimal form of `n`.
pub fn push_u64(out: &mut Vec<u8>, n: u64)
    ensures
        final(out)@ == old(out)@ + dec(n as nat),
    decreases n,
{
    if n >= 10 {
        push_u64(out, n / 10);
        let ghost mid = out@;
        out.push((48 + n % 10) as u8);
        assert(out@ =~= old(out)@ + dec(n as nat));
    } else {
        out.push((48 + n % 10) as u8);
        assert(out@ =~= old(out)@ + dec(n as nat));
    }
}

/// Comma-separated decimal bytes.
pub open spec fn byte_items(s: Seq<u8>) -> Seq<u8>
    decreases s.len(),
{
    if s.len() == 0 {
        Seq::empty()
    } else if s.len() == 1 {
        dec(s[0] as nat)
    } else {
        byte_items(s.drop_last()) + seq![44u8] + dec(s.last() as nat)
    }
}

/// A JSON array of bytes.
pub open spec fn json_bytes(s: Seq<u8>) -> Seq<u8> {
    seq![91u8] + byte_items(s) + seq![93u8]
}

/// A 32-byte identifier or commitment.
pub open spec fn json_id(id: [u8; 32]) -> Seq<u8> {
    json_bytes(id@)
}

/// Appends a JSON array of the bytes of `s`.
pub fn push_byte_list(out: &mut Vec<u8>, s: &[u8])
    ensures
        final(out)@ == old(out)@ + json_bytes(s@),
{
    out.push(91u8);
    let mut i: usize = 0;
    while i < s.len()
        invariant
            i <= s@.len(),
            out@ == old(out)@ + seq![91u8] + byte_items(s@.subrange(0, i as int)),
        decreases s@.len() - i,
    {
        let ghost before = out@;
        proof {
            assert(s@.subrange(0, (i + 1) as int).drop_last() =~= s@.subrange(0, i as int));
        }
        if i > 0 {
            out.push(44u8);
        }
        push_u64(out, s[i] as u64);
        assert(out@ =~= old(out)@ + seq![91u8] + byte_items(s@.subrange(0, (i + 1) as int)));
        i = i + 1;
    }
    assert(s@.subrange(0, s@.len() as int) =~= s@);
    out.push(93u8);
    assert(out@ =~= old(out)@ + json_bytes(s@));
}

/// Appends a 32-byte identifier as a JSON array.
pub fn push_id(out: &mut Vec<u8>, id: &[u8; 32])
    ensures
        final(out)@ == old(out)@ + json_id(*id),
{
    let s = vstd::array::array_as_slice(id);
    push_byte_list(out, s);
}

/// Comma-separated decimal integers.
pub open spec fn u64_items(s: Seq<u64>) -> Seq<u8>
    decreases s.len(),
{
    if s.len() == 0 {
        Seq::empty()
    } else if s.len() == 1 {
        dec(s[0] as nat)
    } else {
        u64_items(s.drop_last()) + seq![44u8] + dec(s.last() as nat)
    }
}

/// A JSON array of integers.
pub open spec fn json_u64s(s: Seq<u64>) -> Seq<u8> {
    seq![91u8] + u64_items(s) + seq![93u8]
}

/// Appends a JSON array of integers.
pub fn push_u64_list(out: &mut Vec<u8>, s: &[u64])
    ensures
        final(out)@ == old(out)@ + json_u64s(s@),
{
    out.push(91u8);
    let mut i: usize = 0;
    while i < s.len()
        invariant
            i <= s@.len(),
            out@ == old(out)@ + seq![91u8] + u64_items(s@.subrange(0, i as int)),
        decreases s@.len() - i,
    {
        proof {
            assert(s@.subrange(0, (i + 1) as int).drop_last() =~= s@.subrange(0, i as int));
        }
        if i > 0 {
            out.push(44u8);
        }
        push_u64(out, s[i]);
        assert(out@ =~= old(out)@ + seq![91u8] + u64_items(s@.subrange(0, (i + 1) as int)));
        i = i + 1;
    }
    assert(s@.subrange(0, s@.len() as int) =~= s@);
    out.push(93u8);
    assert(out@ =~= old(out)@ + json_u64s(s@));
}

/// `null` or the identifier.
pub open spec fn json_opt_id(o: Option<[u8; 32]>) -> Seq<u8> {
    match o {
        Some(v) => json_id(v),
        None => lit("null"),
    }
}

/// Appends `null` or the identifier.
pub fn push_opt_id(out: &mut Vec<u8>, o: &Option<[u8; 32]>)
    ensures
        final(out)@ == old(out)@ + json_opt_id(*o),
{
    match o {
        Some(v) => push_id(out, v),
        None => push_lit(out, "null"),
    }
}

/// A field written only when the value is present: `key` carries the
/// separator, the quoted name, and the colon.
pub open spec fn opt_id_field(key: &str, o: Option<[u8; 32]>) -> Seq<u8> {
    match o {
        Some(v) => key.spec_bytes() + json_id(v),
        None => Seq::empty(),
    }
}

/// Appends a field written only when the value is present.
pub fn push_opt_id_field(out: &mut Vec<u8>, key: &str, o: &Option<[u8; 32]>)
    ensures
        final(out)@ == old(out)@ + opt_id_field(key, *o),
{
    match o {
        Some(v) => {
            push_lit(out, key);
            push_id(out, v);
            assert(out@ =~= old(out)@ + opt_id_field(key, *o));
        },
        None => {
            assert(out@ =~= old(out)@ + opt_id_field(key, *o));
        },
    }
}

/// `true` or `false`.
pub open spec fn json_bool(b: bool) -> Seq<u8> {
    if b {
        lit("true")
    } else {
        lit("false")
    }
}

/// Appends `true` or `false`.
pub fn push_bool(out: &mut Vec<u8>, b: bool)
    ensures
        final(out)@ == old(out)@ + json_bool(b),
{
    if b {
        push_lit(out, "true");
    } else {
        push_lit(out, "false");
    }
}

/// An identifier as a quoted lower-case hexadecimal string (a map key).
pub open spec fn json_hex(id: [u8; 32]) -> Seq<u8> {
    seq![34u8] + hex_bytes(id@) + seq![34u8]
}

/// Appends the lower-case hexadecimal form of `s`.
pub fn push_hex(out: &mut Vec<u8>, s: &[u8])
    ensures
        final(out)@ == old(out)@ + hex_bytes(s@),
{
    let mut i: usize = 0;
    while i < s.len()
        invariant
            i <= s@.len(),
            out@ == old(out)@ + hex_bytes(s@.subrange(0, i as int)),
        decreases s@.len() - i,
    {
        proof {
            assert(s@.subrange(0, (i + 1) as int).drop_last() =~= s@.subrange(0, i as int));
        }
        let b = s[i];
        let hi = b / 16;
        let lo = b % 16;
        out.push(if hi < 10 { 48 + hi } else { 87 + hi });
        out.push(if lo < 10 { 48 + lo } else { 87 + lo });
        assert(out@ =~= old(out)@ + hex_bytes(s@.subrange(0, (i + 1) as int)));
        i = i + 1;
    }
    assert(s@.subrange(0, s@.len() as int) =~= s@);
}

/// Appends an identifier as a quoted hexadecimal string.
pub fn push_hex_id(out: &mut Vec<u8>, id: &[u8; 32])
    ensures
        final(out)@ == old(out)@ + json_hex(*id),
{
    out.push(34u8);
    push_hex(out, vstd::array::array_as_slice(id));
    out.push(34u8);
    assert(out@ =~= old(out)@ + json_hex(*id));
}

/// Comma-separated encodings of the elements of `s`.
pub open spec fn items<T>(s: Seq<T>, enc: spec_fn(T) -> Seq<u8>) -> Seq<u8>
    decreases s.len(),
{
    if s.len() == 0 {
        Seq::empty()
    } else if s.len() == 1 {
        enc(s[0])
    } else {
        items(s.drop_last(), enc) + seq![44u8] + enc(s.last())
    }
}

/// A JSON array of the encodings of the elements of `s`.
pub open spec fn json_list<T>(s: Seq<T>, enc: spec_fn(T) -> Seq<u8>) -> Seq<u8> {
    seq![91u8] + items(s, enc) + seq![93u8]
}

/// One step of a list writer: the first `i + 1` elements are the first `i`
/// followed by a separator (unless `i` is zero) and element `i`.
pub proof fn lemma_items_step<T>(s: Seq<T>, i: int, enc: spec_fn(T) -> Seq<u8>)
    requires
        0 <= i < s.len(),
    ensures
        items(s.subrange(0, i + 1), enc) == if i == 0 {
            enc(s[0])
        } else {
            items(s.subrange(0, i), enc) + seq![44u8] + enc(s[i])
        },
{
    assert(s.subrange(0, i + 1).drop_last() =~= s.subrange(0, i));
}

} // verus!
