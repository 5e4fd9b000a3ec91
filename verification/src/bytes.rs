//! Byte-level helpers: big-endian integers and UTF-8 decoding.
use vstd::prelude::*;
use vstd::utf8::{valid_utf8, decode_utf8, encode_utf8, is_char_boundary, is_continuation_byte, valid_utf8_split, encode_utf8_valid_utf8, is_char_boundary_iff_not_is_continuation_byte, is_char_boundary_start_end_of_seq};
use vstd::string::StringSliceAdditionalSpecFns;

verus! {

pub open spec fn pow256(n: nat) -> nat
    decreases n,
{
    if n == 0 {
        1
    } else {
        256 * pow256((n - 1) as nat)
    }
}

/// The `n` low bytes of `v`, most significant first.
pub open spec fn be_bytes(v: nat, n: nat) -> Seq<u8>
    decreases n,
{
    if n == 0 {
        Seq::empty()
    } else {
        be_bytes(v / 256, (n - 1) as nat).push((v % 256) as u8)
    }
}

/// The number that a big-endian byte string denotes.
pub open spec fn be_value(s: Seq<u8>) -> nat
    decreases s.len(),
{
    if s.len() == 0 {
        0
    } else {
        (be_value(s.drop_last()) * 256 + s.last()) as nat
    }
}

pub proof fn lemma_pow256_values()
    ensures
        pow256(0) == 1,
        pow256(1) == 256,
        pow256(2) == 65536,
        pow256(7) == 0x100_0000_0000_0000,
        pow256(8) == 0x1_0000_0000_0000_0000,
{
    reveal_with_fuel(pow256, 9);
}

pub proof fn lemma_be_bytes_len(v: nat, n: nat)
    ensures
        be_bytes(v, n).len() == n,
    decreases n,
{
    if n > 0 {
        lemma_be_bytes_len(v / 256, (n - 1) as nat);
    }
}

/// Encoding a number that fits in `n` bytes and reading it back gives the number.
pub proof fn lemma_be_roundtrip(v: nat, n: nat)
    requires
        v < pow256(n),
    ensures
        be_value(be_bytes(v, n)) == v,
        be_bytes(v, n).len() == n,
    decreases n,
{
    lemma_be_bytes_len(v, n);
    if n > 0 {
        let p = pow256((n - 1) as nat);
        assert(v / 256 < p) by (nonlinear_arith)
            requires
                v < 256 * p,
        ;
        lemma_be_roundtrip(v / 256, (n - 1) as nat);
        let s = be_bytes(v, n);
        assert(s.drop_last() =~= be_bytes(v / 256, (n - 1) as nat));
    }
}

pub proof fn lemma_be_value_bound(s: Seq<u8>)
    ensures
        be_value(s) < pow256(s.len()),
    decreases s.len(),
{
    if s.len() > 0 {
        lemma_be_value_bound(s.drop_last());
        let p = pow256((s.len() - 1) as nat);
        let a = be_value(s.drop_last());
        let b = s.last() as nat;
        assert(a * 256 + b < 256 * p) by (nonlinear_arith)
            requires
                a < p,
                b < 256,
        ;
    }
}

/// The `n` low bytes of `v`, most significant first.
pub fn be_bytes_exec(v: u64, n: usize) -> (r: Vec<u8>)
    ensures
        r@ == be_bytes(v as nat, n as nat),
    decreases n,
{
    if n == 0 {
        Vec::new()
    } else {
        let mut r = be_bytes_exec(v / 256, n - 1);
        r.push((v % 256) as u8);
        r
    }
}

/// Reads an `n`-byte big-endian number at `data[off..off + n]`.
pub fn read_be(data: &[u8], off: usize, n: usize) -> (r: u64)
    requires
        n <= 8,
        off + n <= data.len(),
    ensures
        r as nat == be_value(data@.subrange(off as int, off + n)),
{
    let mut acc: u64 = 0;
    let mut i: usize = 0;
    proof {
        lemma_pow256_values();
    }
    while i < n
        invariant
            n <= 8,
            off + n <= data.len(),
            i <= n,
            acc as nat == be_value(data@.subrange(off as int, off + i)),
            acc < pow256(i as nat),
            pow256(8) == 0x1_0000_0000_0000_0000,
        decreases n - i,
    {
        let ghost prefix = data@.subrange(off as int, off + i);
        let ghost next = data@.subrange(off as int, off + i + 1);
        proof {
            assert(next.drop_last() =~= prefix);
            lemma_be_value_bound(next);
            lemma_pow256_mono((i + 1) as nat, 8);
        }
        acc = acc * 256 + (data[off + i] as u64);
        i = i + 1;
    }
    acc
}

pub proof fn lemma_pow256_mono(a: nat, b: nat)
    requires
        a <= b,
    ensures
        pow256(a) <= pow256(b),
    decreases b - a,
{
    if a < b {
        lemma_pow256_mono(a, (b - 1) as nat);
    }
}

/// Decodes UTF-8 (`std::str::from_utf8`), owning the result.
#[verifier::external_body]
pub(crate) fn utf8_to_string(bytes: &[u8]) -> (r: Option<String>)
    ensures
        r is Some <==> valid_utf8(bytes@),
        r matches Some(s) ==> s@ == decode_utf8(bytes@),
{
    std::str::from_utf8(bytes).ok().map(|s| s.to_string())
}

/// The bytes of a UTF-8 text between two character boundaries are UTF-8 too.
pub proof fn lemma_slice_valid(bytes: Seq<u8>, start: int, end: int)
    requires
        valid_utf8(bytes),
        0 <= start <= end <= bytes.len(),
        is_char_boundary(bytes, start),
        is_char_boundary(bytes, end),
    ensures
        valid_utf8(bytes.subrange(start, end)),
{
    valid_utf8_split(bytes, end);
    let t = bytes.subrange(0, end);
    if start < end {
        is_char_boundary_iff_not_is_continuation_byte(bytes, start);
        is_char_boundary_iff_not_is_continuation_byte(t, start);
        assert(t[start] == bytes[start]);
        valid_utf8_split(t, start);
        assert(t.subrange(start, t.len() as int) =~= bytes.subrange(start, end));
    } else {
        assert(bytes.subrange(start, end) =~= Seq::<u8>::empty());
        assert(valid_utf8(Seq::<u8>::empty())) by {
            is_char_boundary_start_end_of_seq(Seq::<u8>::empty());
            reveal(valid_utf8);
        }
    }
}

/// The text between two character boundaries (byte positions) of `s`.
pub fn str_byte_slice(s: &str, start: usize, end: usize) -> (r: String)
    requires
        start <= end <= s.spec_bytes().len(),
        is_char_boundary(s.spec_bytes(), start as int),
        is_char_boundary(s.spec_bytes(), end as int),
    ensures
        r@ == decode_utf8(s.spec_bytes().subrange(start as int, end as int)),
{
    let b = s.as_bytes();
    let mut v: Vec<u8> = Vec::new();
    let mut i: usize = start;
    while i < end
        invariant
            start <= i <= end <= b@.len(),
            v@ == b@.subrange(start as int, i as int),
        decreases end - i,
    {
        v.push(b[i]);
        i = i + 1;
        assert(v@ =~= b@.subrange(start as int, i as int));
    }
    proof {
        encode_utf8_valid_utf8(s@);
        lemma_slice_valid(s.spec_bytes(), start as int, end as int);
    }
    match utf8_to_string(&v) {
        Some(t) => t,
        None => String::new(),
    }
}

} // verus!
