//! Reading a client address from its text the way an IP address parses:
//! dotted decimal IPv4 (each octet at most three digits, no leading zero),
//! or IPv6 groups of at most four hexadecimal digits with at most one `::`
//! and an optional dotted IPv4 tail. Two texts of the same address give the
//! same key.
use vstd::prelude::*;
use crate::text::{str_chars, push_char, push_decimal, decimal};

verus! {

pub open spec fn dec_digit(c: char) -> bool {
    '0' <= c && c <= '9'
}

pub open spec fn hex_digit(c: char) -> bool {
    dec_digit(c) || ('a' <= c && c <= 'f') || ('A' <= c && c <= 'F')
}

pub open spec fn radix_digit(c: char, hex: bool) -> bool {
    if hex { hex_digit(c) } else { dec_digit(c) }
}

/// The value of a digit character.
pub open spec fn digit_of(c: char) -> nat {
    if dec_digit(c) {
        (c as nat - '0' as nat) as nat
    } else if 'a' <= c && c <= 'f' {
        (c as nat - 'a' as nat + 10) as nat
    } else {
        (c as nat - 'A' as nat + 10) as nat
    }
}

pub open spec fn radix(hex: bool) -> nat {
    if hex { 16 } else { 10 }
}

/// The length of the run of digits starting at `p`.
pub open spec fn run_len(t: Seq<char>, p: int, hex: bool) -> nat
    decreases t.len() - p,
{
    if 0 <= p < t.len() && radix_digit(t[p], hex) {
        1 + run_len(t, p + 1, hex)
    } else {
        0
    }
}

/// The value of the `n` digits starting at `p`.
pub open spec fn run_value(t: Seq<char>, p: int, n: nat, hex: bool) -> nat
    decreases n,
{
    if n == 0 {
        0
    } else {
        run_value(t, p, (n - 1) as nat, hex) * radix(hex) + digit_of(t[p + n - 1])
    }
}

/// A decimal octet at `p` and where it ends: one to three digits, at most
/// 255, no leading zero before other digits.
pub open spec fn octet_at(t: Seq<char>, p: int) -> Option<(u8, int)> {
    let n = run_len(t, p, false);
    if n == 0 || n > 3 || run_value(t, p, n, false) > 255 || (n > 1 && t[p] == '0') {
        None
    } else {
        Some((run_value(t, p, n, false) as u8, p + n))
    }
}

/// A group of one to four hexadecimal digits at `p` and where it ends.
pub open spec fn hex_group_at(t: Seq<char>, p: int) -> Option<(u16, int)> {
    let n = run_len(t, p, true);
    if n == 0 || n > 4 {
        None
    } else {
        Some((run_value(t, p, n, true) as u16, p + n))
    }
}

/// Where the `i`-th item starts: after a separator unless it is the first.
pub open spec fn after_sep(t: Seq<char>, p: int, i: nat, sep: char) -> Option<int> {
    if i == 0 {
        Some(p)
    } else if 0 <= p < t.len() && t[p] == sep {
        Some(p + 1)
    } else {
        None
    }
}

/// The octets `i..4` of a dotted IPv4 address from `p`, and where it ends.
pub open spec fn ipv4_from(t: Seq<char>, p: int, i: nat) -> Option<(Seq<u8>, int)>
    decreases 4 - i,
{
    if i >= 4 {
        Some((Seq::empty(), p))
    } else {
        match after_sep(t, p, i, '.') {
            None => None,
            Some(q) => match octet_at(t, q) {
                None => None,
                Some((o, r)) => match ipv4_from(t, r, i + 1) {
                    None => None,
                    Some((os, e)) => Some((seq![o] + os, e)),
                },
            },
        }
    }
}

/// The two groups an embedded IPv4 address stands for.
pub open spec fn v4_groups(os: Seq<u8>) -> Seq<u16> {
    seq![(os[0] * 256 + os[1]) as u16, (os[2] * 256 + os[3]) as u16]
}

/// The groups `i..limit` of an IPv6 address from `p`: as many as read,
/// where reading stopped, and whether an embedded IPv4 address ended them
/// (tried before each group that leaves room for two).
pub open spec fn groups_from(t: Seq<char>, p: int, i: nat, limit: nat) -> (Seq<u16>, int, bool)
    decreases limit - i,
{
    if i >= limit {
        (Seq::empty(), p, false)
    } else {
        let v4 = if i + 1 < limit {
            match after_sep(t, p, i, ':') {
                Some(q) => ipv4_from(t, q, 0),
                None => None,
            }
        } else {
            None
        };
        match v4 {
            Some((os, e)) => (v4_groups(os), e, true),
            None => match after_sep(t, p, i, ':') {
                None => (Seq::empty(), p, false),
                Some(q) => match hex_group_at(t, q) {
                    None => (Seq::empty(), p, false),
                    Some((g, r)) => {
                        let rest = groups_from(t, r, i + 1, limit);
                        (seq![g] + rest.0, rest.1, rest.2)
                    },
                },
            },
        }
    }
}

/// The eight groups of an IPv6 address from `p` and where it ends: eight
/// groups read outright, or the groups before `::`, zeros, and the groups
/// after it.
pub open spec fn ipv6_at(t: Seq<char>, p: int) -> Option<(Seq<u16>, int)> {
    let h = groups_from(t, p, 0, 8);
    let head = h.0;
    let q = h.1;
    if head.len() == 8 {
        Some((head, q))
    } else if h.2 {
        None
    } else if 0 <= q && q + 1 < t.len() && t[q] == ':' && t[q + 1] == ':' {
        let limit = (8 - (head.len() + 1)) as nat;
        let tl = groups_from(t, q + 2, 0, limit);
        let tail = tl.0;
        Some((head + Seq::new((8 - head.len() - tail.len()) as nat, |i: int| 0u16) + tail, tl.1))
    } else {
        None
    }
}

/// An IP address.
pub enum IpValue {
    V4(Seq<u8>),
    V6(Seq<u16>),
}

/// The address a whole text is: IPv4 when it starts as one (and then it
/// must be all of it), else IPv6.
pub open spec fn ip_value(t: Seq<char>) -> Option<IpValue> {
    match ipv4_from(t, 0, 0) {
        Some((os, e)) => if e == t.len() { Some(IpValue::V4(os)) } else { None },
        None => match ipv6_at(t, 0) {
            Some((gs, e)) => if e == t.len() { Some(IpValue::V6(gs)) } else { None },
            None => None,
        },
    }
}

/// The lower-case hexadecimal digit of `d < 16`.
pub open spec fn hex_char(d: nat) -> char {
    if d < 10 { ((d + 48) as u32) as char } else { ((d + 87) as u32) as char }
}

/// The lower-case hexadecimal text of a number, without leading zeros.
pub open spec fn hex_text(n: nat) -> Seq<char>
    decreases n,
{
    if n < 16 {
        seq![hex_char(n)]
    } else {
        hex_text(n / 16).push(hex_char(n % 16))
    }
}

/// The octets in dotted decimal.
pub open spec fn v4_text(os: Seq<u8>) -> Seq<char> {
    decimal(os[0] as nat) + "."@ + decimal(os[1] as nat) + "."@ + decimal(os[2] as nat) + "."@ + decimal(os[3] as nat)
}

/// The groups `0..n` in hexadecimal, joined by `:`.
pub open spec fn v6_text(gs: Seq<u16>, n: nat) -> Seq<char>
    decreases n,
{
    if n == 0 {
        Seq::empty()
    } else if n == 1 {
        hex_text(gs[0] as nat)
    } else {
        v6_text(gs, (n - 1) as nat) + ":"@ + hex_text(gs[n - 1] as nat)
    }
}

/// The key an address is recorded under: IPv4 in dotted decimal, IPv6 as
/// its eight groups in lower-case hexadecimal.
pub open spec fn ip_key_text(v: IpValue) -> Seq<char> {
    match v {
        IpValue::V4(os) => v4_text(os),
        IpValue::V6(gs) => v6_text(gs, 8),
    }
}

// ---------------------------------------------------------------------------
// Lemmas
// ---------------------------------------------------------------------------

pub open spec fn radix_pow(hex: bool, k: nat) -> nat
    decreases k,
{
    if k == 0 { 1 } else { radix_pow(hex, (k - 1) as nat) * radix(hex) }
}

proof fn lemma_digit_bound(c: char, hex: bool)
    requires
        radix_digit(c, hex),
    ensures
        digit_of(c) < radix(hex),
{
}

proof fn lemma_run_value_bound(t: Seq<char>, p: int, k: nat, hex: bool)
    requires
        forall|j: int| p <= j < p + k ==> radix_digit(#[trigger] t[j], hex),
    ensures
        run_value(t, p, k, hex) < radix_pow(hex, k),
    decreases k,
{
    if k > 0 {
        lemma_run_value_bound(t, p, (k - 1) as nat, hex);
        lemma_digit_bound(t[p + k - 1], hex);
        let a = run_value(t, p, (k - 1) as nat, hex);
        let b = radix_pow(hex, (k - 1) as nat);
        if hex {
            assert(a * 16 + digit_of(t[p + k - 1]) < b * 16) by (nonlinear_arith)
                requires a < b, digit_of(t[p + k - 1]) < 16;
        } else {
            assert(a * 10 + digit_of(t[p + k - 1]) < b * 10) by (nonlinear_arith)
                requires a < b, digit_of(t[p + k - 1]) < 10;
        }
    }
}

proof fn lemma_run_digits(t: Seq<char>, p: int, hex: bool)
    requires
        0 <= p,
    ensures
        forall|j: int| p <= j < p + run_len(t, p, hex) ==> radix_digit(#[trigger] t[j], hex),
        p + run_len(t, p, hex) <= t.len() || run_len(t, p, hex) == 0,
        p + run_len(t, p, hex) < t.len() ==> !radix_digit(t[p + run_len(t, p, hex)], hex),
    decreases t.len() - p,
{
    if 0 <= p < t.len() && radix_digit(t[p], hex) {
        lemma_run_digits(t, p + 1, hex);
    }
}

proof fn lemma_pow_small(hex: bool)
    ensures
        radix_pow(hex, 3) <= 4096,
        radix_pow(hex, 4) <= 65536,
        radix_pow(hex, 0) == 1,
{
    let r = radix(hex);
    assert(radix_pow(hex, 0) == 1);
    assert(radix_pow(hex, 1) == r);
    assert(radix_pow(hex, 2) == r * r);
    assert(radix_pow(hex, 3) == r * r * r);
    assert(radix_pow(hex, 4) == r * r * r * r);
    if hex {
        assert(r * r * r * r == 65536) by (nonlinear_arith) requires r == 16;
        assert(r * r * r == 4096) by (nonlinear_arith) requires r == 16;
    } else {
        assert(r * r * r * r == 10000) by (nonlinear_arith) requires r == 10;
        assert(r * r * r == 1000) by (nonlinear_arith) requires r == 10;
    }
}

proof fn lemma_pow_mono(hex: bool, a: nat, b: nat)
    requires
        a <= b,
    ensures
        radix_pow(hex, a) <= radix_pow(hex, b),
    decreases b,
{
    if a < b {
        lemma_pow_mono(hex, a, (b - 1) as nat);
        let x = radix_pow(hex, (b - 1) as nat);
        let r = radix(hex);
        assert(x <= x * r) by (nonlinear_arith) requires r >= 1;
    }
}

// ---------------------------------------------------------------------------
// Executable code
// ---------------------------------------------------------------------------

fn radix_digit_exec(c: char, hex: bool) -> (b: bool)
    ensures
        b == radix_digit(c, hex),
{
    if hex {
        ('0' <= c && c <= '9') || ('a' <= c && c <= 'f') || ('A' <= c && c <= 'F')
    } else {
        '0' <= c && c <= '9'
    }
}

fn digit_of_exec(c: char) -> (d: u64)
    requires
        hex_digit(c),
    ensures
        d == digit_of(c),
{
    let u = c as u32;
    if '0' <= c && c <= '9' {
        (u - 48) as u64
    } else if 'a' <= c && c <= 'f' {
        (u - 87) as u64
    } else {
        (u - 55) as u64
    }
}

fn run_len_exec(v: &[char], p: usize, hex: bool) -> (n: usize)
    requires
        p <= v@.len(),
    ensures
        n == run_len(v@, p as int, hex),
        p + n <= v@.len(),
        p + n <= v.len(),
{
    let mut q: usize = p;
    while q < v.len() && radix_digit_exec(v[q], hex)
        invariant
            p <= q <= v@.len(),
            run_len(v@, p as int, hex) == (q - p) + run_len(v@, q as int, hex),
        decreases v@.len() - q,
    {
        q = q + 1;
    }
    q - p
}

/// The value of `n <= 4` digits at `p`.
fn run_value_exec(v: &[char], p: usize, n: usize, hex: bool) -> (r: u64)
    requires
        n <= 4,
        p + n <= v.len(),
        forall|j: int| p <= j < p + n ==> radix_digit(#[trigger] v@[j], hex),
    ensures
        r == run_value(v@, p as int, n as nat, hex),
{
    let mut val: u64 = 0;
    let mut k: usize = 0;
    proof {
        lemma_pow_small(hex);
    }
    while k < n
        invariant
            k <= n <= 4,
            p + n <= v.len(),
            forall|j: int| p <= j < p + n ==> radix_digit(#[trigger] v@[j], hex),
            val == run_value(v@, p as int, k as nat, hex),
            radix_pow(hex, 4) <= 65536,
        decreases n - k,
    {
        proof {
            lemma_run_value_bound(v@, p as int, k as nat, hex);
            lemma_pow_mono(hex, k as nat, 4);
        }
        let c = v[p + k];
        assert(radix_digit(v@[(p + k) as int], hex));
        let d = digit_of_exec(c);
        if hex {
            val = val * 16 + d;
        } else {
            val = val * 10 + d;
        }
        k = k + 1;
    }
    val
}

fn octet_at_exec(v: &[char], p: usize) -> (r: Option<(u8, usize)>)
    requires
        p <= v@.len(),
    ensures
        match octet_at(v@, p as int) {
            Some((o, e)) => r matches Some(x) && x.0 == o && x.1 as int == e,
            None => r is None,
        },
{
    let n = run_len_exec(v, p, false);
    proof {
        lemma_run_digits(v@, p as int, false);
    }
    if n == 0 || n > 3 {
        return None;
    }
    let val = run_value_exec(v, p, n, false);
    if val > 255 || (n > 1 && v[p] == '0') {
        return None;
    }
    Some((val as u8, p + n))
}

fn hex_group_at_exec(v: &[char], p: usize) -> (r: Option<(u16, usize)>)
    requires
        p <= v@.len(),
    ensures
        match hex_group_at(v@, p as int) {
            Some((g, e)) => r matches Some(x) && x.0 == g && x.1 as int == e,
            None => r is None,
        },
{
    let n = run_len_exec(v, p, true);
    proof {
        lemma_run_digits(v@, p as int, true);
    }
    if n == 0 || n > 4 {
        return None;
    }
    let val = run_value_exec(v, p, n, true);
    proof {
        lemma_pow_small(true);
        lemma_run_value_bound(v@, p as int, n as nat, true);
        lemma_pow_mono(true, n as nat, 4);
    }
    Some((val as u16, p + n))
}

fn after_sep_exec(v: &[char], p: usize, i: usize, sep: char) -> (r: Option<usize>)
    requires
        p <= v@.len(),
    ensures
        match after_sep(v@, p as int, i as nat, sep) {
            Some(q) => r matches Some(x) && x as int == q && q <= v@.len(),
            None => r is None,
        },
{
    if i == 0 {
        Some(p)
    } else if p < v.len() && v[p] == sep {
        Some(p + 1)
    } else {
        None
    }
}

fn ipv4_from_exec(v: &[char], p: usize, i: usize) -> (r: Option<(Vec<u8>, usize)>)
    requires
        p <= v@.len(),
        i <= 4,
    ensures
        match ipv4_from(v@, p as int, i as nat) {
            Some((os, e)) => r matches Some(x) && x.0@ == os && x.1 == e && e <= v@.len() && os.len() == 4 - i,
            None => r is None,
        },
    decreases 4 - i,
{
    if i >= 4 {
        return Some((Vec::new(), p));
    }
    let q = match after_sep_exec(v, p, i, '.') {
        Some(q) => q,
        None => { return None; },
    };
    let (o, r) = match octet_at_exec(v, q) {
        Some(x) => x,
        None => { return None; },
    };
    proof {
        lemma_run_digits(v@, q as int, false);
    }
    match ipv4_from_exec(v, r, i + 1) {
        Some((rest, e)) => {
            let mut os: Vec<u8> = Vec::new();
            os.push(o);
            let mut k: usize = 0;
            while k < rest.len()
                invariant
                    k <= rest@.len(),
                    os@ == seq![o] + rest@.take(k as int),
                decreases rest@.len() - k,
            {
                os.push(rest[k]);
                k = k + 1;
                proof {
                    assert(rest@.take(k as int) =~= rest@.take(k - 1).push(rest@[k - 1]));
                    assert(seq![o] + rest@.take(k as int) =~= (seq![o] + rest@.take(k - 1)).push(rest@[k - 1]));
                }
            }
            proof {
                assert(rest@.take(rest@.len() as int) =~= rest@);
            }
            Some((os, e))
        },
        None => None,
    }
}

proof fn lemma_groups_len(t: Seq<char>, p: int, i: nat, limit: nat)
    ensures
        groups_from(t, p, i, limit).0.len() + i <= (if i <= limit { limit } else { i }),
    decreases limit - i,
{
    if i < limit {
        let v4 = if i + 1 < limit {
            match after_sep(t, p, i, ':') {
                Some(q) => ipv4_from(t, q, 0),
                None => None,
            }
        } else {
            None
        };
        match v4 {
            Some(_) => {},
            None => match after_sep(t, p, i, ':') {
                None => {},
                Some(q) => match hex_group_at(t, q) {
                    None => {},
                    Some((g, r)) => {
                        lemma_groups_len(t, r, i + 1, limit);
                    },
                },
            },
        }
    }
}

fn groups_from_exec(v: &[char], p: usize, i: usize, limit: usize) -> (r: (Vec<u16>, usize, bool))
    requires
        p <= v@.len(),
        i <= limit <= 8,
    ensures
        r.0@ == groups_from(v@, p as int, i as nat, limit as nat).0,
        r.1 as int == groups_from(v@, p as int, i as nat, limit as nat).1,
        r.2 == groups_from(v@, p as int, i as nat, limit as nat).2,
        r.1 <= v@.len(),
    decreases limit - i,
{
    if i >= limit {
        return (Vec::new(), p, false);
    }
    let v4 = if i + 1 < limit {
        match after_sep_exec(v, p, i, ':') {
            Some(q) => ipv4_from_exec(v, q, 0),
            None => None,
        }
    } else {
        None
    };
    match v4 {
        Some((os, e)) => {
            let a: u16 = (os[0] as u16) * 256 + (os[1] as u16);
            let b: u16 = (os[2] as u16) * 256 + (os[3] as u16);
            assert(a == (os@[0] * 256 + os@[1]) as u16);
            assert(b == (os@[2] * 256 + os@[3]) as u16);
            let mut gs: Vec<u16> = Vec::new();
            gs.push(a);
            gs.push(b);
            proof {
                assert(gs@ =~= v4_groups(os@));
            }
            (gs, e, true)
        },
        None => {
            let q = match after_sep_exec(v, p, i, ':') {
                Some(q) => q,
                None => { return (Vec::new(), p, false); },
            };
            let (g, r) = match hex_group_at_exec(v, q) {
                Some(x) => x,
                None => { return (Vec::new(), p, false); },
            };
            proof {
                lemma_run_digits(v@, q as int, true);
            }
            let (rest, e, b) = groups_from_exec(v, r, i + 1, limit);
            let mut gs: Vec<u16> = Vec::new();
            gs.push(g);
            let mut k: usize = 0;
            while k < rest.len()
                invariant
                    k <= rest@.len(),
                    gs@ == seq![g] + rest@.take(k as int),
                decreases rest@.len() - k,
            {
                gs.push(rest[k]);
                k = k + 1;
                proof {
                    assert(rest@.take(k as int) =~= rest@.take(k - 1).push(rest@[k - 1]));
                    assert(seq![g] + rest@.take(k as int) =~= (seq![g] + rest@.take(k - 1)).push(rest@[k - 1]));
                }
            }
            proof {
                assert(rest@.take(rest@.len() as int) =~= rest@);
            }
            (gs, e, b)
        },
    }
}

fn ipv6_at_exec(v: &[char]) -> (r: Option<(Vec<u16>, usize)>)
    ensures
        match ipv6_at(v@, 0) {
            Some((gs, e)) => r matches Some(x) && x.0@ == gs && x.1 == e && gs.len() == 8,
            None => r is None,
        },
{
    let (head, q, h4) = groups_from_exec(v, 0, 0, 8);
    proof {
        lemma_groups_len(v@, 0, 0, 8);
    }
    if head.len() == 8 {
        return Some((head, q));
    }
    if h4 {
        return None;
    }
    if !(q < v.len() && v[q] == ':' && q + 1 < v.len() && v[q + 1] == ':') {
        return None;
    }
    let limit: usize = 8 - (head.len() + 1);
    let (tail, e, _) = groups_from_exec(v, q + 2, 0, limit);
    proof {
        lemma_groups_len(v@, (q + 2) as int, 0, limit as nat);
    }
    let zeros: usize = 8 - head.len() - tail.len();
    let mut gs: Vec<u16> = Vec::new();
    let mut k: usize = 0;
    while k < head.len()
        invariant
            k <= head@.len(),
            gs@ == head@.take(k as int),
        decreases head@.len() - k,
    {
        gs.push(head[k]);
        k = k + 1;
        proof {
            assert(head@.take(k as int) =~= head@.take(k - 1).push(head@[k - 1]));
        }
    }
    let ghost z = Seq::new(zeros as nat, |i: int| 0u16);
    let mut j: usize = 0;
    proof {
        assert(head@.take(head@.len() as int) =~= head@);
    }
    while j < zeros
        invariant
            j <= zeros,
            z == Seq::new(zeros as nat, |i: int| 0u16),
            gs@ == head@ + z.take(j as int),
        decreases zeros - j,
    {
        gs.push(0);
        j = j + 1;
        proof {
            assert(z.take(j as int) =~= z.take(j - 1).push(0u16));
            assert(head@ + z.take(j as int) =~= (head@ + z.take(j - 1)).push(0u16));
        }
    }
    let mut m: usize = 0;
    proof {
        assert(z.take(zeros as int) =~= z);
    }
    while m < tail.len()
        invariant
            m <= tail@.len(),
            gs@ == head@ + z + tail@.take(m as int),
        decreases tail@.len() - m,
    {
        gs.push(tail[m]);
        m = m + 1;
        proof {
            assert(tail@.take(m as int) =~= tail@.take(m - 1).push(tail@[m - 1]));
            assert(head@ + z + tail@.take(m as int) =~= (head@ + z + tail@.take(m - 1)).push(tail@[m - 1]));
        }
    }
    proof {
        assert(tail@.take(tail@.len() as int) =~= tail@);
    }
    Some((gs, e))
}

fn push_hex(s: &mut String, n: u64)
    ensures
        final(s)@ == old(s)@ + hex_text(n as nat),
    decreases n,
{
    if n >= 16 {
        push_hex(s, n / 16);
    }
    let d: u8 = (n % 16) as u8;
    let c: char = if d < 10 { (d + 48) as char } else { (d + 87) as char };
    push_char(s, c);
    proof {
        if n >= 16 {
            assert(hex_text(n as nat) == hex_text((n / 16) as nat).push(hex_char((n % 16) as nat)));
        }
    }
}

/// The key a client address text is recorded under: the address in dotted
/// decimal (IPv4) or as eight lower-case hexadecimal groups (IPv6); `None`
/// when the text is not an IP address.
pub fn ip_key(text: &str) -> (r: Option<String>)
    ensures
        match ip_value(text@) {
            Some(v) => r matches Some(k) && k@ == ip_key_text(v),
            None => r is None,
        },
{
    let v = str_chars(text);
    match ipv4_from_exec(&v, 0, 0) {
        Some((os, e)) => {
            if e != v.len() {
                return None;
            }
            let mut s = String::new();
            push_decimal(&mut s, os[0] as u64);
            push_char(&mut s, '.');
            push_decimal(&mut s, os[1] as u64);
            push_char(&mut s, '.');
            push_decimal(&mut s, os[2] as u64);
            push_char(&mut s, '.');
            push_decimal(&mut s, os[3] as u64);
            proof {
                reveal_strlit(".");
                assert(s@ =~= v4_text(os@));
            }
            return Some(s);
        },
        None => {},
    }
    match ipv6_at_exec(&v) {
        Some((gs, e)) => {
            if e != v.len() {
                return None;
            }
            let mut s = String::new();
            let mut i: usize = 0;
            while i < 8
                invariant
                    i <= 8,
                    gs@.len() == 8,
                    s@ == v6_text(gs@, i as nat),
                decreases 8 - i,
            {
                if i > 0 {
                    push_char(&mut s, ':');
                }
                push_hex(&mut s, gs[i] as u64);
                i = i + 1;
                proof {
                    reveal_strlit(":");
                    if i > 1 {
                        assert(s@ =~= v6_text(gs@, (i - 1) as nat) + ":"@ + hex_text(gs@[i - 1] as nat));
                    }
                }
            }
            Some(s)
        },
        None => None,
    }
}

} // verus!
