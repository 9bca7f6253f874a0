//! The claims payload of a session token: a fixed-shape object holding the
//! subject email and the absolute expiry timestamp.
//!
//! `spec_claims` fixes the payload bytes; the parser accepts exactly the
//! images of `spec_claims`, so a payload parses to `(sub, exp)` if and only
//! if it is `spec_claims(sub, exp)`.

use vstd::prelude::*;

verus! {

/// Appends `pat` to `out`.
pub fn push_bytes(out: &mut Vec<u8>, pat: &[u8])
    ensures
        final(out)@ == old(out)@ + pat@,
{
    let n = pat.len();
    let mut i: usize = 0;
    while i < n
        invariant
            0 <= i <= n,
            n == pat@.len(),
            out@ == old(out)@ + pat@.subrange(0, i as int),
        decreases n - i,
    {
        out.push(pat[i]);
        proof {
            assert(out@ =~= old(out)@ + pat@.subrange(0, i as int + 1));
        }
        i = i + 1;
    }
    proof {
        assert(old(out)@ + pat@.subrange(0, n as int) =~= old(out)@ + pat@);
    }
}

/// Copies `b[i..j]` into a fresh vector.
pub fn copy_range(b: &[u8], i: usize, j: usize) -> (r: Vec<u8>)
    requires
        0 <= i <= j <= b@.len(),
    ensures
        r@ == b@.subrange(i as int, j as int),
{
    let mut v: Vec<u8> = Vec::new();
    let mut k: usize = i;
    proof {
        assert(v@ =~= b@.subrange(i as int, i as int));
    }
    while k < j
        invariant
            i <= k <= j,
            j <= b@.len(),
            v@ == b@.subrange(i as int, k as int),
        decreases j - k,
    {
        v.push(b[k]);
        proof {
            assert(v@ =~= b@.subrange(i as int, k as int + 1));
        }
        k = k + 1;
    }
    v
}

/// Whether the byte is an ASCII decimal digit.
pub open spec fn is_digit(b: u8) -> bool {
    0x30 <= b && b <= 0x39
}

/// The canonical decimal image of a non-negative number: no sign, no
/// leading zero except for zero itself.
pub open spec fn spec_dec(n: int) -> Seq<u8>
    decreases n,
{
    if n < 10 {
        seq![(0x30 + n) as u8]
    } else {
        spec_dec(n / 10).push((0x30 + n % 10) as u8)
    }
}

/// The number a digit string denotes.
pub open spec fn dec_val(t: Seq<u8>) -> int
    decreases t.len(),
{
    if t.len() == 0 {
        0
    } else {
        dec_val(t.drop_last()) * 10 + (t.last() - 0x30)
    }
}

/// Whether a byte string is a canonical decimal image: digits only,
/// non-empty, and no superfluous leading zero.
pub open spec fn canonical_dec(t: Seq<u8>) -> bool {
    &&& t.len() > 0
    &&& forall|i: int| 0 <= i < t.len() ==> is_digit(#[trigger] t[i])
    &&& (t[0] != 0x30 || t.len() == 1)
}

proof fn lemma_dec_val_nonneg(t: Seq<u8>)
    requires
        forall|i: int| 0 <= i < t.len() ==> is_digit(#[trigger] t[i]),
    ensures
        dec_val(t) >= 0,
    decreases t.len(),
{
    if t.len() > 0 {
        lemma_dec_val_nonneg(t.drop_last());
        assert(dec_val(t.drop_last()) * 10 >= 0) by (nonlinear_arith)
            requires
                dec_val(t.drop_last()) >= 0,
        ;
    }
}

proof fn lemma_dec_val_pos(t: Seq<u8>)
    requires
        forall|i: int| 0 <= i < t.len() ==> is_digit(#[trigger] t[i]),
        t.len() > 0,
        t[0] != 0x30,
    ensures
        dec_val(t) >= 1,
    decreases t.len(),
{
    if t.len() == 1 {
    } else {
        assert(t.drop_last()[0] == t[0]);
        lemma_dec_val_pos(t.drop_last());
        assert(dec_val(t.drop_last()) * 10 >= 10) by (nonlinear_arith)
            requires
                dec_val(t.drop_last()) >= 1,
        ;
        assert(t.last() - 0x30 >= 0);
    }
}

/// The canonical image of `n` denotes `n` and is canonical.
pub proof fn lemma_spec_dec_canonical(n: int)
    requires
        n >= 0,
    ensures
        canonical_dec(spec_dec(n)),
        dec_val(spec_dec(n)) == n,
        spec_dec(n).len() >= 1,
    decreases n,
{
    if n < 10 {
        assert(spec_dec(n).drop_last() =~= Seq::<u8>::empty());
        assert(dec_val(Seq::<u8>::empty()) == 0);
    } else {
        lemma_spec_dec_canonical(n / 10);
        vstd::arithmetic::div_mod::lemma_fundamental_div_mod(n, 10);
        let t = spec_dec(n);
        let t0 = spec_dec(n / 10);
        assert(t == t0.push((0x30 + n % 10) as u8));
        assert(t.drop_last() =~= t0);
        assert(dec_val(t) == dec_val(t0) * 10 + (n % 10));
        assert(forall|i: int| 0 <= i < t.len() ==> is_digit(#[trigger] t[i])) by {
            assert(forall|i: int| 0 <= i < t0.len() ==> t[i] == #[trigger] t0[i]);
        }
        assert(n / 10 >= 1);
        assert(t0[0] != 0x30) by {
            if n / 10 >= 10 {
                lemma_spec_dec_canonical(n / 10 / 10);
                assert(t0 == spec_dec(n / 10 / 10).push((0x30 + (n / 10) % 10) as u8));
                assert(t0.len() >= 2);
            } else {
                assert(t0[0] == (0x30 + n / 10) as u8);
            }
        }
        assert(t[0] == t0[0]);
    }
}

/// Only the canonical image of `n` denotes `n`.
pub proof fn lemma_canonical_dec_inverse(t: Seq<u8>)
    requires
        canonical_dec(t),
    ensures
        spec_dec(dec_val(t)) == t,
        dec_val(t) >= 0,
    decreases t.len(),
{
    lemma_dec_val_nonneg(t);
    if t.len() == 1 {
        assert(t.drop_last() =~= Seq::<u8>::empty());
        assert(dec_val(Seq::<u8>::empty()) == 0);
        assert(dec_val(t) == 0 * 10 + (t.last() - 0x30));
        assert(t.last() == t[0]);
        assert(spec_dec(dec_val(t)) =~= t);
    } else {
        let t0 = t.drop_last();
        assert(t0[0] == t[0]);
        assert(forall|i: int| 0 <= i < t0.len() ==> is_digit(#[trigger] t0[i])) by {
            assert(forall|i: int| 0 <= i < t0.len() ==> t0[i] == #[trigger] t[i]);
        }
        assert(t[0] != 0x30);
        lemma_canonical_dec_inverse(t0);
        lemma_dec_val_pos(t0);
        let v0 = dec_val(t0);
        let d = t.last() - 0x30;
        assert(dec_val(t) == v0 * 10 + d);
        assert(v0 * 10 + d >= 10 && (v0 * 10 + d) / 10 == v0 && (v0 * 10 + d) % 10 == d)
            by (nonlinear_arith)
            requires
                v0 >= 1 && 0 <= d < 10,
        ;
        assert(spec_dec(dec_val(t)) == spec_dec(v0).push((0x30 + d) as u8));
        assert(spec_dec(dec_val(t)) =~= t);
    }
}

/// Appends the canonical decimal image of `n`.
pub fn push_dec_u64(n: u64, out: &mut Vec<u8>)
    ensures
        final(out)@ == old(out)@ + spec_dec(n as int),
    decreases n,
{
    if n < 10 {
        out.push(0x30 + (n as u8));
        proof {
            assert(out@ =~= old(out)@ + spec_dec(n as int));
        }
    } else {
        push_dec_u64(n / 10, out);
        out.push(0x30 + ((n % 10) as u8));
        proof {
            assert(out@ =~= old(out)@ + spec_dec(n as int));
        }
    }
}

/// Reads a canonical decimal image; anything else, and any value above
/// `u64::MAX`, is rejected.
pub fn parse_dec_u64(t: &[u8]) -> (r: Option<u64>)
    ensures
        match r {
            Some(n) => t@ == spec_dec(n as int),
            None => forall|e: u64| t@ != spec_dec(e as int),
        },
{
    let n = t.len();
    if n == 0 {
        proof {
            assert forall|e: u64| t@ != spec_dec(e as int) by {
                lemma_spec_dec_canonical(e as int);
            }
        }
        return None;
    }
    if n > 1 && t[0] == 0x30 {
        proof {
            assert forall|e: u64| t@ != spec_dec(e as int) by {
                lemma_spec_dec_canonical(e as int);
            }
        }
        return None;
    }
    let mut val: u64 = 0;
    let mut i: usize = 0;
    while i < n
        invariant
            0 <= i <= n,
            n == t@.len(),
            n > 0,
            n > 1 ==> t@[0] != 0x30,
            forall|k: int| 0 <= k < i ==> is_digit(#[trigger] t@[k]),
            val == dec_val(t@.subrange(0, i as int)),
        decreases n - i,
    {
        let b = t[i];
        if b < 0x30 || b > 0x39 {
            proof {
                assert forall|e: u64| t@ != spec_dec(e as int) by {
                    lemma_spec_dec_canonical(e as int);
                }
            }
            return None;
        }
        let d = b - 0x30;
        proof {
            assert(t@.subrange(0, i as int + 1).drop_last() =~= t@.subrange(0, i as int));
        }
        if val > (u64::MAX - (d as u64)) / 10 {
            proof {
                let pre = t@.subrange(0, i as int + 1);
                assert(dec_val(pre) == val * 10 + d);
                assert(val * 10 + d > u64::MAX) by (nonlinear_arith)
                    requires
                        val > (u64::MAX - (d as u64)) / 10 && 0 <= d < 10,
                ;
                assert forall|e: u64| t@ != spec_dec(e as int) by {
                    if t@ == spec_dec(e as int) {
                        lemma_spec_dec_canonical(e as int);
                        lemma_dec_prefix_bound(t@, i as int + 1);
                        assert(dec_val(t@) == e as int);
                        assert(dec_val(t@) >= dec_val(pre));
                    }
                }
            }
            return None;
        }
        val = val * 10 + (d as u64);
        i = i + 1;
    }
    proof {
        assert(t@.subrange(0, n as int) =~= t@);
        assert(canonical_dec(t@));
        lemma_canonical_dec_inverse(t@);
    }
    Some(val)
}

/// The escaped image of the subject bytes: a backslash or double quote is
/// preceded by a backslash, everything else passes through.
pub open spec fn spec_esc(s: Seq<u8>) -> Seq<u8>
    decreases s.len(),
{
    if s.len() == 0 {
        Seq::empty()
    } else {
        (if s[0] == 0x22 || s[0] == 0x5c {
            seq![0x5cu8, s[0]]
        } else {
            seq![s[0]]
        }) + spec_esc(s.drop_first())
    }
}

/// Scanning an escaped region: the subject bytes before the first unescaped
/// double quote, and the index of that quote; nothing when the region is
/// unterminated or holds an unknown escape.
pub open spec fn spec_scan(b: Seq<u8>) -> Option<(Seq<u8>, int)>
    decreases b.len(),
{
    if b.len() == 0 {
        None
    } else if b[0] == 0x22 {
        Some((Seq::empty(), 0int))
    } else if b[0] == 0x5c {
        if b.len() >= 2 && (b[1] == 0x5c || b[1] == 0x22) {
            match spec_scan(b.skip(2)) {
                Some(p) => Some((seq![b[1]] + p.0, p.1 + 2)),
                None => None,
            }
        } else {
            None
        }
    } else {
        match spec_scan(b.skip(1)) {
            Some(p) => Some((seq![b[0]] + p.0, p.1 + 1)),
            None => None,
        }
    }
}

/// Scanning an escaped image followed by a quote recovers exactly the
/// subject.
pub proof fn lemma_scan_esc(s: Seq<u8>, rest: Seq<u8>)
    ensures
        spec_scan(spec_esc(s) + seq![0x22u8] + rest) == Some((s, spec_esc(s).len() as int)),
    decreases s.len(),
{
    let b = spec_esc(s) + seq![0x22u8] + rest;
    if s.len() == 0 {
        assert(spec_esc(s) =~= Seq::<u8>::empty());
        assert(b[0] == 0x22);
        assert(s =~= Seq::<u8>::empty());
    } else {
        lemma_scan_esc(s.drop_first(), rest);
        if s[0] == 0x22 || s[0] == 0x5c {
            assert(b[0] == 0x5c && b[1] == s[0]);
            assert(b.len() >= 2);
            assert(b.skip(2) =~= spec_esc(s.drop_first()) + seq![0x22u8] + rest);
            assert(seq![b[1]] + s.drop_first() =~= s);
        } else {
            assert(b[0] == s[0]);
            assert(b.skip(1) =~= spec_esc(s.drop_first()) + seq![0x22u8] + rest);
            assert(seq![b[0]] + s.drop_first() =~= s);
        }
    }
}

/// What a successful scan says of the region: the quote really stands at
/// the reported index, and everything before it is the escaped image of the
/// recovered subject.
pub proof fn lemma_scan_sound(b: Seq<u8>)
    requires
        spec_scan(b) is Some,
    ensures
        ({
            let p = spec_scan(b)->Some_0;
            &&& 0 <= p.1 < b.len()
            &&& b[p.1] == 0x22
            &&& b.take(p.1) == spec_esc(p.0)
        }),
    decreases b.len(),
{
    let p = spec_scan(b)->Some_0;
    if b[0] == 0x22 {
        assert(b.take(0) =~= spec_esc(p.0));
    } else if b[0] == 0x5c {
        lemma_scan_sound(b.skip(2));
        let q = spec_scan(b.skip(2))->Some_0;
        assert(b[p.1] == b.skip(2)[q.1]);
        assert(b.take(p.1) =~= seq![0x5cu8, b[1]] + b.skip(2).take(q.1));
        assert(p.0 == seq![b[1]] + q.0);
        assert(p.0.drop_first() =~= q.0);
        assert(p.0[0] == b[1]);
        assert(spec_esc(p.0) == seq![0x5cu8, b[1]] + spec_esc(q.0));
        assert(b.take(p.1) =~= spec_esc(p.0));
    } else {
        lemma_scan_sound(b.skip(1));
        let q = spec_scan(b.skip(1))->Some_0;
        assert(b[p.1] == b.skip(1)[q.1]);
        assert(b.take(p.1) =~= seq![b[0]] + b.skip(1).take(q.1));
        assert(p.0 == seq![b[0]] + q.0);
        assert(p.0.drop_first() =~= q.0);
        assert(p.0[0] == b[0]);
        assert(b[0] != 0x22 && b[0] != 0x5c);
        assert(spec_esc(p.0) == seq![b[0]] + spec_esc(q.0));
        assert(b.take(p.1) =~= spec_esc(p.0));
    }
}

/// One unfolding step of `spec_scan`, phrased over positions in a larger
/// region.
proof fn lemma_scan_step(b: Seq<u8>, i: int)
    requires
        0 <= i < b.len(),
    ensures
        b[i] == 0x22 ==> spec_scan(b.skip(i)) == Some((Seq::<u8>::empty(), 0int)),
        b[i] != 0x22 && b[i] != 0x5c ==> spec_scan(b.skip(i)) == (match spec_scan(b.skip(i + 1)) {
            Some(p) => Some((seq![b[i]] + p.0, p.1 + 1)),
            None => None,
        }),
        b[i] == 0x5c && i + 1 < b.len() && (b[i + 1] == 0x5c || b[i + 1] == 0x22) ==> spec_scan(
            b.skip(i),
        ) == (match spec_scan(b.skip(i + 2)) {
            Some(p) => Some((seq![b[i + 1]] + p.0, p.1 + 2)),
            None => None,
        }),
        b[i] == 0x5c && (i + 1 >= b.len() || (b[i + 1] != 0x5c && b[i + 1] != 0x22))
            ==> spec_scan(b.skip(i)) is None,
{
    let r = b.skip(i);
    assert(r[0] == b[i]);
    assert(r.len() == b.len() - i);
    if i + 1 < b.len() {
        assert(r[1] == b[i + 1]);
    }
    assert(r.skip(1) =~= b.skip(i + 1));
    if i + 2 <= b.len() {
        assert(r.skip(2) =~= b.skip(i + 2));
    }
}

/// Reads the escaped region of `b` from `start`: the unescaped subject and
/// the index of the closing quote.
fn scan_sub(b: &[u8], start: usize) -> (r: Option<(Vec<u8>, usize)>)
    requires
        start <= b@.len(),
    ensures
        match r {
            Some(p) => start <= p.1 < b@.len() && spec_scan(b@.skip(start as int)) == Some(
                (p.0@, p.1 - start as int),
            ),
            None => spec_scan(b@.skip(start as int)) is None,
        },
{
    let n = b.len();
    let mut i: usize = start;
    let mut sub: Vec<u8> = Vec::new();
    proof {
        assert(sub@ =~= Seq::<u8>::empty());
    }
    while i < n
        invariant
            start <= i <= n,
            n == b@.len(),
            match spec_scan(b@.skip(i as int)) {
                Some(p) => spec_scan(b@.skip(start as int)) == Some(
                    (sub@ + p.0, p.1 + i - start as int),
                ),
                None => spec_scan(b@.skip(start as int)) is None,
            },
        decreases n - i,
    {
        let c = b[i];
        proof {
            lemma_scan_step(b@, i as int);
        }
        if c == 0x22 {
            proof {
                assert(sub@ + Seq::<u8>::empty() =~= sub@);
            }
            return Some((sub, i));
        } else if c == 0x5c {
            if i + 1 >= n {
                return None;
            }
            let c2 = b[i + 1];
            if c2 != 0x5c && c2 != 0x22 {
                return None;
            }
            let ghost sub0 = sub@;
            sub.push(c2);
            proof {
                if spec_scan(b@.skip(i as int + 2)) is Some {
                    let p = spec_scan(b@.skip(i as int + 2))->Some_0;
                    assert(sub0 + (seq![b@[i as int + 1]] + p.0) =~= sub@ + p.0);
                }
            }
            i = i + 2;
        } else {
            let ghost sub0 = sub@;
            sub.push(c);
            proof {
                if spec_scan(b@.skip(i as int + 1)) is Some {
                    let p = spec_scan(b@.skip(i as int + 1))->Some_0;
                    assert(sub0 + (seq![b@[i as int]] + p.0) =~= sub@ + p.0);
                }
            }
            i = i + 1;
        }
    }
    proof {
        assert(b@.skip(i as int).len() == 0);
    }
    None
}

/// A longer digit string never denotes less than its prefix.
proof fn lemma_dec_prefix_bound(t: Seq<u8>, i: int)
    requires
        0 <= i <= t.len(),
        forall|k: int| 0 <= k < t.len() ==> is_digit(#[trigger] t[k]),
    ensures
        dec_val(t) >= dec_val(t.subrange(0, i)),
    decreases t.len() - i,
{
    if i == t.len() {
        assert(t.subrange(0, i) =~= t);
    } else {
        lemma_dec_prefix_bound(t, i + 1);
        let p = t.subrange(0, i);
        let q = t.subrange(0, i + 1);
        assert(q.drop_last() =~= p);
        assert(forall|k: int| 0 <= k < p.len() ==> is_digit(#[trigger] p[k])) by {
            assert(forall|k: int| 0 <= k < p.len() ==> p[k] == #[trigger] t[k]);
        }
        lemma_dec_val_nonneg(p);
        assert(dec_val(q) == dec_val(p) * 10 + (q.last() - 0x30));
        assert(dec_val(p) * 10 >= dec_val(p)) by (nonlinear_arith)
            requires
                dec_val(p) >= 0,
        ;
        assert(q.last() - 0x30 >= 0);
    }
}

/// The bytes of `{"sub":"`.
pub open spec fn claims_prefix() -> Seq<u8> {
    seq![0x7bu8, 0x22, 0x73, 0x75, 0x62, 0x22, 0x3a, 0x22]
}

/// The bytes of `","exp":`.
pub open spec fn claims_mid() -> Seq<u8> {
    seq![0x22u8, 0x2c, 0x22, 0x65, 0x78, 0x70, 0x22, 0x3a]
}

/// The claims payload: `{"sub":"<escaped subject>","exp":<decimal>}`.
pub open spec fn spec_claims(sub: Seq<u8>, exp: u64) -> Seq<u8> {
    claims_prefix() + spec_esc(sub) + claims_mid() + spec_dec(exp as int) + seq![0x7du8]
}

/// Where each part of a claims payload stands.
pub proof fn lemma_claims_structure(sub: Seq<u8>, exp: u64)
    ensures
        ({
            let c = spec_claims(sub, exp);
            let q = 8 + spec_esc(sub).len() as int;
            &&& c.len() == q + 8 + spec_dec(exp as int).len() + 1
            &&& c.len() >= 18
            &&& c.subrange(0, 8) == claims_prefix()
            &&& spec_scan(c.skip(8)) == Some((sub, spec_esc(sub).len() as int))
            &&& c.subrange(q, q + 8) == claims_mid()
            &&& c.subrange(q + 8, c.len() - 1) == spec_dec(exp as int)
            &&& c[c.len() - 1] == 0x7d
        }),
{
    let c = spec_claims(sub, exp);
    let esc = spec_esc(sub);
    let dec = spec_dec(exp as int);
    let q = 8 + esc.len() as int;
    lemma_spec_dec_canonical(exp as int);
    assert(c.len() == q + 8 + dec.len() + 1);
    assert(c.subrange(0, 8) =~= claims_prefix());
    assert(c.skip(8) =~= esc + seq![0x22u8] + (claims_mid().skip(1) + dec + seq![0x7du8]));
    lemma_scan_esc(sub, claims_mid().skip(1) + dec + seq![0x7du8]);
    assert(c.subrange(q, q + 8) =~= claims_mid());
    assert(c.subrange(q + 8, c.len() - 1) =~= dec);
    assert(c[c.len() - 1] == 0x7d);
}

/// No two distinct subject-expiry pairs share a payload.
pub proof fn lemma_claims_injective(s1: Seq<u8>, e1: u64, s2: Seq<u8>, e2: u64)
    requires
        spec_claims(s1, e1) == spec_claims(s2, e2),
    ensures
        s1 == s2,
        e1 == e2,
{
    lemma_claims_structure(s1, e1);
    lemma_claims_structure(s2, e2);
    let c = spec_claims(s1, e1);
    assert(spec_esc(s1).len() == spec_esc(s2).len());
    assert(c.subrange(8 + spec_esc(s1).len() as int + 8, c.len() - 1) == spec_dec(e1 as int));
    assert(spec_dec(e1 as int) == spec_dec(e2 as int));
    lemma_spec_dec_canonical(e1 as int);
    lemma_spec_dec_canonical(e2 as int);
    assert(dec_val(spec_dec(e1 as int)) == dec_val(spec_dec(e2 as int)));
}

/// Appends the escaped image of `sub`.
pub fn push_escaped(sub: &[u8], out: &mut Vec<u8>)
    ensures
        final(out)@ == old(out)@ + spec_esc(sub@),
{
    let n = sub.len();
    let mut i: usize = 0;
    let ghost mut emitted = Seq::<u8>::empty();
    proof {
        assert(out@ =~= old(out)@ + emitted);
        assert(sub@.skip(0) =~= sub@);
    }
    while i < n
        invariant
            0 <= i <= n,
            n == sub@.len(),
            out@ == old(out)@ + emitted,
            spec_esc(sub@) == emitted + spec_esc(sub@.skip(i as int)),
        decreases n - i,
    {
        let c = sub[i];
        let ghost rest = sub@.skip(i as int);
        proof {
            assert(rest[0] == c);
            assert(rest.drop_first() =~= sub@.skip(i as int + 1));
        }
        if c == 0x22 || c == 0x5c {
            out.push(0x5c);
            out.push(c);
            proof {
                emitted = emitted + seq![0x5cu8, c];
            }
        } else {
            out.push(c);
            proof {
                emitted = emitted + seq![c];
            }
        }
        proof {
            assert(out@ =~= old(out)@ + emitted);
            assert(emitted + spec_esc(sub@.skip(i as int + 1)) =~= spec_esc(sub@));
        }
        i = i + 1;
    }
    proof {
        assert(spec_esc(sub@.skip(n as int)) =~= Seq::<u8>::empty());
        assert(emitted + spec_esc(sub@.skip(n as int)) =~= emitted);
    }
}

/// Appends the claims payload for `sub` and `exp`.
pub fn push_claims(sub: &[u8], exp: u64, out: &mut Vec<u8>)
    ensures
        final(out)@ == old(out)@ + spec_claims(sub@, exp),
{
    let prefix: Vec<u8> = vec![0x7b, 0x22, 0x73, 0x75, 0x62, 0x22, 0x3a, 0x22];
    let mid: Vec<u8> = vec![0x22, 0x2c, 0x22, 0x65, 0x78, 0x70, 0x22, 0x3a];
    proof {
        assert(prefix@ =~= claims_prefix());
        assert(mid@ =~= claims_mid());
    }
    push_bytes(out, prefix.as_slice());
    push_escaped(sub, out);
    push_bytes(out, mid.as_slice());
    push_dec_u64(exp, out);
    out.push(0x7d);
    proof {
        assert(out@ =~= old(out)@ + spec_claims(sub@, exp));
    }
}

/// Whether `pat` stands in `b` at offset `i`.
fn match_at(b: &[u8], i: usize, pat: &[u8]) -> (r: bool)
    requires
        i + pat@.len() <= b@.len(),
    ensures
        r == (b@.subrange(i as int, i as int + pat@.len()) == pat@),
{
    let m = pat.len();
    let bn = b.len();
    let mut k: usize = 0;
    while k < m
        invariant
            0 <= k <= m,
            m == pat@.len(),
            bn == b@.len(),
            i + m <= bn,
            forall|j: int| 0 <= j < k ==> b@[i + j] == pat@[j],
        decreases m - k,
    {
        if b[i + k] != pat[k] {
            proof {
                assert(b@.subrange(i as int, i as int + pat@.len())[k as int] == b@[i + k]);
            }
            return false;
        }
        k = k + 1;
    }
    proof {
        assert(b@.subrange(i as int, i as int + pat@.len()) =~= pat@);
    }
    true
}

/// Reads a claims payload; anything but an exact image of `spec_claims` is
/// rejected.
pub fn parse_claims(b: &[u8]) -> (r: Option<(Vec<u8>, u64)>)
    ensures
        match r {
            Some(p) => b@ == spec_claims(p.0@, p.1),
            None => forall|s: Seq<u8>, e: u64| b@ != spec_claims(s, e),
        },
{
    let n = b.len();
    let prefix: Vec<u8> = vec![0x7b, 0x22, 0x73, 0x75, 0x62, 0x22, 0x3a, 0x22];
    proof {
        assert(prefix@ =~= claims_prefix());
    }
    if n < 8 {
        proof {
            assert forall|s: Seq<u8>, e: u64| b@ != spec_claims(s, e) by {
                if b@ == spec_claims(s, e) {
                    lemma_claims_structure(s, e);
                }
            }
        }
        return None;
    }
    if !match_at(b, 0, prefix.as_slice()) {
        proof {
            assert forall|s: Seq<u8>, e: u64| b@ != spec_claims(s, e) by {
                if b@ == spec_claims(s, e) {
                    lemma_claims_structure(s, e);
                }
            }
        }
        return None;
    }
    let scanned = scan_sub(b, 8);
    if scanned.is_none() {
        proof {
            assert forall|s: Seq<u8>, e: u64| b@ != spec_claims(s, e) by {
                if b@ == spec_claims(s, e) {
                    lemma_claims_structure(s, e);
                }
            }
        }
        return None;
    }
    let (sub, q) = scanned.unwrap();
    proof {
        assert forall|s: Seq<u8>, e: u64| b@ == spec_claims(s, e) implies sub@ == s && q as int
            == 8 + spec_esc(s).len() by {
            lemma_claims_structure(s, e);
        }
    }
    if n - q < 10 {
        proof {
            assert forall|s: Seq<u8>, e: u64| b@ != spec_claims(s, e) by {
                if b@ == spec_claims(s, e) {
                    lemma_claims_structure(s, e);
                    lemma_spec_dec_canonical(e as int);
                }
            }
        }
        return None;
    }
    let mid: Vec<u8> = vec![0x22, 0x2c, 0x22, 0x65, 0x78, 0x70, 0x22, 0x3a];
    proof {
        assert(mid@ =~= claims_mid());
    }
    if !match_at(b, q, mid.as_slice()) {
        proof {
            assert forall|s: Seq<u8>, e: u64| b@ != spec_claims(s, e) by {
                if b@ == spec_claims(s, e) {
                    lemma_claims_structure(s, e);
                }
            }
        }
        return None;
    }
    if b[n - 1] != 0x7d {
        proof {
            assert forall|s: Seq<u8>, e: u64| b@ != spec_claims(s, e) by {
                if b@ == spec_claims(s, e) {
                    lemma_claims_structure(s, e);
                }
            }
        }
        return None;
    }
    let decr = copy_range(b, q + 8, n - 1);
    match parse_dec_u64(decr.as_slice()) {
        Some(exp) => {
            proof {
                lemma_scan_sound(b@.skip(8));
                assert(b@.skip(8).take(q as int - 8) =~= b@.subrange(8, q as int));
                assert(b@.subrange(8, q as int) == spec_esc(sub@));
                assert(b@ =~= b@.subrange(0, 8) + b@.subrange(8, q as int) + b@.subrange(
                    q as int,
                    q as int + 8,
                ) + b@.subrange(q as int + 8, n - 1) + seq![b@[n - 1]]);
                assert(b@ == spec_claims(sub@, exp));
            }
            Some((sub, exp))
        },
        None => {
            proof {
                assert forall|s: Seq<u8>, e: u64| b@ != spec_claims(s, e) by {
                    if b@ == spec_claims(s, e) {
                        lemma_claims_structure(s, e);
                        assert(b@.subrange(q as int + 8, n - 1) == spec_dec(e as int));
                    }
                }
            }
            None
        },
    }
}

} // verus!
