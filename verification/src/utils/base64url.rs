//! Unpadded base64url over bytes.
//!
//! `spec_b64_encode` fixes the encoding; the decoder accepts exactly the
//! canonical encodings (no padding characters, and the unused low bits of a
//! final partial group must be zero), so a byte string decodes to `v` if and
//! only if it is `spec_b64_encode(v@)`.

use vstd::prelude::*;

verus! {

/// The alphabet byte standing for the six-bit value `n`: `A`-`Z`, `a`-`z`,
/// `0`-`9`, `-`, `_`.
pub open spec fn b64_byte(n: u8) -> u8 {
    if n < 26 {
        (0x41 + n) as u8
    } else if n < 52 {
        (0x61 + (n - 26)) as u8
    } else if n < 62 {
        (0x30 + (n - 52)) as u8
    } else if n == 62 {
        0x2d
    } else {
        0x5f
    }
}

/// The six-bit value an alphabet byte stands for, or 255 for a byte outside
/// the alphabet.
pub open spec fn b64_val(b: u8) -> u8 {
    if 0x41 <= b && b <= 0x5a {
        (b - 0x41) as u8
    } else if 0x61 <= b && b <= 0x7a {
        (26 + (b - 0x61)) as u8
    } else if 0x30 <= b && b <= 0x39 {
        (52 + (b - 0x30)) as u8
    } else if b == 0x2d {
        62
    } else if b == 0x5f {
        63
    } else {
        255
    }
}

proof fn lemma_b64_byte_val(n: u8)
    requires
        n < 64,
    ensures
        b64_val(b64_byte(n)) == n,
{
}

proof fn lemma_b64_val_byte(b: u8)
    requires
        b64_val(b) < 64,
    ensures
        b64_byte(b64_val(b)) == b,
{
}

/// The unpadded base64url encoding of a byte string.
pub open spec fn spec_b64_encode(s: Seq<u8>) -> Seq<u8>
    decreases s.len(),
{
    if s.len() == 0 {
        Seq::empty()
    } else if s.len() == 1 {
        seq![b64_byte(s[0] >> 2), b64_byte((s[0] & 3) << 4)]
    } else if s.len() == 2 {
        seq![
            b64_byte(s[0] >> 2),
            b64_byte(((s[0] & 3) << 4) | (s[1] >> 4)),
            b64_byte((s[1] & 15) << 2),
        ]
    } else {
        seq![
            b64_byte(s[0] >> 2),
            b64_byte(((s[0] & 3) << 4) | (s[1] >> 4)),
            b64_byte(((s[1] & 15) << 2) | (s[2] >> 6)),
            b64_byte(s[2] & 63),
        ] + spec_b64_encode(s.skip(3))
    }
}

/// Whether a byte string is a canonical unpadded base64url encoding.
pub open spec fn valid_b64(t: Seq<u8>) -> bool
    decreases t.len(),
{
    if t.len() == 0 {
        true
    } else if t.len() == 1 {
        false
    } else if t.len() == 2 {
        b64_val(t[0]) < 64 && b64_val(t[1]) < 64 && (b64_val(t[1]) & 15) == 0
    } else if t.len() == 3 {
        b64_val(t[0]) < 64 && b64_val(t[1]) < 64 && b64_val(t[2]) < 64 && (b64_val(t[2]) & 3) == 0
    } else {
        b64_val(t[0]) < 64 && b64_val(t[1]) < 64 && b64_val(t[2]) < 64 && b64_val(t[3]) < 64
            && valid_b64(t.skip(4))
    }
}

/// The bytes a canonical encoding stands for.
pub open spec fn spec_b64_decode(t: Seq<u8>) -> Seq<u8>
    decreases t.len(),
{
    if t.len() < 2 {
        Seq::empty()
    } else if t.len() == 2 {
        seq![(b64_val(t[0]) << 2) | (b64_val(t[1]) >> 4)]
    } else if t.len() == 3 {
        seq![
            (b64_val(t[0]) << 2) | (b64_val(t[1]) >> 4),
            ((b64_val(t[1]) & 15) << 4) | (b64_val(t[2]) >> 2),
        ]
    } else {
        seq![
            (b64_val(t[0]) << 2) | (b64_val(t[1]) >> 4),
            ((b64_val(t[1]) & 15) << 4) | (b64_val(t[2]) >> 2),
            ((b64_val(t[2]) & 3) << 6) | b64_val(t[3]),
        ] + spec_b64_decode(t.skip(4))
    }
}

proof fn lemma_enc_bits(b0: u8, b1: u8, b2: u8)
    ensures
        (b0 >> 2) < 64,
        ((b0 & 3) << 4) < 64,
        (((b0 & 3) << 4) | (b1 >> 4)) < 64,
        ((b1 & 15) << 2) < 64,
        (((b1 & 15) << 2) | (b2 >> 6)) < 64,
        (b2 & 63) < 64,
        ((b0 >> 2) << 2) | (((b0 & 3) << 4) >> 4) == b0,
        ((b0 >> 2) << 2) | ((((b0 & 3) << 4) | (b1 >> 4)) >> 4) == b0,
        ((b0 & 3) << 4) & 15 == 0,
        (((((b0 & 3) << 4) | (b1 >> 4)) & 15) << 4) | (((b1 & 15) << 2) >> 2) == b1,
        (((((b0 & 3) << 4) | (b1 >> 4)) & 15) << 4) | ((((b1 & 15) << 2) | (b2 >> 6)) >> 2) == b1,
        ((b1 & 15) << 2) & 3 == 0,
        (((((b1 & 15) << 2) | (b2 >> 6)) & 3) << 6) | (b2 & 63) == b2,
{
    assert((b0 >> 2) < 64) by (bit_vector);
    assert(((b0 & 3) << 4) < 64) by (bit_vector);
    assert((((b0 & 3) << 4) | (b1 >> 4)) < 64) by (bit_vector);
    assert(((b1 & 15) << 2) < 64) by (bit_vector);
    assert((((b1 & 15) << 2) | (b2 >> 6)) < 64) by (bit_vector);
    assert((b2 & 63) < 64) by (bit_vector);
    assert(((b0 >> 2) << 2) | (((b0 & 3) << 4) >> 4) == b0) by (bit_vector);
    assert(((b0 >> 2) << 2) | ((((b0 & 3) << 4) | (b1 >> 4)) >> 4) == b0) by (bit_vector);
    assert(((b0 & 3) << 4) & 15 == 0) by (bit_vector);
    assert((((((b0 & 3) << 4) | (b1 >> 4)) & 15) << 4) | (((b1 & 15) << 2) >> 2) == b1)
        by (bit_vector);
    assert((((((b0 & 3) << 4) | (b1 >> 4)) & 15) << 4) | ((((b1 & 15) << 2) | (b2 >> 6)) >> 2)
        == b1) by (bit_vector);
    assert(((b1 & 15) << 2) & 3 == 0) by (bit_vector);
    assert((((((b1 & 15) << 2) | (b2 >> 6)) & 3) << 6) | (b2 & 63) == b2) by (bit_vector);
}

proof fn lemma_dec_bits(n0: u8, n1: u8, n2: u8, n3: u8)
    requires
        n0 < 64,
        n1 < 64,
        n2 < 64,
        n3 < 64,
    ensures
        ((n0 << 2) | (n1 >> 4)) >> 2 == n0,
        ((((n0 << 2) | (n1 >> 4)) & 3) << 4) | ((((n1 & 15) << 4) | (n2 >> 2)) >> 4) == n1,
        (n1 & 15) == 0 ==> ((n0 << 2) | (n1 >> 4)) & 3 == (n1 >> 4) && ((n1 >> 4) << 4) == n1,
        (((((n1 & 15) << 4) | (n2 >> 2)) & 15) << 2) | (((n2 & 3) << 6 | n3) >> 6) == n2,
        (n2 & 3) == 0 ==> (((n1 & 15) << 4) | (n2 >> 2)) & 15 == (n2 >> 2) && ((n2 >> 2) << 2)
            == n2,
        (((n2 & 3) << 6) | n3) & 63 == n3,
{
    assert(((n0 << 2) | (n1 >> 4)) >> 2 == n0) by (bit_vector)
        requires
            n0 < 64 && n1 < 64,
    ;
    assert(((((n0 << 2) | (n1 >> 4)) & 3) << 4) | ((((n1 & 15) << 4) | (n2 >> 2)) >> 4) == n1)
        by (bit_vector)
        requires
            n1 < 64 && n2 < 64,
    ;
    assert((n1 & 15) == 0 ==> ((n0 << 2) | (n1 >> 4)) & 3 == (n1 >> 4)) by (bit_vector)
        requires
            n1 < 64,
    ;
    assert((n1 & 15) == 0 ==> ((n1 >> 4) << 4) == n1) by (bit_vector)
        requires
            n1 < 64,
    ;
    assert((((((n1 & 15) << 4) | (n2 >> 2)) & 15) << 2) | ((((n2 & 3) << 6) | n3) >> 6) == n2)
        by (bit_vector)
        requires
            n2 < 64 && n3 < 64,
    ;
    assert((n2 & 3) == 0 ==> (((n1 & 15) << 4) | (n2 >> 2)) & 15 == (n2 >> 2)) by (bit_vector)
        requires
            n2 < 64,
    ;
    assert((n2 & 3) == 0 ==> ((n2 >> 2) << 2) == n2) by (bit_vector);
    assert((((n2 & 3) << 6) | n3) & 63 == n3) by (bit_vector)
        requires
            n3 < 64,
    ;
}

/// Encoding then decoding gives the bytes back, and the encoding is always
/// canonical.
pub proof fn lemma_b64_decode_encode(s: Seq<u8>)
    ensures
        valid_b64(spec_b64_encode(s)),
        spec_b64_decode(spec_b64_encode(s)) == s,
    decreases s.len(),
{
    if s.len() == 0 {
        assert(spec_b64_decode(spec_b64_encode(s)) =~= s);
    } else if s.len() == 1 {
        lemma_enc_bits(s[0], 0, 0);
        lemma_b64_byte_val(s[0] >> 2);
        lemma_b64_byte_val((s[0] & 3) << 4);
        assert(spec_b64_decode(spec_b64_encode(s)) =~= s);
    } else if s.len() == 2 {
        lemma_enc_bits(s[0], s[1], 0);
        lemma_b64_byte_val(s[0] >> 2);
        lemma_b64_byte_val(((s[0] & 3) << 4) | (s[1] >> 4));
        lemma_b64_byte_val((s[1] & 15) << 2);
        assert(spec_b64_decode(spec_b64_encode(s)) =~= s);
    } else {
        lemma_enc_bits(s[0], s[1], s[2]);
        lemma_b64_byte_val(s[0] >> 2);
        lemma_b64_byte_val(((s[0] & 3) << 4) | (s[1] >> 4));
        lemma_b64_byte_val(((s[1] & 15) << 2) | (s[2] >> 6));
        lemma_b64_byte_val(s[2] & 63);
        lemma_b64_decode_encode(s.skip(3));
        let t = spec_b64_encode(s);
        assert(t.skip(4) =~= spec_b64_encode(s.skip(3)));
        assert(spec_b64_decode(t) =~= seq![s[0], s[1], s[2]] + spec_b64_decode(t.skip(4)));
        assert(spec_b64_decode(spec_b64_encode(s)) =~= s);
    }
}

/// Decoding a canonical encoding then encoding gives the encoding back: the
/// decoder accepts nothing but images of the encoder.
pub proof fn lemma_b64_encode_decode(t: Seq<u8>)
    requires
        valid_b64(t),
    ensures
        spec_b64_encode(spec_b64_decode(t)) == t,
    decreases t.len(),
{
    if t.len() == 0 {
        assert(spec_b64_encode(spec_b64_decode(t)) =~= t);
    } else if t.len() == 2 {
        lemma_dec_bits(b64_val(t[0]), b64_val(t[1]), 0, 0);
        lemma_b64_val_byte(t[0]);
        lemma_b64_val_byte(t[1]);
        assert(spec_b64_encode(spec_b64_decode(t)) =~= t);
    } else if t.len() == 3 {
        lemma_dec_bits(b64_val(t[0]), b64_val(t[1]), b64_val(t[2]), 0);
        lemma_b64_val_byte(t[0]);
        lemma_b64_val_byte(t[1]);
        lemma_b64_val_byte(t[2]);
        assert(spec_b64_encode(spec_b64_decode(t)) =~= t);
    } else {
        lemma_dec_bits(b64_val(t[0]), b64_val(t[1]), b64_val(t[2]), b64_val(t[3]));
        lemma_b64_val_byte(t[0]);
        lemma_b64_val_byte(t[1]);
        lemma_b64_val_byte(t[2]);
        lemma_b64_val_byte(t[3]);
        lemma_b64_encode_decode(t.skip(4));
        let v = spec_b64_decode(t);
        assert(v.len() >= 3);
        assert(v.skip(3) =~= spec_b64_decode(t.skip(4)));
        assert(spec_b64_encode(v) =~= seq![t[0], t[1], t[2], t[3]] + spec_b64_encode(v.skip(3)));
        assert(spec_b64_encode(spec_b64_decode(t)) =~= t);
    }
}

/// Every byte of a canonical encoding is in the alphabet.
pub proof fn lemma_valid_b64_alphabet(t: Seq<u8>)
    requires
        valid_b64(t),
    ensures
        forall|i: int| 0 <= i < t.len() ==> b64_val(#[trigger] t[i]) < 64,
    decreases t.len(),
{
    if t.len() >= 4 {
        lemma_valid_b64_alphabet(t.skip(4));
        assert forall|i: int| 0 <= i < t.len() implies b64_val(#[trigger] t[i]) < 64 by {
            if i >= 4 {
                assert(t.skip(4)[i - 4] == t[i]);
            }
        }
    }
}

/// The dot that separates token segments is not in the alphabet, so no
/// canonical encoding holds one.
pub proof fn lemma_b64_no_dot(t: Seq<u8>)
    requires
        valid_b64(t),
    ensures
        forall|i: int| 0 <= i < t.len() ==> #[trigger] t[i] != 0x2e,
{
    lemma_valid_b64_alphabet(t);
}

fn b64_byte_of(n: u8) -> (r: u8)
    requires
        n < 64,
    ensures
        r == b64_byte(n),
{
    if n < 26 {
        0x41 + n
    } else if n < 52 {
        0x61 + (n - 26)
    } else if n < 62 {
        0x30 + (n - 52)
    } else if n == 62 {
        0x2d
    } else {
        0x5f
    }
}

fn b64_val_of(b: u8) -> (r: u8)
    ensures
        r == b64_val(b),
{
    if 0x41 <= b && b <= 0x5a {
        b - 0x41
    } else if 0x61 <= b && b <= 0x7a {
        26 + (b - 0x61)
    } else if 0x30 <= b && b <= 0x39 {
        52 + (b - 0x30)
    } else if b == 0x2d {
        62
    } else if b == 0x5f {
        63
    } else {
        255
    }
}

/// Appends the encoding of `s` to `out`.
pub fn b64_encode_into(s: &[u8], out: &mut Vec<u8>)
    ensures
        final(out)@ == old(out)@ + spec_b64_encode(s@),
{
    let n = s.len();
    let mut i: usize = 0;
    let ghost mut emitted = Seq::<u8>::empty();
    proof {
        assert(out@ =~= old(out)@ + emitted);
        assert(s@.skip(0) =~= s@);
    }
    while n - i >= 3
        invariant
            0 <= i <= n,
            n == s@.len(),
            out@ == old(out)@ + emitted,
            spec_b64_encode(s@) == emitted + spec_b64_encode(s@.skip(i as int)),
        decreases n - i,
    {
        let b0 = s[i];
        let b1 = s[i + 1];
        let b2 = s[i + 2];
        proof {
            lemma_enc_bits(b0, b1, b2);
        }
        out.push(b64_byte_of(b0 >> 2));
        out.push(b64_byte_of(((b0 & 3) << 4) | (b1 >> 4)));
        out.push(b64_byte_of(((b1 & 15) << 2) | (b2 >> 6)));
        out.push(b64_byte_of(b2 & 63));
        proof {
            let rest = s@.skip(i as int);
            let block = seq![
                b64_byte(b0 >> 2),
                b64_byte(((b0 & 3) << 4) | (b1 >> 4)),
                b64_byte(((b1 & 15) << 2) | (b2 >> 6)),
                b64_byte(b2 & 63),
            ];
            assert(rest[0] == b0 && rest[1] == b1 && rest[2] == b2);
            assert(rest.skip(3) =~= s@.skip(i as int + 3));
            assert(spec_b64_encode(rest) == block + spec_b64_encode(rest.skip(3)));
            let ghost emitted0 = emitted;
            emitted = emitted + block;
            assert(out@ =~= old(out)@ + emitted);
            assert(emitted + spec_b64_encode(s@.skip(i as int + 3)) =~= emitted0 + (block
                + spec_b64_encode(s@.skip(i as int + 3))));
            assert(spec_b64_encode(s@) == emitted + spec_b64_encode(s@.skip(i as int + 3)));
        }
        i = i + 3;
    }
    if n - i == 1 {
        let b0 = s[i];
        proof {
            lemma_enc_bits(b0, 0, 0);
        }
        out.push(b64_byte_of(b0 >> 2));
        out.push(b64_byte_of((b0 & 3) << 4));
        proof {
            let rest = s@.skip(i as int);
            assert(rest.len() == 1 && rest[0] == b0);
            assert(spec_b64_encode(rest) == seq![b64_byte(b0 >> 2), b64_byte((b0 & 3) << 4)]);
            assert(out@ =~= old(out)@ + spec_b64_encode(s@));
        }
    } else if n - i == 2 {
        let b0 = s[i];
        let b1 = s[i + 1];
        proof {
            lemma_enc_bits(b0, b1, 0);
        }
        out.push(b64_byte_of(b0 >> 2));
        out.push(b64_byte_of(((b0 & 3) << 4) | (b1 >> 4)));
        out.push(b64_byte_of((b1 & 15) << 2));
        proof {
            let rest = s@.skip(i as int);
            assert(rest.len() == 2 && rest[0] == b0 && rest[1] == b1);
            assert(spec_b64_encode(rest) == seq![
                b64_byte(b0 >> 2),
                b64_byte(((b0 & 3) << 4) | (b1 >> 4)),
                b64_byte((b1 & 15) << 2),
            ]);
            assert(out@ =~= old(out)@ + spec_b64_encode(s@));
        }
    } else {
        proof {
            assert(s@.skip(i as int).len() == 0);
            assert(spec_b64_encode(s@.skip(i as int)) == Seq::<u8>::empty());
            assert(out@ =~= old(out)@ + spec_b64_encode(s@));
        }
    }
}

/// A length one past a multiple of four is never canonical.
proof fn lemma_b64_bad_len(t: Seq<u8>)
    requires
        t.len() % 4 == 1,
    ensures
        !valid_b64(t),
    decreases t.len(),
{
    if t.len() >= 4 {
        lemma_b64_bad_len(t.skip(4));
    }
}

/// Decodes a canonical encoding; anything else is rejected.
pub fn b64_decode(t: &[u8]) -> (r: Option<Vec<u8>>)
    ensures
        match r {
            Some(v) => valid_b64(t@) && v@ == spec_b64_decode(t@),
            None => !valid_b64(t@),
        },
{
    let n = t.len();
    if n % 4 == 1 {
        proof {
            lemma_b64_bad_len(t@);
        }
        return None;
    }
    let mut v: Vec<u8> = Vec::new();
    let mut i: usize = 0;
    proof {
        assert(t@.skip(0) =~= t@);
        assert(v@ =~= Seq::<u8>::empty());
    }
    while n - i >= 4
        invariant
            0 <= i <= n,
            i % 4 == 0,
            n % 4 != 1,
            n == t@.len(),
            valid_b64(t@) == valid_b64(t@.skip(i as int)),
            spec_b64_decode(t@) == v@ + spec_b64_decode(t@.skip(i as int)),
        decreases n - i,
    {
        let n0 = b64_val_of(t[i]);
        let n1 = b64_val_of(t[i + 1]);
        let n2 = b64_val_of(t[i + 2]);
        let n3 = b64_val_of(t[i + 3]);
        proof {
            let rest = t@.skip(i as int);
            assert(rest[0] == t@[i as int] && rest[1] == t@[i as int + 1] && rest[2] == t@[i as int
                + 2] && rest[3] == t@[i as int + 3]);
        }
        if n0 >= 64 || n1 >= 64 || n2 >= 64 || n3 >= 64 {
            proof {
                assert(!valid_b64(t@.skip(i as int)));
            }
            return None;
        }
        v.push((n0 << 2) | (n1 >> 4));
        v.push(((n1 & 15) << 4) | (n2 >> 2));
        v.push(((n2 & 3) << 6) | n3);
        proof {
            let rest = t@.skip(i as int);
            assert(rest.skip(4) =~= t@.skip(i as int + 4));
            assert(spec_b64_decode(rest) == seq![
                (n0 << 2) | (n1 >> 4),
                ((n1 & 15) << 4) | (n2 >> 2),
                ((n2 & 3) << 6) | n3,
            ] + spec_b64_decode(rest.skip(4)));
            assert(spec_b64_decode(t@) =~= v@ + spec_b64_decode(t@.skip(i as int + 4)));
        }
        i = i + 4;
    }
    if i == n {
        proof {
            assert(t@.skip(i as int).len() == 0);
            assert(spec_b64_decode(t@) =~= v@);
        }
        return Some(v);
    }
    // a tail of two or three bytes remains
    proof {
        assert(n - i == 2 || n - i == 3);
    }
    let n0 = b64_val_of(t[i]);
    let n1 = b64_val_of(t[i + 1]);
    proof {
        let rest = t@.skip(i as int);
        assert(rest[0] == t@[i as int] && rest[1] == t@[i as int + 1]);
        if n - i == 3 {
            assert(rest[2] == t@[i as int + 2]);
        }
    }
    if n0 >= 64 || n1 >= 64 {
        return None;
    }
    if n - i == 2 {
        if n1 & 15 != 0 {
            return None;
        }
        v.push((n0 << 2) | (n1 >> 4));
        proof {
            let rest = t@.skip(i as int);
            assert(valid_b64(rest));
            assert(spec_b64_decode(rest) == seq![(n0 << 2) | (n1 >> 4)]);
            assert(spec_b64_decode(t@) =~= v@);
        }
        Some(v)
    } else {
        let n2 = b64_val_of(t[i + 2]);
        if n2 >= 64 || n2 & 3 != 0 {
            return None;
        }
        v.push((n0 << 2) | (n1 >> 4));
        v.push(((n1 & 15) << 4) | (n2 >> 2));
        proof {
            let rest = t@.skip(i as int);
            assert(valid_b64(rest));
            assert(spec_b64_decode(rest) == seq![
                (n0 << 2) | (n1 >> 4),
                ((n1 & 15) << 4) | (n2 >> 2),
            ]);
            assert(spec_b64_decode(t@) =~= v@);
        }
        Some(v)
    }
}

} // verus!
