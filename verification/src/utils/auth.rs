//! Issuing and checking signed session tokens.
//!
//! A token is three unpadded base64url segments joined by dots: a fixed
//! header, the claims payload of `utils::claims`, and a keyed digest of the
//! first two segments. `spec_token` fixes the bytes; `validate_token`
//! accepts exactly the well-signed, unexpired images of `spec_token`.

use vstd::prelude::*;
use hmac::Mac;

verus! {

use vstd::utf8::{encode_utf8, decode_utf8, valid_utf8};
use crate::domain::{Email, bytes_eq};
use crate::utils::base64url::{
    b64_decode, b64_encode_into, lemma_b64_decode_encode, lemma_b64_encode_decode,
    lemma_b64_no_dot, lemma_valid_b64_alphabet, spec_b64_encode,
};
use crate::utils::claims::{
    copy_range, lemma_claims_injective, parse_claims, push_claims, spec_claims,
};
use crate::utils::constants::TOKEN_TTL_SECONDS;

/// The keyed digest of a message under the signing secret.
///
/// Computed by the trusted wrapper `hmac_sha256` below; nothing else is
/// assumed of it.
pub uninterp spec fn mac_of(key: Seq<u8>, msg: Seq<u8>) -> Seq<u8>;

/// Relies on hmac's `Hmac<sha2::Sha256>`: the tag depends on the key and
/// message alone and is 32 bytes long; `new_from_slice` accepts keys of any
/// length.
#[verifier::external_body]
fn hmac_sha256(key: &[u8], msg: &[u8]) -> (r: Vec<u8>)
    ensures
        r@ == mac_of(key@, msg@),
        r@.len() == 32,
{
    let mut mac = <hmac::Hmac<sha2::Sha256> as Mac>::new_from_slice(key)
        .expect("any key length is accepted");
    mac.update(msg);
    mac.finalize().into_bytes().to_vec()
}

/// Relies on `String::from_utf8`: it succeeds exactly on valid UTF-8 and
/// keeps the bytes.
#[verifier::external_body]
fn string_from_utf8(v: Vec<u8>) -> (r: Option<String>)
    ensures
        match r {
            Some(s) => valid_utf8(v@) && encode_utf8(s@) == v@,
            None => !valid_utf8(v@),
        },
{
    match String::from_utf8(v) {
        Ok(s) => Some(s),
        Err(_) => None,
    }
}

/// The bytes of `{"alg":"HS256","typ":"JWT"}`.
pub open spec fn header_bytes() -> Seq<u8> {
    seq![
        0x7bu8, 0x22, 0x61, 0x6c, 0x67, 0x22, 0x3a, 0x22, 0x48, 0x53, 0x32, 0x35, 0x36, 0x22,
        0x2c, 0x22, 0x74, 0x79, 0x70, 0x22, 0x3a, 0x22, 0x4a, 0x57, 0x54, 0x22, 0x7d,
    ]
}

/// The part of a token that is signed: encoded header, dot, encoded claims.
pub open spec fn signing_input(sub: Seq<u8>, exp: u64) -> Seq<u8> {
    spec_b64_encode(header_bytes()) + seq![0x2eu8] + spec_b64_encode(spec_claims(sub, exp))
}

/// The full token for a subject and expiry under a key.
pub open spec fn spec_token(key: Seq<u8>, sub: Seq<u8>, exp: u64) -> Seq<u8> {
    signing_input(sub, exp) + seq![0x2eu8] + spec_b64_encode(
        mac_of(key, signing_input(sub, exp)),
    )
}

/// The characters an all-ASCII byte string reads as.
pub open spec fn ascii_chars_of(b: Seq<u8>) -> Seq<char> {
    b.map(|i: int, x: u8| x as char)
}

/// A token as a character string.
pub open spec fn spec_token_chars(key: Seq<u8>, sub: Seq<u8>, exp: u64) -> Seq<char> {
    ascii_chars_of(spec_token(key, sub, exp))
}

/// A token is acceptable at time `now` when it is the token of some
/// readable subject and some expiry still in the future.
pub open spec fn token_ok(key: Seq<u8>, t: Seq<u8>, now: u64) -> bool {
    exists|sub: Seq<u8>, exp: u64|
        t == spec_token(key, sub, exp) && valid_utf8(sub) && now < exp
}

/// An all-ASCII byte string is valid UTF-8 and decodes byte for byte.
proof fn lemma_ascii_bytes(b: Seq<u8>)
    requires
        forall|i: int| 0 <= i < b.len() ==> #[trigger] b[i] < 128,
    ensures
        valid_utf8(b),
        decode_utf8(b) == ascii_chars_of(b),
        encode_utf8(ascii_chars_of(b)) == b,
{
    let cs = ascii_chars_of(b);
    assert(vstd::utf8::is_ascii_chars(cs)) by {
        assert forall|i: int| 0 <= i < cs.len() implies '\0' <= #[trigger] cs[i] <= '\u{7f}' by {
            assert(cs[i] == b[i] as char);
            assert(b[i] < 128);
        }
    }
    vstd::utf8::is_ascii_chars_encode_utf8(cs);
    assert(encode_utf8(cs) =~= b) by {
        assert forall|i: int| 0 <= i < b.len() implies encode_utf8(cs)[i] == b[i] by {
            assert(encode_utf8(cs)[i] == cs[i] as u8);
            assert(cs[i] == b[i] as char);
        }
    }
    vstd::utf8::encode_utf8_valid_utf8(cs);
    vstd::utf8::encode_utf8_decode_utf8(cs);
}

/// Every byte of a canonical base64url encoding is ASCII.
proof fn lemma_b64_encode_ascii(v: Seq<u8>)
    ensures
        forall|i: int| 0 <= i < spec_b64_encode(v).len() ==> #[trigger] spec_b64_encode(v)[i]
            < 128,
{
    lemma_b64_decode_encode(v);
    lemma_valid_b64_alphabet(spec_b64_encode(v));
    assert forall|i: int|
        0 <= i < spec_b64_encode(v).len() implies #[trigger] spec_b64_encode(v)[i] < 128 by {
        assert(crate::utils::base64url::b64_val(spec_b64_encode(v)[i]) < 64);
    }
}

/// Every byte of a token is ASCII.
pub proof fn lemma_token_ascii(key: Seq<u8>, sub: Seq<u8>, exp: u64)
    ensures
        forall|i: int| 0 <= i < spec_token(key, sub, exp).len() ==> #[trigger] spec_token(
            key,
            sub,
            exp,
        )[i] < 128,
{
    lemma_token_structure(key, sub, exp);
    let t = spec_token(key, sub, exp);
    let h = spec_b64_encode(header_bytes());
    let c = spec_b64_encode(spec_claims(sub, exp));
    let m = spec_b64_encode(mac_of(key, signing_input(sub, exp)));
    let d1 = h.len() as int;
    let d2 = d1 + 1 + c.len();
    lemma_b64_encode_ascii(header_bytes());
    lemma_b64_encode_ascii(spec_claims(sub, exp));
    lemma_b64_encode_ascii(mac_of(key, signing_input(sub, exp)));
    assert forall|i: int| 0 <= i < t.len() implies #[trigger] t[i] < 128 by {
        if i == d1 || i == d2 {
        } else if i < d1 {
            assert(t[i] == h[i]);
        } else if i < d2 {
            assert(t[i] == c[i - d1 - 1]);
        } else {
            assert(t[i] == m[i - d2 - 1]);
        }
    }
}

/// A token's character string reads back as its bytes, character for byte.
pub proof fn lemma_token_chars(key: Seq<u8>, sub: Seq<u8>, exp: u64)
    ensures
        encode_utf8(spec_token_chars(key, sub, exp)) == spec_token(key, sub, exp),
        spec_token_chars(key, sub, exp).len() == spec_token(key, sub, exp).len(),
        spec_token(key, sub, exp).len() > 0,
{
    lemma_token_ascii(key, sub, exp);
    lemma_ascii_bytes(spec_token(key, sub, exp));
    lemma_token_structure(key, sub, exp);
}

/// Where each part of a token stands, and that the two dots are the only
/// dots.
pub proof fn lemma_token_structure(key: Seq<u8>, sub: Seq<u8>, exp: u64)
    ensures
        ({
            let t = spec_token(key, sub, exp);
            let h = spec_b64_encode(header_bytes());
            let c = spec_b64_encode(spec_claims(sub, exp));
            let m = spec_b64_encode(mac_of(key, signing_input(sub, exp)));
            let d1 = h.len() as int;
            let d2 = d1 + 1 + c.len();
            &&& t.len() == d2 + 1 + m.len()
            &&& t.subrange(0, d1) == h
            &&& t[d1] == 0x2e
            &&& t.subrange(d1 + 1, d2) == c
            &&& t[d2] == 0x2e
            &&& t.subrange(d2 + 1, t.len() as int) == m
            &&& t.subrange(0, d2) == signing_input(sub, exp)
            &&& forall|i: int| 0 <= i < t.len() && i != d1 && i != d2 ==> t[i] != 0x2e
        }),
{
    let t = spec_token(key, sub, exp);
    let h = spec_b64_encode(header_bytes());
    let c = spec_b64_encode(spec_claims(sub, exp));
    let m = spec_b64_encode(mac_of(key, signing_input(sub, exp)));
    let d1 = h.len() as int;
    let d2 = d1 + 1 + c.len();
    lemma_b64_decode_encode(header_bytes());
    lemma_b64_decode_encode(spec_claims(sub, exp));
    lemma_b64_decode_encode(mac_of(key, signing_input(sub, exp)));
    lemma_b64_no_dot(h);
    lemma_b64_no_dot(c);
    lemma_b64_no_dot(m);
    assert(t.subrange(0, d1) =~= h);
    assert(t.subrange(d1 + 1, d2) =~= c);
    assert(t.subrange(d2 + 1, t.len() as int) =~= m);
    assert(t.subrange(0, d2) =~= signing_input(sub, exp));
    assert forall|i: int| 0 <= i < t.len() && i != d1 && i != d2 implies t[i] != 0x2e by {
        if i < d1 {
            assert(t[i] == h[i]);
        } else if i < d2 {
            assert(t[i] == c[i - d1 - 1]);
        } else {
            assert(t[i] == m[i - d2 - 1]);
        }
    }
}

/// A token determines its subject and expiry.
pub proof fn lemma_token_injective(key: Seq<u8>, sub1: Seq<u8>, exp1: u64, sub2: Seq<u8>, exp2: u64)
    requires
        spec_token(key, sub1, exp1) == spec_token(key, sub2, exp2),
    ensures
        sub1 == sub2,
        exp1 == exp2,
{
    lemma_token_structure(key, sub1, exp1);
    lemma_token_structure(key, sub2, exp2);
    let t = spec_token(key, sub1, exp1);
    let h = spec_b64_encode(header_bytes());
    let c1 = spec_b64_encode(spec_claims(sub1, exp1));
    let c2 = spec_b64_encode(spec_claims(sub2, exp2));
    let d1 = h.len() as int;
    assert(c1.len() == c2.len()) by {
        if c1.len() < c2.len() {
            assert(t[d1 + 1 + c1.len()] == 0x2e);
        } else if c2.len() < c1.len() {
            assert(t[d1 + 1 + c2.len()] == 0x2e);
        }
    }
    assert(c1 == c2);
    lemma_b64_decode_encode(spec_claims(sub1, exp1));
    lemma_b64_decode_encode(spec_claims(sub2, exp2));
    assert(spec_claims(sub1, exp1) == spec_claims(sub2, exp2));
    lemma_claims_injective(sub1, exp1, sub2, exp2);
}

/// The claims carried by an accepted token.
pub struct TokenClaims {
    pub sub: String,
    pub exp: u64,
}

/// First position of `x` in `b` at or after `start`.
fn find_byte(b: &[u8], start: usize, x: u8) -> (r: Option<usize>)
    requires
        start <= b@.len(),
    ensures
        match r {
            Some(i) => start <= i < b@.len() && b@[i as int] == x && forall|k: int|
                start <= k < i ==> b@[k] != x,
            None => forall|k: int| start <= k < b@.len() ==> b@[k] != x,
        },
{
    let n = b.len();
    let mut i: usize = start;
    while i < n
        invariant
            start <= i <= n,
            n == b@.len(),
            forall|k: int| start <= k < i ==> b@[k] != x,
        decreases n - i,
    {
        if b[i] == x {
            return Some(i);
        }
        i = i + 1;
    }
    None
}

/// The exec header constant; its view is `header_bytes()`.
fn header_vec() -> (r: Vec<u8>)
    ensures
        r@ == header_bytes(),
{
    let r: Vec<u8> = vec![
        0x7b, 0x22, 0x61, 0x6c, 0x67, 0x22, 0x3a, 0x22, 0x48, 0x53, 0x32, 0x35, 0x36, 0x22,
        0x2c, 0x22, 0x74, 0x79, 0x70, 0x22, 0x3a, 0x22, 0x4a, 0x57, 0x54, 0x22, 0x7d,
    ];
    proof {
        assert(r@ =~= header_bytes());
    }
    r
}

/// Issues the token asserting `email` until `now + TOKEN_TTL_SECONDS`.
pub fn generate_token(secret: &[u8], email: &Email, now: u64) -> (t: String)
    requires
        now <= u64::MAX - TOKEN_TTL_SECONDS,
    ensures
        encode_utf8(t@) == spec_token(secret@, encode_utf8(email@), (now + TOKEN_TTL_SECONDS) as u64),
        t@ == spec_token_chars(secret@, encode_utf8(email@), (now + TOKEN_TTL_SECONDS) as u64),
        t@.len() > 0,
{
    let exp = now + TOKEN_TTL_SECONDS;
    let sub = email.as_str().as_bytes();
    let header = header_vec();
    let mut claims: Vec<u8> = Vec::new();
    push_claims(sub, exp, &mut claims);
    let mut tb: Vec<u8> = Vec::new();
    b64_encode_into(header.as_slice(), &mut tb);
    tb.push(0x2e);
    b64_encode_into(claims.as_slice(), &mut tb);
    proof {
        assert(tb@ =~= signing_input(sub@, exp));
    }
    let mac = hmac_sha256(secret, tb.as_slice());
    tb.push(0x2e);
    b64_encode_into(mac.as_slice(), &mut tb);
    proof {
        assert(tb@ =~= spec_token(secret@, sub@, exp));
        lemma_token_ascii(secret@, sub@, exp);
        lemma_ascii_bytes(tb@);
    }
    let ghost tbs = tb@;
    match string_from_utf8(tb) {
        Some(s) => {
            proof {
                vstd::utf8::encode_utf8_decode_utf8(s@);
                assert(s@ == decode_utf8(tbs));
                assert(s@ == ascii_chars_of(tbs));
                assert(s@.len() == tbs.len());
            }
            s
        },
        None => vstd::pervasive::unreached(),
    }
}

/// Checks a token against the key and the clock: accepted exactly when it
/// is a well-signed token whose subject reads as UTF-8 and whose expiry is
/// still ahead.
pub fn validate_token(secret: &[u8], token: &str, now: u64) -> (r: Result<TokenClaims, ()>)
    ensures
        match r {
            Ok(c) => encode_utf8(token@) == spec_token(secret@, encode_utf8(c.sub@), c.exp)
                && now < c.exp && token_ok(secret@, encode_utf8(token@), now),
            Err(_) => !token_ok(secret@, encode_utf8(token@), now),
        },
{
    let tb = token.as_bytes();
    let n = tb.len();
    let d1 = match find_byte(tb, 0, 0x2e) {
        Some(i) => i,
        None => {
            proof {
                lemma_no_witness_dots(secret@, tb@, now);
            }
            return Err(());
        },
    };
    let d2 = match find_byte(tb, d1 + 1, 0x2e) {
        Some(i) => i,
        None => {
            proof {
                lemma_no_witness_dots(secret@, tb@, now);
            }
            return Err(());
        },
    };
    if find_byte(tb, d2 + 1, 0x2e).is_some() {
        proof {
            lemma_no_witness_dots(secret@, tb@, now);
        }
        return Err(());
    }
    proof {
        lemma_witness_positions(secret@, tb@, now, d1 as int, d2 as int);
    }
    let s1 = copy_range(tb, 0, d1);
    let s2 = copy_range(tb, d1 + 1, d2);
    let s3 = copy_range(tb, d2 + 1, n);
    let header = header_vec();
    let mut hb: Vec<u8> = Vec::new();
    b64_encode_into(header.as_slice(), &mut hb);
    if !bytes_eq(s1.as_slice(), hb.as_slice()) {
        proof {
            if token_ok(secret@, tb@, now) {
                let (ws, we) = choose|ws: Seq<u8>, we: u64|
                    tb@ == spec_token(secret@, ws, we) && valid_utf8(ws) && now < we;
                lemma_token_structure(secret@, ws, we);
            }
        }
        return Err(());
    }
    let cl = match b64_decode(s2.as_slice()) {
        Some(v) => v,
        None => {
            proof {
                if token_ok(secret@, tb@, now) {
                    let (ws, we) = choose|ws: Seq<u8>, we: u64|
                        tb@ == spec_token(secret@, ws, we) && valid_utf8(ws) && now < we;
                    lemma_token_structure(secret@, ws, we);
                    lemma_b64_decode_encode(spec_claims(ws, we));
                }
            }
            return Err(());
        },
    };
    let (subv, exp) = match parse_claims(cl.as_slice()) {
        Some(p) => p,
        None => {
            proof {
                if token_ok(secret@, tb@, now) {
                    let (ws, we) = choose|ws: Seq<u8>, we: u64|
                        tb@ == spec_token(secret@, ws, we) && valid_utf8(ws) && now < we;
                    lemma_token_structure(secret@, ws, we);
                    lemma_b64_decode_encode(spec_claims(ws, we));
                }
            }
            return Err(());
        },
    };
    let mv = match b64_decode(s3.as_slice()) {
        Some(v) => v,
        None => {
            proof {
                if token_ok(secret@, tb@, now) {
                    let (ws, we) = choose|ws: Seq<u8>, we: u64|
                        tb@ == spec_token(secret@, ws, we) && valid_utf8(ws) && now < we;
                    lemma_token_structure(secret@, ws, we);
                    lemma_b64_decode_encode(mac_of(secret@, signing_input(ws, we)));
                }
            }
            return Err(());
        },
    };
    let si = copy_range(tb, 0, d2);
    let mac = hmac_sha256(secret, si.as_slice());
    if !bytes_eq(mv.as_slice(), mac.as_slice()) {
        proof {
            if token_ok(secret@, tb@, now) {
                let (ws, we) = choose|ws: Seq<u8>, we: u64|
                    tb@ == spec_token(secret@, ws, we) && valid_utf8(ws) && now < we;
                lemma_token_structure(secret@, ws, we);
                lemma_b64_decode_encode(mac_of(secret@, signing_input(ws, we)));
            }
        }
        return Err(());
    }
    // the token is exactly `spec_token(secret, subv, exp)`
    proof {
        lemma_b64_encode_decode(s2@);
        lemma_b64_encode_decode(s3@);
        assert(si@ =~= s1@ + seq![0x2eu8] + s2@);
        assert(si@ == signing_input(subv@, exp));
        assert(tb@ =~= si@ + seq![0x2eu8] + s3@);
        assert(s3@ == spec_b64_encode(mac_of(secret@, si@)));
        assert(tb@ == spec_token(secret@, subv@, exp));
    }
    if exp <= now {
        proof {
            if token_ok(secret@, tb@, now) {
                let (ws, we) = choose|ws: Seq<u8>, we: u64|
                    tb@ == spec_token(secret@, ws, we) && valid_utf8(ws) && now < we;
                lemma_token_injective(secret@, ws, we, subv@, exp);
            }
        }
        return Err(());
    }
    let ghost subg = subv@;
    match string_from_utf8(subv) {
        Some(s) => {
            proof {
                assert(valid_utf8(subg));
                vstd::utf8::encode_utf8_decode_utf8(s@);
            }
            Ok(TokenClaims { sub: s, exp })
        },
        None => {
            proof {
                if token_ok(secret@, tb@, now) {
                    let (ws, we) = choose|ws: Seq<u8>, we: u64|
                        tb@ == spec_token(secret@, ws, we) && valid_utf8(ws) && now < we;
                    lemma_token_injective(secret@, ws, we, subg, exp);
                }
            }
            Err(())
        },
    }
}

/// If no dot pattern of a token can be found, no token witness exists.
proof fn lemma_no_witness_dots(key: Seq<u8>, t: Seq<u8>, now: u64)
    requires
        ({
            ||| forall|k: int| 0 <= k < t.len() ==> t[k] != 0x2e
            ||| exists|d1: int|
                0 <= d1 < t.len() && t[d1] == 0x2e && (forall|k: int| 0 <= k < d1 ==> t[k] != 0x2e)
                    && (forall|k: int| d1 < k < t.len() ==> t[k] != 0x2e)
            ||| exists|d1: int, d2: int, d3: int|
                0 <= d1 < d2 < d3 < t.len() && t[d1] == 0x2e && t[d2] == 0x2e && t[d3] == 0x2e
                    && (forall|k: int| 0 <= k < d1 ==> t[k] != 0x2e) && (forall|k: int|
                    d1 < k < d2 ==> t[k] != 0x2e)
        }),
    ensures
        !token_ok(key, t, now),
{
    if token_ok(key, t, now) {
        let (ws, we) = choose|ws: Seq<u8>, we: u64|
            t == spec_token(key, ws, we) && valid_utf8(ws) && now < we;
        lemma_token_structure(key, ws, we);
        let h = spec_b64_encode(header_bytes());
        let c = spec_b64_encode(spec_claims(ws, we));
        let wd1 = h.len() as int;
        let wd2 = wd1 + 1 + c.len();
        assert(t[wd1] == 0x2e && t[wd2] == 0x2e);
        if exists|d1: int, d2: int, d3: int|
            0 <= d1 < d2 < d3 < t.len() && t[d1] == 0x2e && t[d2] == 0x2e && t[d3] == 0x2e && (
            forall|k: int| 0 <= k < d1 ==> t[k] != 0x2e) && (forall|k: int|
                d1 < k < d2 ==> t[k] != 0x2e) {
            let (d1, d2, d3) = choose|d1: int, d2: int, d3: int|
                0 <= d1 < d2 < d3 < t.len() && t[d1] == 0x2e && t[d2] == 0x2e && t[d3] == 0x2e && (
                forall|k: int| 0 <= k < d1 ==> t[k] != 0x2e) && (forall|k: int|
                    d1 < k < d2 ==> t[k] != 0x2e);
            assert(d1 == wd1 && d2 == wd2);
            assert(t[d3] != 0x2e);
        }
    }
}

/// The first two dots of a token stand at the segment boundaries.
proof fn lemma_witness_positions(key: Seq<u8>, t: Seq<u8>, now: u64, d1: int, d2: int)
    requires
        0 <= d1 < d2 < t.len(),
        t[d1] == 0x2e,
        t[d2] == 0x2e,
        forall|k: int| 0 <= k < d1 ==> t[k] != 0x2e,
        forall|k: int| d1 < k < d2 ==> t[k] != 0x2e,
    ensures
        forall|ws: Seq<u8>, we: u64|
            t == spec_token(key, ws, we) ==> d1 == spec_b64_encode(header_bytes()).len() && d2
                == d1 + 1 + spec_b64_encode(spec_claims(ws, we)).len() && t.subrange(0, d1)
                == spec_b64_encode(header_bytes()) && t.subrange(d1 + 1, d2) == spec_b64_encode(
                spec_claims(ws, we),
            ) && t.subrange(d2 + 1, t.len() as int) == spec_b64_encode(
                mac_of(key, signing_input(ws, we)),
            ) && t.subrange(0, d2) == signing_input(ws, we),
{
    assert forall|ws: Seq<u8>, we: u64| t == spec_token(key, ws, we) implies d1
        == spec_b64_encode(header_bytes()).len() && d2 == d1 + 1 + spec_b64_encode(
        spec_claims(ws, we),
    ).len() && t.subrange(0, d1) == spec_b64_encode(header_bytes()) && t.subrange(d1 + 1, d2)
        == spec_b64_encode(spec_claims(ws, we)) && t.subrange(d2 + 1, t.len() as int)
        == spec_b64_encode(mac_of(key, signing_input(ws, we))) && t.subrange(0, d2)
        == signing_input(ws, we) by {
        lemma_token_structure(key, ws, we);
        let h = spec_b64_encode(header_bytes());
        let c = spec_b64_encode(spec_claims(ws, we));
        let wd1 = h.len() as int;
        let wd2 = wd1 + 1 + c.len();
        assert(t[wd1] == 0x2e && t[wd2] == 0x2e);
        assert(d1 == wd1);
        assert(d2 == wd2);
    }
}

} // verus!
