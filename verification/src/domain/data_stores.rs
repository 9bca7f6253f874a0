//! Store interfaces for accounts, revoked tokens and outstanding two-factor
//! challenges, together with the challenge credential types.
//!
//! Each interface carries a ghost view of the store's contents, and every
//! operation's contract is stated over that view; the in-memory stores under
//! `services` prove these contracts, and any other backend must do the same.

use vstd::prelude::*;
use rand::distr::{Alphanumeric, SampleString};

verus! {

use vstd::utf8::encode_utf8;
use crate::domain::{Email, Password, User, is_space, spec_trimmed_len};

/// Ghost image of one stored account.
pub ghost struct UserModel {
    pub password: Seq<char>,
    pub requires_2fa: bool,
}

/// Ghost image of one outstanding two-factor challenge.
pub ghost struct ChallengeModel {
    pub attempt_id: Seq<char>,
    pub code: Seq<char>,
}

#[derive(Debug, PartialEq, Eq, Structural, Clone, Copy)]
pub enum UserStoreError {
    UserAlreadyExists,
    UserNotFound,
    IncorrectCredentials,
    UnexpectedError,
}

#[derive(Debug, PartialEq, Eq, Structural, Clone, Copy)]
pub enum TwoFACodeStoreError {
    LoginAttemptIdNotFound,
    UnexpectedError,
}

/// Accounts keyed by email address.
///
/// A conforming implementation never returns `UnexpectedError`; the variant
/// exists so that callers of unverified backends have somewhere to route an
/// infrastructure failure.
pub trait UserStore: Sized {
    spec fn wf(&self) -> bool;

    spec fn users(&self) -> Map<Seq<char>, UserModel>;

    /// Inserts the account unless its email is already taken.
    fn add_user(&mut self, user: User) -> (r: Result<(), UserStoreError>)
        requires
            old(self).wf(),
        ensures
            final(self).wf(),
            match r {
                Ok(()) => !old(self).users().contains_key(user.email@)
                    && final(self).users() == old(self).users().insert(
                        user.email@,
                        (UserModel { password: user.password@, requires_2fa: user.requires_2fa }),
                    ),
                Err(UserStoreError::UserAlreadyExists) => old(self).users().contains_key(user.email@)
                    && final(self).users() == old(self).users(),
                Err(_) => false,
            },
    ;

    /// Looks the account up by email.
    fn get_user(&self, email: &Email) -> (r: Result<User, UserStoreError>)
        requires
            self.wf(),
        ensures
            match r {
                Ok(u) => self.users().contains_key(email@)
                    && u.email@ == email@
                    && u.password@ == self.users()[email@].password
                    && u.requires_2fa == self.users()[email@].requires_2fa,
                Err(UserStoreError::UserNotFound) => !self.users().contains_key(email@),
                Err(_) => false,
            },
    ;

    /// Looks the account up and compares the supplied password with the
    /// stored one.
    fn validate_user(&self, email: &Email, password: &Password) -> (r: Result<User, UserStoreError>)
        requires
            self.wf(),
        ensures
            match r {
                Ok(u) => self.users().contains_key(email@)
                    && self.users()[email@].password == password@
                    && u.email@ == email@
                    && u.password@ == password@
                    && u.requires_2fa == self.users()[email@].requires_2fa,
                Err(UserStoreError::UserNotFound) => !self.users().contains_key(email@),
                Err(UserStoreError::IncorrectCredentials) => self.users().contains_key(email@)
                    && self.users()[email@].password != password@,
                Err(_) => false,
            },
    ;
}

/// The revocation set: session tokens that must be rejected even while still
/// cryptographically valid.
pub trait BannedTokenStore: Sized {
    spec fn tokens(&self) -> Set<Seq<char>>;

    /// Marks the token as revoked; inserting it again changes nothing.
    fn add(&mut self, token: String)
        ensures
            final(self).tokens() == old(self).tokens().insert(token@),
    ;

    /// Whether the token has been revoked.
    fn contains(&self, token: &str) -> (r: bool)
        ensures
            r == self.tokens().contains(token@),
    ;
}

/// At most one outstanding two-factor challenge per email.
///
/// As with `UserStore`, a conforming implementation never returns
/// `UnexpectedError`.
pub trait TwoFACodeStore: Sized {
    spec fn wf(&self) -> bool;

    spec fn codes(&self) -> Map<Seq<char>, ChallengeModel>;

    /// Records the challenge, silently replacing any outstanding one for the
    /// same email (last writer wins).
    fn add_code(&mut self, email: Email, login_attempt_id: LoginAttemptId, code: TwoFACode) -> (r: Result<
        (),
        TwoFACodeStoreError,
    >)
        requires
            old(self).wf(),
        ensures
            final(self).wf(),
            match r {
                Ok(()) => final(self).codes() == old(self).codes().insert(
                    email@,
                    (ChallengeModel { attempt_id: login_attempt_id@, code: code@ }),
                ),
                Err(_) => false,
            },
    ;

    /// Deletes the challenge for the email; absence is not an error.
    fn remove_code(&mut self, email: &Email) -> (r: Result<(), TwoFACodeStoreError>)
        requires
            old(self).wf(),
        ensures
            final(self).wf(),
            match r {
                Ok(()) => final(self).codes() == old(self).codes().remove(email@),
                Err(_) => false,
            },
    ;

    /// Returns the outstanding challenge for the email, if any.
    fn get_code(&self, email: &Email) -> (r: Result<(LoginAttemptId, TwoFACode), TwoFACodeStoreError>)
        requires
            self.wf(),
        ensures
            match r {
                Ok(pair) => self.codes().contains_key(email@)
                    && pair.0@ == self.codes()[email@].attempt_id
                    && pair.1@ == self.codes()[email@].code,
                Err(TwoFACodeStoreError::LoginAttemptIdNotFound) => !self.codes().contains_key(email@),
                Err(_) => false,
            },
    ;
}

/// Whether the byte is an ASCII hexadecimal digit, either case.
pub open spec fn is_hex_digit(b: u8) -> bool {
    (0x30 <= b && b <= 0x39) || (0x61 <= b && b <= 0x66) || (0x41 <= b && b <= 0x46)
}

/// The byte with any ASCII upper-case letter folded to lower case.
pub open spec fn ascii_lower(b: u8) -> u8 {
    if 0x41 <= b && b <= 0x5a {
        (b + 0x20) as u8
    } else {
        b
    }
}

/// 32 hexadecimal digits.
pub open spec fn is_simple_uuid(s: Seq<u8>) -> bool {
    s.len() == 32 && forall|i: int| 0 <= i < 32 ==> is_hex_digit(#[trigger] s[i])
}

/// The 8-4-4-4-12 form: hyphens at positions 8, 13, 18 and 23, hexadecimal
/// digits everywhere else.
pub open spec fn is_hyphenated_uuid(s: Seq<u8>) -> bool {
    &&& s.len() == 36
    &&& s[8] == 0x2d
    &&& s[13] == 0x2d
    &&& s[18] == 0x2d
    &&& s[23] == 0x2d
    &&& forall|i: int|
        0 <= i < 36 && i != 8 && i != 13 && i != 18 && i != 23 ==> is_hex_digit(#[trigger] s[i])
}

/// The hyphenated form restricted to lower-case digits, as printed by a
/// generated identifier.
pub open spec fn is_hyphenated_lower_uuid(s: Seq<u8>) -> bool {
    &&& is_hyphenated_uuid(s)
    &&& forall|i: int|
        0 <= i < 36 && i != 8 && i != 13 && i != 18 && i != 23 ==> !(0x41 <= #[trigger] s[i]
            && s[i] <= 0x46)
}

/// A hyphenated form wrapped in braces.
pub open spec fn is_braced_uuid(s: Seq<u8>) -> bool {
    s.len() == 38 && s[0] == 0x7b && s[37] == 0x7d && is_hyphenated_uuid(s.subrange(1, 37))
}

/// The bytes of `urn:uuid:`.
pub open spec fn urn_prefix() -> Seq<u8> {
    seq![0x75u8, 0x72, 0x6e, 0x3a, 0x75, 0x75, 0x69, 0x64, 0x3a]
}

/// A hyphenated form after a case-insensitive `urn:uuid:` prefix.
pub open spec fn is_urn_uuid(s: Seq<u8>) -> bool {
    &&& s.len() == 45
    &&& forall|i: int| 0 <= i < 9 ==> ascii_lower(#[trigger] s[i]) == urn_prefix()[i]
    &&& is_hyphenated_uuid(s.subrange(9, 45))
}

/// The exact set of byte strings accepted as a UUID: the simple, hyphenated,
/// braced and URN forms.
pub open spec fn spec_uuid_str(s: Seq<u8>) -> bool {
    is_simple_uuid(s) || is_hyphenated_uuid(s) || is_braced_uuid(s) || is_urn_uuid(s)
}

/// Validity of a login attempt identifier given as characters.
pub open spec fn valid_login_attempt_id(s: Seq<char>) -> bool {
    spec_uuid_str(encode_utf8(s))
}

/// Relies on `uuid::Uuid::parse_str`: it accepts exactly the simple (32 hex
/// digits), hyphenated (8-4-4-4-12), braced and case-insensitive
/// `urn:uuid:`-prefixed forms, the set `spec_uuid_str` describes.
#[verifier::external_body]
fn uuid_parse_check(id: &str) -> (r: Result<(), String>)
    ensures
        r is Ok <==> spec_uuid_str(encode_utf8(id@)),
{
    match uuid::Uuid::parse_str(id) {
        Ok(_) => Ok(()),
        Err(e) => Err(e.to_string()),
    }
}

/// Relies on `uuid::Uuid::new_v4` and its display form: a generated UUID
/// prints as 36 bytes in the hyphenated form with lower-case digits.
#[verifier::external_body]
fn uuid_new_v4_string() -> (r: String)
    ensures
        is_hyphenated_lower_uuid(encode_utf8(r@)),
{
    uuid::Uuid::new_v4().to_string()
}

/// Whether the character is an ASCII letter or digit.
pub open spec fn is_ascii_alnum(c: char) -> bool {
    ('0' <= c && c <= '9') || ('a' <= c && c <= 'z') || ('A' <= c && c <= 'Z')
}

/// Relies on rand's `Alphanumeric` distribution: every sampled byte is an
/// ASCII letter or digit, and `sample_string` collects exactly `len` of them.
#[verifier::external_body]
fn random_alphanumeric_string(len: usize) -> (r: String)
    ensures
        r@.len() == len as int,
        forall|i: int| 0 <= i < r@.len() ==> is_ascii_alnum(#[trigger] r@[i]),
{
    Alphanumeric.sample_string(&mut rand::rng(), len)
}

/// A per-login identifier for an outstanding two-factor challenge; always a
/// UUID string.
#[derive(Debug)]
pub struct LoginAttemptId(String);

impl View for LoginAttemptId {
    type V = Seq<char>;

    closed spec fn view(&self) -> Seq<char> {
        self.0@
    }
}

impl LoginAttemptId {
    /// Accepts exactly the strings that satisfy `valid_login_attempt_id`; the
    /// error carries the parser's message.
    pub fn parse(id: String) -> (r: Result<Self, String>)
        ensures
            r is Ok <==> valid_login_attempt_id(id@),
            r matches Ok(l) ==> l@ == id@,
    {
        match uuid_parse_check(id.as_str()) {
            Ok(()) => Ok(LoginAttemptId(id)),
            Err(e) => Err(e),
        }
    }

    /// Borrows the identifier as a string slice.
    pub fn as_str(&self) -> (r: &str)
        ensures
            r@ == self@,
    {
        self.0.as_str()
    }
}

impl Default for LoginAttemptId {
    /// A freshly generated identifier; it always satisfies
    /// `valid_login_attempt_id`.
    fn default() -> (r: Self)
        ensures
            is_hyphenated_lower_uuid(encode_utf8(r@)),
            valid_login_attempt_id(r@),
    {
        LoginAttemptId(uuid_new_v4_string())
    }
}

impl Clone for LoginAttemptId {
    fn clone(&self) -> (r: Self)
        ensures
            r == *self,
    {
        LoginAttemptId(self.0.clone())
    }
}

impl PartialEq for LoginAttemptId {
    fn eq(&self, other: &Self) -> (r: bool) {
        self.0 == other.0
    }
}

impl Eq for LoginAttemptId {

}

impl vstd::std_specs::cmp::PartialEqSpecImpl for LoginAttemptId {
    open spec fn obeys_eq_spec() -> bool {
        true
    }

    open spec fn eq_spec(&self, other: &Self) -> bool {
        self@ == other@
    }
}

/// Validity of a one-time code given as characters: six bytes once the edges
/// are trimmed.
pub open spec fn valid_2fa_code(s: Seq<char>) -> bool {
    spec_trimmed_len(encode_utf8(s)) == 6
}

/// A one-time code delivered out of band during a two-factor login.
#[derive(Debug)]
pub struct TwoFACode(String);

impl View for TwoFACode {
    type V = Seq<char>;

    closed spec fn view(&self) -> Seq<char> {
        self.0@
    }
}

/// Six ASCII letters or digits always form a valid one-time code.
proof fn lemma_alnum_is_valid_code(s: Seq<char>)
    requires
        s.len() == 6,
        forall|i: int| 0 <= i < s.len() ==> is_ascii_alnum(#[trigger] s[i]),
    ensures
        valid_2fa_code(s),
{
    assert(vstd::utf8::is_ascii_chars(s));
    vstd::utf8::is_ascii_chars_encode_utf8(s);
    let b = encode_utf8(s);
    assert(b.len() == 6);
    assert(!is_space(b[0]));
    assert(!is_space(b.last()));
    reveal_with_fuel(crate::domain::count_leading, 2);
    reveal_with_fuel(crate::domain::count_trailing, 2);
    assert(spec_trimmed_len(b) == 6);
}

impl TwoFACode {
    /// Accepts exactly the strings that satisfy `valid_2fa_code`.
    pub fn parse(code: String) -> (r: Result<Self, String>)
        ensures
            r is Ok <==> valid_2fa_code(code@),
            r matches Ok(c) ==> c@ == code@,
    {
        if crate::domain::trimmed_len(code.as_str().as_bytes()) != 6 {
            return Err("Invalid length".to_owned());
        }
        Ok(TwoFACode(code))
    }

    /// Borrows the code as a string slice.
    pub fn as_str(&self) -> (r: &str)
        ensures
            r@ == self@,
    {
        self.0.as_str()
    }
}

impl Default for TwoFACode {
    /// A freshly generated six-character alphanumeric code; it always
    /// satisfies `valid_2fa_code`.
    fn default() -> (r: Self)
        ensures
            valid_2fa_code(r@),
            r@.len() == 6,
            forall|i: int| 0 <= i < r@.len() ==> is_ascii_alnum(#[trigger] r@[i]),
    {
        let code = random_alphanumeric_string(6);
        proof {
            lemma_alnum_is_valid_code(code@);
        }
        TwoFACode(code)
    }
}

impl Clone for TwoFACode {
    fn clone(&self) -> (r: Self)
        ensures
            r == *self,
    {
        TwoFACode(self.0.clone())
    }
}

impl PartialEq for TwoFACode {
    fn eq(&self, other: &Self) -> (r: bool) {
        self.0 == other.0
    }
}

impl Eq for TwoFACode {

}

impl vstd::std_specs::cmp::PartialEqSpecImpl for TwoFACode {
    open spec fn obeys_eq_spec() -> bool {
        true
    }

    open spec fn eq_spec(&self, other: &Self) -> bool {
        self@ == other@
    }
}

} // verus!
