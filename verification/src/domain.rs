//! Credential value types: validated email addresses and passwords.
//!
//! Validation works on the UTF-8 bytes of the input, so the rules below are
//! stated over `Seq<u8>`; the types themselves keep the original string and
//! their views are the string's character sequence.

use vstd::prelude::*;

pub mod data_stores;
pub mod email_client;

verus! {

use vstd::utf8::encode_utf8;

/// Bytes treated as blank when the edges of an input are trimmed: the ASCII
/// space and the control characters tab through carriage return.
pub open spec fn is_space(b: u8) -> bool {
    b == 0x20 || (0x09 <= b && b <= 0x0d)
}

/// Number of blank bytes at the front of `s`.
pub open spec fn count_leading(s: Seq<u8>) -> int
    decreases s.len(),
{
    if s.len() == 0 {
        0
    } else if is_space(s[0]) {
        1 + count_leading(s.drop_first())
    } else {
        0
    }
}

/// Number of blank bytes at the back of `s`.
pub open spec fn count_trailing(s: Seq<u8>) -> int
    decreases s.len(),
{
    if s.len() == 0 {
        0
    } else if is_space(s.last()) {
        1 + count_trailing(s.drop_last())
    } else {
        0
    }
}

/// Length of `s` once blank bytes at both edges are removed.
pub open spec fn spec_trimmed_len(s: Seq<u8>) -> int {
    if count_leading(s) == s.len() {
        0
    } else {
        s.len() - count_leading(s) - count_trailing(s)
    }
}

proof fn lemma_count_leading(s: Seq<u8>, i: int)
    requires
        0 <= i <= s.len(),
        forall|k: int| 0 <= k < i ==> is_space(s[k]),
        i < s.len() ==> !is_space(s[i]),
    ensures
        count_leading(s) == if i < s.len() { i } else { s.len() as int },
    decreases i,
{
    if i == 0 {
    } else {
        lemma_count_leading(s.drop_first(), i - 1);
    }
}

proof fn lemma_count_trailing(s: Seq<u8>, j: int)
    requires
        0 <= j <= s.len(),
        forall|k: int| j <= k < s.len() ==> is_space(s[k]),
        j > 0 ==> !is_space(s[j - 1]),
    ensures
        count_trailing(s) == s.len() - j,
    decreases s.len() - j,
{
    if j == s.len() {
    } else {
        assert(forall|k: int| j <= k < s.drop_last().len() ==> is_space(#[trigger] s.drop_last()[k]));
        lemma_count_trailing(s.drop_last(), j);
    }
}

fn is_space_byte(b: u8) -> (r: bool)
    ensures
        r == is_space(b),
{
    b == 0x20 || (0x09 <= b && b <= 0x0d)
}

/// Length of `s` with blank bytes at both edges removed.
pub fn trimmed_len(s: &[u8]) -> (r: usize)
    ensures
        r == spec_trimmed_len(s@),
{
    let n = s.len();
    let mut i: usize = 0;
    while i < n && is_space_byte(s[i])
        invariant
            0 <= i <= n,
            n == s@.len(),
            forall|k: int| 0 <= k < i ==> is_space(s@[k]),
        decreases n - i,
    {
        i = i + 1;
    }
    proof {
        lemma_count_leading(s@, i as int);
    }
    if i == n {
        return 0;
    }
    let mut j: usize = n;
    while j > i && is_space_byte(s[j - 1])
        invariant
            i <= j <= n,
            n == s@.len(),
            i < n,
            !is_space(s@[i as int]),
            forall|k: int| j <= k < n ==> is_space(s@[k]),
        decreases j,
    {
        j = j - 1;
    }
    proof {
        lemma_count_trailing(s@, j as int);
    }
    j - i
}

/// Whether `s` holds the byte `b` anywhere.
pub fn contains_byte(s: &[u8], b: u8) -> (r: bool)
    ensures
        r == exists|i: int| 0 <= i < s@.len() && s@[i] == b,
{
    let n = s.len();
    let mut i: usize = 0;
    while i < n
        invariant
            0 <= i <= n,
            n == s@.len(),
            forall|k: int| 0 <= k < i ==> s@[k] != b,
        decreases n - i,
    {
        if s[i] == b {
            return true;
        }
        i = i + 1;
    }
    false
}

/// Whether two byte slices hold the same bytes.
pub fn bytes_eq(a: &[u8], b: &[u8]) -> (r: bool)
    ensures
        r == (a@ == b@),
{
    let n = a.len();
    if n != b.len() {
        return false;
    }
    let mut i: usize = 0;
    while i < n
        invariant
            0 <= i <= n,
            n == a@.len(),
            n == b@.len(),
            forall|k: int| 0 <= k < i ==> a@[k] == b@[k],
        decreases n - i,
    {
        if a[i] != b[i] {
            return false;
        }
        i = i + 1;
    }
    proof {
        assert(a@ =~= b@);
    }
    true
}

/// Whether two string slices hold the same characters.
pub fn str_eq(a: &str, b: &str) -> (r: bool)
    ensures
        r == (a@ == b@),
{
    let r = bytes_eq(a.as_bytes(), b.as_bytes());
    proof {
        vstd::utf8::encode_utf8_decode_utf8(a@);
        vstd::utf8::encode_utf8_decode_utf8(b@);
    }
    r
}

/// An email address is accepted when something remains after trimming and an
/// `@` occurs somewhere; no further structure is checked.
pub open spec fn valid_email_bytes(s: Seq<u8>) -> bool {
    &&& spec_trimmed_len(s) > 0
    &&& exists|i: int| 0 <= i < s.len() && s[i] == 0x40
}

/// Validity of an email address given as characters.
pub open spec fn valid_email(s: Seq<char>) -> bool {
    valid_email_bytes(encode_utf8(s))
}

/// A password is accepted when at least 8 bytes remain after trimming.
pub open spec fn valid_password_bytes(s: Seq<u8>) -> bool {
    spec_trimmed_len(s) >= 8
}

/// Validity of a password given as characters.
pub open spec fn valid_password(s: Seq<char>) -> bool {
    valid_password_bytes(encode_utf8(s))
}

/// A validated email address; the stored string is exactly the input that was
/// accepted.
#[derive(Debug)]
pub struct Email(String);

impl View for Email {
    type V = Seq<char>;

    closed spec fn view(&self) -> Seq<char> {
        self.0@
    }
}

impl Email {
    /// Accepts exactly the inputs that satisfy `valid_email`.
    pub fn parse(email: &str) -> (r: Result<Self, ()>)
        ensures
            r is Ok <==> valid_email(email@),
            r matches Ok(e) ==> e@ == email@,
    {
        let bytes = email.as_bytes();
        if trimmed_len(bytes) == 0 {
            return Err(());
        }
        if !contains_byte(bytes, 0x40) {
            return Err(());
        }
        Ok(Email(email.to_owned()))
    }

    /// The address as the string it was parsed from.
    pub fn to_string(self) -> (r: String)
        ensures
            r@ == self@,
    {
        self.0
    }

    /// Borrows the address as a string slice.
    pub fn as_str(&self) -> (r: &str)
        ensures
            r@ == self@,
    {
        self.0.as_str()
    }
}

impl Clone for Email {
    fn clone(&self) -> (r: Self)
        ensures
            r == *self,
    {
        Email(self.0.clone())
    }
}

impl PartialEq for Email {
    fn eq(&self, other: &Self) -> (r: bool) {
        self.0 == other.0
    }
}

impl Eq for Email {

}

impl vstd::std_specs::cmp::PartialEqSpecImpl for Email {
    open spec fn obeys_eq_spec() -> bool {
        true
    }

    open spec fn eq_spec(&self, other: &Self) -> bool {
        self@ == other@
    }
}

/// A validated password; the stored string is exactly the input that was
/// accepted.
#[derive(Debug)]
pub struct Password(String);

impl View for Password {
    type V = Seq<char>;

    closed spec fn view(&self) -> Seq<char> {
        self.0@
    }
}

impl Password {
    /// Accepts exactly the inputs that satisfy `valid_password`.
    pub fn parse(password: &str) -> (r: Result<Self, ()>)
        ensures
            r is Ok <==> valid_password(password@),
            r matches Ok(p) ==> p@ == password@,
    {
        let bytes = password.as_bytes();
        if trimmed_len(bytes) < 8 {
            return Err(());
        }
        Ok(Password(password.to_owned()))
    }

    /// Borrows the password as a string slice.
    pub fn as_str(&self) -> (r: &str)
        ensures
            r@ == self@,
    {
        self.0.as_str()
    }
}

impl Clone for Password {
    fn clone(&self) -> (r: Self)
        ensures
            r == *self,
    {
        Password(self.0.clone())
    }
}

impl PartialEq for Password {
    fn eq(&self, other: &Self) -> (r: bool) {
        self.0 == other.0
    }
}

impl Eq for Password {

}

impl vstd::std_specs::cmp::PartialEqSpecImpl for Password {
    open spec fn obeys_eq_spec() -> bool {
        true
    }

    open spec fn eq_spec(&self, other: &Self) -> bool {
        self@ == other@
    }
}

/// An account: the unique email, the stored password, and whether a second
/// authentication factor is demanded at login.
#[derive(Debug)]
pub struct User {
    pub email: Email,
    pub password: Password,
    pub requires_2fa: bool,
}

impl User {
    pub fn new(email: Email, password: Password, requires_2fa: bool) -> (r: Self)
        ensures
            r.email@ == email@,
            r.password@ == password@,
            r.requires_2fa == requires_2fa,
    {
        User { email, password, requires_2fa }
    }
}

impl Clone for User {
    fn clone(&self) -> (r: Self)
        ensures
            r.email@ == self.email@,
            r.password@ == self.password@,
            r.requires_2fa == self.requires_2fa,
    {
        User { email: self.email.clone(), password: self.password.clone(), requires_2fa: self.requires_2fa }
    }
}

/// The errors the authentication operations surface to their caller.
#[derive(Debug, PartialEq, Eq, Structural, Clone, Copy)]
pub enum AuthAPIError {
    UserAlreadyExists,
    InvalidCredentials,
    MissingToken,
    InvalidToken,
    IncorrectCredentials,
    UnexpectedError,
}

} // verus!
