//! Password hashing with Argon2.

use vstd::prelude::*;

use argon2::password_hash::{PasswordHasher as ArgonHasher, PasswordVerifier};

use crate::text::push_str;

verus! {

/// Why a password could not be hashed or checked.
#[derive(Debug)]
pub enum PasswordError {
    HashError(String),
    VerifyError(String),
    InvalidFormat,
}

/// The mathematical value of a [`PasswordError`].
pub enum PasswordErrorView {
    HashError(Seq<char>),
    VerifyError(Seq<char>),
    InvalidFormat,
}

impl View for PasswordError {
    type V = PasswordErrorView;

    open spec fn view(&self) -> PasswordErrorView {
        match self {
            PasswordError::HashError(m) => PasswordErrorView::HashError(m@),
            PasswordError::VerifyError(m) => PasswordErrorView::VerifyError(m@),
            PasswordError::InvalidFormat => PasswordErrorView::InvalidFormat,
        }
    }
}

/// The message of a password error.
pub open spec fn spec_password_error_message(e: PasswordErrorView) -> Seq<char> {
    match e {
        PasswordErrorView::HashError(m) => "Failed to hash password: "@ + m,
        PasswordErrorView::VerifyError(m) => "Failed to verify password: "@ + m,
        PasswordErrorView::InvalidFormat => "Invalid hash format"@,
    }
}

impl PasswordError {
    /// The error's message.
    pub fn message(&self) -> (r: String)
        ensures
            r@ == spec_password_error_message(self@),
    {
        match self {
            PasswordError::HashError(m) => {
                let mut r = "Failed to hash password: ".to_owned();
                push_str(&mut r, m.as_str());
                r
            },
            PasswordError::VerifyError(m) => {
                let mut r = "Failed to verify password: ".to_owned();
                push_str(&mut r, m.as_str());
                r
            },
            PasswordError::InvalidFormat => "Invalid hash format".to_owned(),
        }
    }
}

/// What checking a password against a PHC hash string gives.
pub enum Argon2Check {
    /// The text is not a PHC hash string.
    Malformed,
    /// The password gives the stored hash.
    Match,
    /// The password gives another hash.
    Mismatch,
    /// The check failed, with this message.
    Failed(String),
}

/// The mathematical value of an [`Argon2Check`].
pub enum Argon2CheckView {
    Malformed,
    Match,
    Mismatch,
    Failed(Seq<char>),
}

impl View for Argon2Check {
    type V = Argon2CheckView;

    open spec fn view(&self) -> Argon2CheckView {
        match self {
            Argon2Check::Malformed => Argon2CheckView::Malformed,
            Argon2Check::Match => Argon2CheckView::Match,
            Argon2Check::Mismatch => Argon2CheckView::Mismatch,
            Argon2Check::Failed(m) => Argon2CheckView::Failed(m@),
        }
    }
}

/// Names what `PasswordVerifier::verify_password` of the default Argon2
/// hasher gives for a password (as bytes) and a PHC hash string.
pub uninterp spec fn spec_argon2_verify(password: Seq<u8>, phc: Seq<char>) -> Argon2CheckView;

/// Names what `PasswordHasher::hash_password` of the default Argon2 hasher
/// gives for a password (as bytes) and a base64 salt: the PHC hash string, or
/// the error's message.
pub uninterp spec fn spec_argon2_hash(password: Seq<u8>, salt: Seq<char>) -> Result<
    Seq<char>,
    Seq<char>,
>;

/// `PasswordHash::new` then `PasswordVerifier::verify_password` of
/// `Argon2::default()` (argon2 0.5): the result is named by
/// `spec_argon2_verify`. A malformed string, a match, a mismatch
/// (`Error::Password`) and any other error are told apart; the password is
/// copied into memory that is wiped when dropped.
#[verifier::external_body]
fn argon2_verify(password: &[u8], phc: &str) -> (r: Argon2Check)
    ensures
        r@ == spec_argon2_verify(password@, phc@),
{
    let password = zeroize::Zeroizing::new(password.to_vec());
    match argon2::password_hash::PasswordHash::new(phc) {
        Err(_) => Argon2Check::Malformed,
        Ok(parsed) => match argon2::Argon2::default().verify_password(&password, &parsed) {
            Ok(()) => Argon2Check::Match,
            Err(argon2::password_hash::Error::Password) => Argon2Check::Mismatch,
            Err(e) => Argon2Check::Failed(e.to_string()),
        },
    }
}

/// Whether `c` is a character of the standard base64 alphabet
/// (`A`-`Z`, `a`-`z`, `0`-`9`, `+`, `/`).
pub open spec fn is_b64_char(c: char) -> bool {
    ||| 65 <= (c as u32) <= 90
    ||| 97 <= (c as u32) <= 122
    ||| 48 <= (c as u32) <= 57
    ||| c == '+'
    ||| c == '/'
}

/// The six bits a base64 character stands for.
pub open spec fn b64_value(c: char) -> int {
    if 65 <= (c as u32) <= 90 {
        (c as u32) - 65
    } else if 97 <= (c as u32) <= 122 {
        (c as u32) - 97 + 26
    } else if 48 <= (c as u32) <= 57 {
        (c as u32) - 48 + 52
    } else if c == '+' {
        62
    } else {
        63
    }
}

/// Whether `s` is the unpadded base64 text of 16 bytes: 22 characters of the
/// alphabet, the last of which carries no bits beyond the 128 encoded.
pub open spec fn is_salt_of_16_bytes(s: Seq<char>) -> bool {
    &&& s.len() == 22
    &&& forall|i: int| 0 <= i < 22 ==> is_b64_char(#[trigger] s[i])
    &&& b64_value(s[21]) % 16 == 0
}

/// How a PHC string of the default Argon2 hasher begins.
pub open spec fn phc_prefix() -> Seq<char> {
    "$argon2id$"@
}

/// The longest password Argon2 hashes, in bytes (`argon2::MAX_PWD_LEN`).
pub open spec fn max_password_len() -> nat {
    0xFFFF_FFFF
}

/// `SaltString::generate` with the operating system's random source; its
/// base64 text. The bytes are random; what holds of every outcome is that
/// the text is the unpadded base64 of 16 bytes (`Salt::RECOMMENDED_LENGTH`).
#[verifier::external_body]
fn generate_salt() -> (r: String)
    ensures
        is_salt_of_16_bytes(r@),
{
    argon2::password_hash::SaltString::generate(&mut argon2::password_hash::rand_core::OsRng).as_str().to_owned()
}

/// `PasswordHasher::hash_password` of `Argon2::default()` with a base64 salt
/// (argon2 0.5), as a PHC string: named by `spec_argon2_hash`. As the
/// verifier recomputes the hash with the parameters and salt that the string
/// records, the password checks against the string it was hashed to. A salt
/// of 16 bytes passes `Salt::from_b64` (4 to 64 characters of the alphabet)
/// and Argon2's salt bounds (8 bytes and more), and the default parameters
/// are valid, so hashing succeeds for every password within `MAX_PWD_LEN`.
/// The string starts with `$`, the algorithm (`argon2id`, the default) and
/// `$` before the version.
#[verifier::external_body]
fn argon2_hash(password: &[u8], salt: &str) -> (r: Result<String, String>)
    ensures
        match r {
            Ok(h) => spec_argon2_hash(password@, salt@) == Ok::<Seq<char>, Seq<char>>(h@),
            Err(m) => spec_argon2_hash(password@, salt@) == Err::<Seq<char>, Seq<char>>(m@),
        },
        r matches Ok(h) ==> spec_argon2_verify(password@, h@) == Argon2CheckView::Match,
        r matches Ok(h) ==> phc_prefix().is_prefix_of(h@),
        is_salt_of_16_bytes(salt@) && password@.len() <= max_password_len() ==> r is Ok,
{
    let password = zeroize::Zeroizing::new(password.to_vec());
    let salt = match argon2::password_hash::Salt::from_b64(salt) {
        Ok(s) => s,
        Err(e) => return Err(e.to_string()),
    };
    match argon2::Argon2::default().hash_password(&password, salt) {
        Ok(h) => Ok(h.to_string()),
        Err(e) => Err(e.to_string()),
    }
}

/// The result of checking `password` against the hash string `hash`.
pub open spec fn spec_verify(password: Seq<char>, hash: Seq<char>) -> Result<bool, PasswordErrorView> {
    match spec_argon2_verify(vstd::utf8::encode_utf8(password), hash) {
        Argon2CheckView::Malformed => Err(PasswordErrorView::InvalidFormat),
        Argon2CheckView::Match => Ok(true),
        Argon2CheckView::Mismatch => Ok(false),
        Argon2CheckView::Failed(m) => Err(PasswordErrorView::VerifyError(m)),
    }
}

/// The view of a check result.
pub open spec fn verify_result_view(r: Result<bool, PasswordError>) -> Result<bool, PasswordErrorView> {
    match r {
        Ok(b) => Ok(b),
        Err(e) => Err(e@),
    }
}

/// Password hasher using Argon2id with the default parameters.
pub struct PasswordHasher {
    default_parameters: bool,
}

impl PasswordHasher {
    /// Whether the hasher works with Argon2's default parameters (Argon2id,
    /// version 0x13, default costs), the ones `hash` and `verify` use.
    pub closed spec fn uses_default_parameters(&self) -> bool {
        self.default_parameters
    }

    /// Create a new password hasher with default settings
    pub fn new() -> (r: Self)
        ensures
            r.uses_default_parameters(),
    {
        Self { default_parameters: true }
    }

    /// Hash a password with a fresh random salt of 16 bytes. Whatever the
    /// salt, the password checks against the hash it gives, and a password
    /// within Argon2's length limit is always hashed.
    pub fn hash(&self, password: &str) -> (r: Result<String, PasswordError>)
        ensures
            exists|salt: Seq<char>|
                is_salt_of_16_bytes(salt) && match #[trigger] spec_argon2_hash(
                    vstd::utf8::encode_utf8(password@),
                    salt,
                ) {
                    Ok(h) => r matches Ok(s) && s@ == h,
                    Err(m) => r matches Err(e) && e@ == PasswordErrorView::HashError(m),
                },
            r matches Ok(h) ==> spec_verify(password@, h@) == Ok::<bool, PasswordErrorView>(true),
            r matches Ok(h) ==> phc_prefix().is_prefix_of(h@),
            vstd::utf8::encode_utf8(password@).len() <= max_password_len() ==> r is Ok,
    {
        let salt = generate_salt();
        let hashed = argon2_hash(password.as_bytes(), salt.as_str());
        let r = match hashed {
            Ok(h) => Ok(h),
            Err(m) => Err(PasswordError::HashError(m)),
        };
        assert(match spec_argon2_hash(vstd::utf8::encode_utf8(password@), salt@) {
            Ok(h) => r matches Ok(s) && s@ == h,
            Err(m) => r matches Err(e) && e@ == PasswordErrorView::HashError(m),
        });
        r
    }

    /// Verify a password against a hash
    pub fn verify(&self, password: &str, hash: &str) -> (r: Result<bool, PasswordError>)
        ensures
            verify_result_view(r) == spec_verify(password@, hash@),
    {
        match argon2_verify(password.as_bytes(), hash) {
            Argon2Check::Malformed => Err(PasswordError::InvalidFormat),
            Argon2Check::Match => Ok(true),
            Argon2Check::Mismatch => Ok(false),
            Argon2Check::Failed(m) => Err(PasswordError::VerifyError(m)),
        }
    }
}

impl Default for PasswordHasher {
    fn default() -> Self {
        Self::new()
    }
}

} // verus!
