//! Who is calling: credentials, their validation, and the check that
//! stands before the pages of the administrator.

use crate::idempotency::persistence::{HeaderPairRecord, HeaderPairView, Response, ResponseView};
use crate::utils::{see_other, see_other_view};
use argon2::PasswordVerifier;
use vstd::prelude::*;
use vstd::utf8::{decode_utf8, encode_utf8, valid_utf8};

verus! {

/// The identity of a caller who has logged in.
#[derive(Debug, PartialEq, Eq, Clone, Copy, Structural)]
pub struct UserId(pub u128);

/// What a caller presents to be recognised.
#[derive(Debug, PartialEq, Eq)]
pub struct Credentials {
    pub username: String,
    pub password: String,
}

/// Why a caller was not recognised.
#[derive(Debug, PartialEq, Eq, Clone, Copy, Structural)]
pub enum AuthError {
    /// The user is unknown or the password is wrong.
    InvalidCredentials,
    /// The validation itself failed.
    UnexpectedError,
}

/// Lets a caller with a session through, and sends any other to the login
/// page.
pub fn reject_anonymous_users(session_user_id: Option<u128>) -> (result: Result<UserId, Response>)
    ensures
        match session_user_id {
            Some(user_id) => result == Ok::<_, Response>(UserId(user_id)),
            None => result matches Err(response) && response@ == see_other_view("/login"@),
        },
{
    match session_user_id {
        Some(user_id) => Ok(UserId(user_id)),
        None => Err(see_other("/login")),
    }
}

/// Whether a text is a password hash in the PHC string format, as
/// `PasswordHash::new` of the crate argon2 decides it.
pub uninterp spec fn is_phc_string(text: Seq<char>) -> bool;

/// Whether a password verifies against a password hash in the PHC string
/// format, as `verify_password` of Argon2 with its default parameters
/// decides it. No password verifies against a text that is no such hash.
pub uninterp spec fn argon2_accepts(password: Seq<u8>, hash: Seq<char>) -> bool;

/// Calls `PasswordHash::new`, which parses a password hash from a text in
/// the PHC string format and refuses every other text.
#[verifier::external_body]
fn is_password_hash(text: &str) -> (parsed: bool)
    ensures
        parsed == is_phc_string(text@),
{
    argon2::PasswordHash::new(text).is_ok()
}

/// Calls `verify_password` on Argon2 with its default parameters, which
/// hashes the password as the hash prescribes and compares the outcome with
/// the hash. The hash is handed over as `PasswordHash::new` parses it.
#[verifier::external_body]
fn argon2_verifies(password: &[u8], hash: &str) -> (verified: bool)
    ensures
        verified == argon2_accepts(password@, hash@),
{
    match argon2::PasswordHash::new(hash) {
        Ok(parsed) => argon2::Argon2::default().verify_password(password, &parsed).is_ok(),
        Err(_) => false,
    }
}

/// Decides on a password from what parsing the expected hash and verifying
/// the candidate against it have given. A hash that does not parse is an
/// unexpected error; a candidate that does not verify is refused.
pub fn password_verdict(hash_parsed: bool, verified: bool) -> (result: Result<(), AuthError>)
    ensures
        result == (if !hash_parsed {
            Err::<(), _>(AuthError::UnexpectedError)
        } else if !verified {
            Err::<(), _>(AuthError::InvalidCredentials)
        } else {
            Ok::<(), AuthError>(())
        }),
{
    if !hash_parsed {
        Err(AuthError::UnexpectedError)
    } else if !verified {
        Err(AuthError::InvalidCredentials)
    } else {
        Ok(())
    }
}

/// What verifying a candidate password against an expected hash gives.
pub open spec fn password_check(expected_password_hash: Seq<char>, password_candidate: Seq<char>) -> Result<
    (),
    AuthError,
> {
    if !is_phc_string(expected_password_hash) {
        Err(AuthError::UnexpectedError)
    } else if !argon2_accepts(encode_utf8(password_candidate), expected_password_hash) {
        Err(AuthError::InvalidCredentials)
    } else {
        Ok(())
    }
}

/// Verifies a candidate password against the hash that is expected. A hash
/// that is no PHC string is an unexpected error; a candidate that Argon2
/// does not accept is refused.
pub fn verify_password_hash(expected_password_hash: &str, password_candidate: &str) -> (result:
    Result<(), AuthError>)
    ensures
        result == password_check(expected_password_hash@, password_candidate@),
{
    let hash_parsed = is_password_hash(expected_password_hash);
    let verified = hash_parsed && argon2_verifies(
        password_candidate.as_bytes(),
        expected_password_hash,
    );
    password_verdict(hash_parsed, verified)
}

/// The hash that the candidate is verified against when the user is
/// unknown, so that an unknown user costs as much time as a known one.
pub const DUMMY_HASH: &'static str =
    "$argon2id$v=19$m=15000,t=2,p=1$gZiV/M1gPc22ElAH/Jh1Hw$CWOrkoo7oJBQ/iyh7uJ0LO2aLEfrHwTWllSAxT0zRno";

/// What validating credentials gives, by what is stored for the user name.
pub open spec fn validation(stored: Option<(u128, Seq<char>)>, password: Seq<char>) -> Result<
    u128,
    AuthError,
> {
    match stored {
        Some((user_id, hash)) => match password_check(hash, password) {
            Ok(()) => Ok(user_id),
            Err(error) => Err(error),
        },
        None => match password_check(DUMMY_HASH@, password) {
            Ok(()) => Err(AuthError::InvalidCredentials),
            Err(error) => Err(error),
        },
    }
}

/// Validates credentials against what is stored for the user name: the
/// identity of the user and the hash of the password, or nothing where the
/// user is unknown. The password is verified in either case; an unknown
/// user is refused even if it verifies.
pub fn validate_credentials(stored: Option<(u128, String)>, credentials: Credentials) -> (result:
    Result<u128, AuthError>)
    ensures
        result == validation(
            match stored {
                Some((user_id, hash)) => Some((user_id, hash@)),
                None => None,
            },
            credentials.password@,
        ),
{
    let verified = match &stored {
        Some((_, stored_password_hash)) => verify_password_hash(
            stored_password_hash.as_str(),
            credentials.password.as_str(),
        ),
        None => verify_password_hash(DUMMY_HASH, credentials.password.as_str()),
    };
    match verified {
        Ok(()) => match stored {
            Some((user_id, _)) => Ok(user_id),
            None => Err(AuthError::InvalidCredentials),
        },
        Err(error) => Err(error),
    }
}

/// The response that reports a failed authentication to a client that
/// presents its credentials with every request.
pub open spec fn error_response_view(error: AuthError) -> ResponseView {
    match error {
        AuthError::UnexpectedError => ResponseView {
            status_code: 500,
            headers: Seq::empty(),
            body: Seq::empty(),
        },
        AuthError::InvalidCredentials => ResponseView {
            status_code: 401,
            headers: seq![
                HeaderPairView {
                    name: "www-authenticate"@,
                    value: encode_utf8("Basic realm=\"publish\""@),
                },
            ],
            body: Seq::empty(),
        },
    }
}

/// Builds the response that reports a failed authentication: 500 for an
/// unexpected error; 401 for refused credentials, with the header that
/// asks for credentials under the scheme `Basic`.
pub fn error_response(error: AuthError) -> (response: Response)
    ensures
        response@ == error_response_view(error),
{
    let mut headers: Vec<HeaderPairRecord> = Vec::new();
    let body: Vec<u8> = Vec::new();
    match error {
        AuthError::UnexpectedError => {
            assert(headers.deep_view() =~= Seq::empty());
            Response::new(500, headers, body).unwrap()
        },
        AuthError::InvalidCredentials => {
            headers.push(
                HeaderPairRecord {
                    name: String::from_str("www-authenticate"),
                    value: "Basic realm=\"publish\"".as_bytes_vec(),
                },
            );
            assert(headers.deep_view() =~= error_response_view(error).headers);
            Response::new(401, headers, body).unwrap()
        },
    }
}

/// Why the `Authorization` header gave no credentials.
#[derive(Debug, PartialEq, Eq, Clone, Copy, Structural)]
pub enum BasicAuthError {
    /// The header is missing.
    MissingHeader,
    /// The header holds a byte that is no visible ASCII character.
    NotAString,
    /// The header does not begin with the scheme `Basic` and a space.
    NotBasic,
    /// What follows the scheme is not base64.
    NotBase64,
    /// The decoded credentials are not UTF-8.
    NotUtf8,
    /// The decoded credentials hold no colon, and so no password.
    MissingPassword,
}

/// The bytes that a base64 text in the standard alphabet decodes to, as
/// `decode_config` of the crate base64 gives them, or nothing where it
/// refuses the text.
pub uninterp spec fn base64_decoded(encoded: Seq<u8>) -> Option<Seq<u8>>;

/// Calls `base64::decode_config` with the standard alphabet. It rounds the
/// length of the text up to whole chunks of eight bytes and fails where that
/// cannot be computed; a text of such a length is left out.
#[verifier::external_body]
fn decode_base64(encoded: &[u8]) -> (decoded: Option<Vec<u8>>)
    requires
        encoded@.len() + 7 <= usize::MAX,
    ensures
        match decoded {
            Some(bytes) => base64_decoded(encoded@) == Some(bytes@),
            None => base64_decoded(encoded@) is None,
        },
{
    base64::decode_config(encoded, base64::STANDARD).ok()
}

/// Calls `String::from_utf8`, which turns bytes into the text that they
/// encode and refuses bytes that are not UTF-8.
#[verifier::external_body]
fn string_from_utf8(bytes: Vec<u8>) -> (text: Option<String>)
    ensures
        text is Some <==> valid_utf8(bytes@),
        text matches Some(decoded) ==> decoded@ == decode_utf8(bytes@),
{
    String::from_utf8(bytes).ok()
}

/// Whether a byte is a visible ASCII character or a tab.
pub open spec fn is_visible_ascii(byte: u8) -> bool {
    32 <= byte < 127 || byte == 9
}

/// The scheme and the space that begin the header: `Basic `.
pub open spec fn basic_prefix() -> Seq<u8> {
    seq![66u8, 97u8, 115u8, 105u8, 99u8, 32u8]
}

/// Whether the first colon of a text stands at `at`.
pub open spec fn is_first_colon(text: Seq<char>, at: int) -> bool {
    &&& 0 <= at < text.len()
    &&& text[at] == ':'
    &&& forall|j: int| 0 <= j < at ==> text[j] != ':'
}

/// Mathematical content of [`Credentials`].
pub struct CredentialsView {
    pub username: Seq<char>,
    pub password: Seq<char>,
}

impl View for Credentials {
    type V = CredentialsView;

    open spec fn view(&self) -> CredentialsView {
        CredentialsView { username: self.username@, password: self.password@ }
    }
}

/// The credentials that decoded bytes hold: the user name before the first
/// colon, the password behind it.
pub open spec fn credentials_in(decoded: Seq<u8>) -> Result<CredentialsView, BasicAuthError> {
    if !valid_utf8(decoded) {
        Err(BasicAuthError::NotUtf8)
    } else {
        let text = decode_utf8(decoded);
        if exists|at: int| is_first_colon(text, at) {
            let at = choose|at: int| is_first_colon(text, at);
            Ok(
                CredentialsView {
                    username: text.subrange(0, at),
                    password: text.subrange(at + 1, text.len() as int),
                },
            )
        } else {
            Err(BasicAuthError::MissingPassword)
        }
    }
}

/// The credentials that the value of an `Authorization` header holds.
pub open spec fn basic_credentials(header: Option<Seq<u8>>) -> Result<
    CredentialsView,
    BasicAuthError,
> {
    match header {
        None => Err(BasicAuthError::MissingHeader),
        Some(value) => {
            if exists|i: int| 0 <= i < value.len() && !is_visible_ascii(#[trigger] value[i]) {
                Err(BasicAuthError::NotAString)
            } else if value.len() < 6 || value.subrange(0, 6) != basic_prefix() {
                Err(BasicAuthError::NotBasic)
            } else if value.len() + 1 > usize::MAX {
                // Too long for its length to be rounded up to whole chunks.
                Err(BasicAuthError::NotBase64)
            } else {
                match base64_decoded(value.subrange(6, value.len() as int)) {
                    None => Err(BasicAuthError::NotBase64),
                    Some(decoded) => credentials_in(decoded),
                }
            }
        },
    }
}

/// Whether an executable result stands for the given mathematical one.
pub open spec fn is_credentials_result(
    result: Result<Credentials, BasicAuthError>,
    expected: Result<CredentialsView, BasicAuthError>,
) -> bool {
    match result {
        Ok(credentials) => expected == Ok::<CredentialsView, BasicAuthError>(credentials@),
        Err(error) => expected == Err::<CredentialsView, BasicAuthError>(error),
    }
}

/// Reads the credentials out of decoded bytes.
#[verifier::loop_isolation(false)]
pub fn credentials_from_decoded(decoded: Vec<u8>) -> (result: Result<Credentials, BasicAuthError>)
    ensures
        is_credentials_result(result, credentials_in(decoded@)),
{
    let text = match string_from_utf8(decoded) {
        Some(text) => text,
        None => {
            return Err(BasicAuthError::NotUtf8);
        },
    };
    let length = text.as_str().unicode_len();
    let mut at: usize = 0;
    while at < length
        invariant
            at <= length,
            length == text@.len(),
            forall|j: int| 0 <= j < at ==> text@[j] != ':',
        decreases length - at,
    {
        if text.as_str().get_char(at) == ':' {
            proof {
                assert(is_first_colon(text@, at as int));
                let chosen = choose|c: int| is_first_colon(text@, c);
                assert(chosen == at);
            }
            let username = text.as_str().substring_char(0, at);
            let password = text.as_str().substring_char(at + 1, length);
            return Ok(
                Credentials {
                    username: String::from_str(username),
                    password: String::from_str(password),
                },
            );
        }
        at += 1;
    }
    assert(!exists|c: int| is_first_colon(text@, c));
    Err(BasicAuthError::MissingPassword)
}

/// Reads the credentials out of the value of an `Authorization` header
/// with the scheme `Basic`: the user name and the password, joined by a
/// colon and encoded in base64.
#[verifier::loop_isolation(false)]
pub fn basic_authentication(header: Option<&[u8]>) -> (result: Result<Credentials, BasicAuthError>)
    ensures
        is_credentials_result(
            result,
            basic_credentials(
                match header {
                    Some(value) => Some(value@),
                    None => None,
                },
            ),
        ),
{
    let value = match header {
        Some(value) => value,
        None => {
            return Err(BasicAuthError::MissingHeader);
        },
    };
    let mut i: usize = 0;
    while i < value.len()
        invariant
            i <= value.len(),
            forall|j: int| 0 <= j < i ==> is_visible_ascii(#[trigger] value@[j]),
        decreases value.len() - i,
    {
        let byte = value[i];
        if !((32 <= byte && byte < 127) || byte == 9) {
            assert(!is_visible_ascii(value@[i as int]));
            return Err(BasicAuthError::NotAString);
        }
        i += 1;
    }
    if value.len() < 6 {
        return Err(BasicAuthError::NotBasic);
    }
    let (scheme, encoded_segment) = value.split_at(6);
    if !(scheme[0] == 66 && scheme[1] == 97 && scheme[2] == 115 && scheme[3] == 105 && scheme[4]
        == 99 && scheme[5] == 32) {
        assert(scheme@ != basic_prefix()) by {
            if scheme@ == basic_prefix() {
                assert(basic_prefix()[0] == 66 && basic_prefix()[1] == 97 && basic_prefix()[2]
                    == 115 && basic_prefix()[3] == 105 && basic_prefix()[4] == 99
                    && basic_prefix()[5] == 32);
            }
        }
        return Err(BasicAuthError::NotBasic);
    }
    assert(scheme@ =~= basic_prefix());
    if encoded_segment.len() > usize::MAX - 7 {
        return Err(BasicAuthError::NotBase64);
    }
    match decode_base64(encoded_segment) {
        Some(decoded) => credentials_from_decoded(decoded),
        None => Err(BasicAuthError::NotBase64),
    }
}

} // verus!
