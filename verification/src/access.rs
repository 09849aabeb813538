//! Who may talk to the collector: administrator credentials and password
//! hashes, session and agent tokens, gateway enrollment, and the limits a
//! telemetry batch must respect.

use vstd::prelude::*;
use vstd::utf8::encode_utf8;

use argon2::password_hash::{PasswordHasher, PasswordVerifier};
use subtle::ConstantTimeEq;

use crate::mac_prefix::{sha256, sha256_spec};
use crate::text::{
    chars_of, chars_starts_with, hex_bytes, hex_encode, seq_starts_with, slice_range,
    string_from_chars,
};

verus! {

/// How long an administrator session lasts: seven days, in milliseconds.
pub const SESSION_LIFETIME_MS: u64 = 604_800_000;

/// Why a username was refused.
pub const USERNAME_RULE: &'static str = "username must be 3-32 ASCII letters, digits, dots, dashes, or underscores";

/// Why a password was refused.
pub const PASSWORD_RULE: &'static str = "password must be between 12 and 128 bytes";

/// Administrator credentials as a setup or login request carries them.
#[derive(Clone, Debug, PartialEq, Eq)]
pub struct Credentials {
    pub username: String,
    pub password: String,
}

pub open spec fn username_byte(b: u8) -> bool {
    (48 <= b <= 57) || (65 <= b <= 90) || (97 <= b <= 122) || b == 95 || b == 45 || b == 46
}

/// A username of 3 to 32 bytes, each an ASCII letter or digit, `_`, `-` or `.`.
pub open spec fn username_ok(username: Seq<char>) -> bool {
    let b = encode_utf8(username);
    &&& 3 <= b.len() <= 32
    &&& forall|i: int| 0 <= i < b.len() ==> username_byte(#[trigger] b[i])
}

/// A password of 12 to 128 bytes.
pub open spec fn password_ok(password: Seq<char>) -> bool {
    12 <= encode_utf8(password).len() <= 128
}

/// Checks new administrator credentials: the username first, then the
/// password.
pub fn validate_credentials(credentials: &Credentials) -> (r: Result<(), &'static str>)
    ensures
        !username_ok(credentials.username@) ==> r == Err::<(), &'static str>(USERNAME_RULE),
        username_ok(credentials.username@) && !password_ok(credentials.password@) ==> r == Err::<
            (),
            &'static str,
        >(PASSWORD_RULE),
        username_ok(credentials.username@) && password_ok(credentials.password@) ==> r is Ok,
{
    let username = credentials.username.as_str().as_bytes();
    let mut ok = username.len() >= 3 && username.len() <= 32;
    if ok {
        let mut i: usize = 0;
        while i < username.len()
            invariant
                i <= username@.len(),
                username@ == encode_utf8(credentials.username@),
                ok == forall|k: int| 0 <= k < i ==> username_byte(#[trigger] username@[k]),
            decreases username@.len() - i,
        {
            let b = username[i];
            let allowed = (48 <= b && b <= 57) || (65 <= b && b <= 90) || (97 <= b && b <= 122)
                || b == 95 || b == 45 || b == 46;
            proof {
                if !allowed {
                    assert(!username_byte(username@[i as int]));
                }
            }
            ok = ok && allowed;
            i = i + 1;
        }
    }
    if !ok {
        return Err(USERNAME_RULE);
    }
    let password = credentials.password.as_str();
    let password_len = password.as_bytes().len();
    assert(password_len == encode_utf8(credentials.password@).len());
    if password_len < 12 || password_len > 128 {
        return Err(PASSWORD_RULE);
    }
    Ok(())
}

/// Whether a login request has something to check: a username and a
/// password.
pub fn login_input_present(credentials: &Credentials) -> (r: bool)
    ensures
        r == (credentials.username@.len() > 0 && credentials.password@.len() > 0),
{
    !credentials.username.as_str().is_empty() && !credentials.password.as_str().is_empty()
}

/// When a session that starts now expires (saturating).
pub fn session_expiry(now_ms: u64) -> (r: u64)
    ensures
        r == if now_ms + SESSION_LIFETIME_MS > u64::MAX {
            u64::MAX as int
        } else {
            now_ms + SESSION_LIFETIME_MS
        },
{
    now_ms.saturating_add(SESSION_LIFETIME_MS)
}

/// The token of an `Authorization` header value `Bearer <token>`, when the
/// token is not empty.
pub open spec fn bearer_token_spec(value: Seq<char>) -> Option<Seq<char>> {
    if seq_starts_with(value, "Bearer "@) && value.len() > 7 {
        Some(value.skip(7))
    } else {
        None
    }
}

pub fn bearer_token(value: &str) -> (r: Option<String>)
    ensures
        match r {
            Some(t) => bearer_token_spec(value@) == Some(t@),
            None => bearer_token_spec(value@) is None,
        },
{
    let chars = chars_of(value);
    let prefix = chars_of("Bearer ");
    proof {
        reveal_strlit("Bearer ");
    }
    if !chars_starts_with(chars.as_slice(), prefix.as_slice()) || chars.len() <= 7 {
        return None;
    }
    let rest = slice_range(chars.as_slice(), 7, chars.len());
    assert(rest@ =~= value@.skip(7));
    Some(string_from_chars(rest.as_slice()))
}

/// SHA-256 of a token's UTF-8 bytes; only these hashes are stored.
pub fn hash_token(token: &str) -> (r: Vec<u8>)
    ensures
        r@ == sha256_spec(encode_utf8(token@)),
        r@.len() == 32,
{
    sha256(token.as_bytes())
}

/// Calls `subtle::ConstantTimeEq::ct_eq` on two byte slices, which is true
/// exactly when they have the same length and the same bytes.
#[verifier::external_body]
fn ct_eq_bytes(a: &[u8], b: &[u8]) -> (r: bool)
    ensures
        r == (a@ == b@),
{
    bool::from(a.ct_eq(b))
}

/// Whether a token hashes to the stored hash, compared in constant time.
pub fn token_matches(expected_hash: &[u8], token: &str) -> (r: bool)
    ensures
        r == (expected_hash@ == sha256_spec(encode_utf8(token@))),
{
    let digest = hash_token(token);
    ct_eq_bytes(expected_hash, digest.as_slice())
}

/// The enrolled gateway: its id and the hash of its agent token.
#[derive(Clone, Debug, PartialEq, Eq)]
pub struct GatewayCredential {
    pub gateway_id: String,
    pub agent_token_hash: Vec<u8>,
}

/// The gateway id an agent token authenticates as, for an enrolled gateway
/// with this id and token hash: the id when the token hashes to the hash.
pub open spec fn authenticated_as(
    gateway: Option<(Seq<char>, Seq<u8>)>,
    token: Seq<char>,
) -> Option<Seq<char>> {
    match gateway {
        Some((id, hash)) => if hash == sha256_spec(encode_utf8(token)) {
            Some(id)
        } else {
            None
        },
        None => None,
    }
}

pub open spec fn credential_view(gateway: Option<GatewayCredential>) -> Option<(Seq<char>, Seq<u8>)> {
    match gateway {
        Some(g) => Some((g.gateway_id@, g.agent_token_hash@)),
        None => None,
    }
}

/// The gateway an agent token belongs to: the enrolled gateway's id when
/// the token matches its hash.
pub fn authenticate(gateway: &Option<GatewayCredential>, token: &str) -> (r: Option<String>)
    ensures
        match r {
            Some(id) => authenticated_as(credential_view(*gateway), token@) == Some(id@),
            None => authenticated_as(credential_view(*gateway), token@) is None,
        },
{
    match gateway {
        Some(g) => {
            if token_matches(g.agent_token_hash.as_slice(), token) {
                Some(g.gateway_id.clone())
            } else {
                None
            }
        },
        None => None,
    }
}

#[verifier::external_type_specification]
#[verifier::external_body]
pub struct ExRandomError(getrandom::Error);

/// Calls `getrandom::fill`, which fills the buffer with random bytes or
/// fails; the buffer keeps its length. Which bytes come is not stated.
#[verifier::external_body]
fn fill_random(buf: &mut Vec<u8>) -> (r: Result<(), getrandom::Error>)
    ensures
        final(buf)@.len() == old(buf)@.len(),
{
    getrandom::fill(buf.as_mut_slice())
}

/// The system's random source failed.
#[derive(Clone, Copy, Debug, PartialEq, Eq)]
pub struct RandomError;

/// `byte_count` random bytes in lower-case hexadecimal.
pub fn random_hex(byte_count: usize) -> (r: Result<String, RandomError>)
    ensures
        r matches Ok(s) ==> exists|bytes: Seq<u8>|
            bytes.len() == byte_count && s@ == #[trigger] hex_bytes(bytes),
{
    let mut bytes: Vec<u8> = vec![0u8; byte_count];
    match fill_random(&mut bytes) {
        Ok(()) => {
            let text = hex_encode(bytes.as_slice());
            let s = string_from_chars(text.as_slice());
            assert(bytes@.len() == byte_count && s@ == hex_bytes(bytes@));
            Ok(s)
        },
        Err(_) => Err(RandomError),
    }
}

#[verifier::external_type_specification]
#[verifier::external_body]
pub struct ExPasswordHashError(argon2::password_hash::Error);

/// The PHC string Argon2id (default parameters) gives for a password and a
/// salt.
pub uninterp spec fn argon2id_phc(password: Seq<u8>, salt: Seq<u8>) -> Seq<char>;

/// Whether `argon2::Argon2::default().verify_password` accepts a password
/// against a PHC string.
pub uninterp spec fn argon2_accepts(password: Seq<u8>, encoded: Seq<char>) -> bool;

/// Calls `argon2::password_hash::SaltString::encode_b64` and
/// `Argon2::default().hash_password`, and renders the hash as its PHC
/// string. On success the string is named `argon2id_phc`; it starts with
/// `$argon2id$` (the default algorithm's identifier), and verifying the
/// same password against it succeeds, because verification recomputes the
/// hash with the salt and parameters the string records. The salt must be
/// 3 to 48 bytes: its B64 form then has the 4 to 64 characters a `Salt`
/// takes, and a shorter one would make `SaltString::as_salt` panic.
/// Hashing fails only for a password longer than `0xFFFF_FFFF` bytes or a
/// salt shorter than 8 bytes (`Argon2::verify_inputs`), so it succeeds
/// otherwise.
#[verifier::external_body]
fn argon2_hash(password: &[u8], salt: &[u8]) -> (r: Result<String, argon2::password_hash::Error>)
    requires
        3 <= salt@.len() <= 48,
    ensures
        password@.len() <= 0xFFFF_FFFF && 8 <= salt@.len() ==> r is Ok,
        r matches Ok(s) ==> {
            &&& s@ == argon2id_phc(password@, salt@)
            &&& seq_starts_with(s@, "$argon2id$"@)
            &&& argon2_accepts(password@, s@)
        },
{
    let salt = argon2::password_hash::SaltString::encode_b64(salt)?;
    argon2::Argon2::default().hash_password(password, &salt).map(|hash| hash.to_string())
}

/// Calls `argon2::password_hash::PasswordHash::new` on the PHC string and
/// `Argon2::default().verify_password`; the outcome is named
/// `argon2_accepts` (false when the string does not parse).
#[verifier::external_body]
fn argon2_verify(password: &[u8], encoded: &str) -> (r: bool)
    ensures
        r == argon2_accepts(password@, encoded@),
{
    argon2::password_hash::PasswordHash::new(encoded).is_ok_and(
        |hash| argon2::Argon2::default().verify_password(password, &hash).is_ok(),
    )
}

/// Why a password could not be hashed.
#[derive(Clone, Copy, Debug, PartialEq, Eq)]
pub enum PasswordError {
    /// The random source failed while drawing the salt.
    Random,
    /// The hasher refused the input.
    Hashing,
}

/// Longest password Argon2 takes, in bytes.
pub const MAX_PASSWORD_BYTES: u64 = 0xFFFF_FFFF;

/// Hashes a password with Argon2id and the given 16-byte salt, as a PHC
/// string; only a password beyond Argon2's length limit fails.
pub fn hash_password_with_salt(password: &[u8], salt: &[u8]) -> (r: Result<String, PasswordError>)
    requires
        salt@.len() == 16,
    ensures
        password@.len() <= MAX_PASSWORD_BYTES ==> r is Ok,
        r matches Ok(s) ==> {
            &&& s@ == argon2id_phc(password@, salt@)
            &&& seq_starts_with(s@, "$argon2id$"@)
            &&& argon2_accepts(password@, s@)
        },
        r is Err ==> r == Err::<String, PasswordError>(PasswordError::Hashing),
{
    match argon2_hash(password, salt) {
        Ok(s) => Ok(s),
        Err(_) => Err(PasswordError::Hashing),
    }
}

/// Hashes a password with Argon2id and a fresh 16-byte salt, as a PHC string.
/// Within Argon2's length limit only the random source can make it fail.
pub fn hash_password(password: &[u8]) -> (r: Result<String, PasswordError>)
    ensures
        r matches Ok(s) ==> {
            &&& exists|salt: Seq<u8>| salt.len() == 16 && s@ == #[trigger] argon2id_phc(password@, salt)
            &&& seq_starts_with(s@, "$argon2id$"@)
            &&& argon2_accepts(password@, s@)
        },
        password@.len() <= MAX_PASSWORD_BYTES && r is Err ==> r == Err::<String, PasswordError>(
            PasswordError::Random,
        ),
        r == Err::<String, PasswordError>(PasswordError::Hashing) ==> password@.len() > MAX_PASSWORD_BYTES,
{
    let mut salt: Vec<u8> = vec![0u8; 16];
    match fill_random(&mut salt) {
        Ok(()) => {},
        Err(_) => {
            return Err(PasswordError::Random);
        },
    }
    let r = hash_password_with_salt(password, salt.as_slice());
    match r {
        Ok(s) => {
            assert(salt@.len() == 16 && s@ == argon2id_phc(password@, salt@));
            Ok(s)
        },
        Err(e) => Err(e),
    }
}

/// Whether a password matches a stored PHC string.
pub fn verify_password(password: &[u8], encoded: &str) -> (r: bool)
    ensures
        r == argon2_accepts(password@, encoded@),
{
    argon2_verify(password, encoded)
}

/// A refused request: the HTTP status and the message sent back.
#[derive(Clone, Copy, Debug, PartialEq, Eq)]
pub struct Rejection {
    pub status: u16,
    pub message: &'static str,
}

/// Checks an enrollment request, in order: the enrollment token, the
/// protocol version, then whether a gateway is already enrolled.
pub fn enrollment_precheck(
    token_ok: bool,
    protocol_version: u32,
    supported_version: u32,
    already_enrolled: bool,
) -> (r: Result<(), Rejection>)
    ensures
        !token_ok ==> r == Err::<(), Rejection>(Rejection { status: 401, message: "invalid enrollment token" }),
        token_ok && protocol_version != supported_version ==> r == Err::<(), Rejection>(
            Rejection { status: 422, message: "unsupported protocol version" },
        ),
        token_ok && protocol_version == supported_version && already_enrolled ==> r == Err::<
            (),
            Rejection,
        >(Rejection { status: 409, message: "an active gateway is already enrolled" }),
        token_ok && protocol_version == supported_version && !already_enrolled ==> r is Ok,
{
    if !token_ok {
        return Err(Rejection { status: 401, message: "invalid enrollment token" });
    }
    if protocol_version != supported_version {
        return Err(Rejection { status: 422, message: "unsupported protocol version" });
    }
    if already_enrolled {
        return Err(Rejection { status: 409, message: "an active gateway is already enrolled" });
    }
    Ok(())
}

/// Credentials for a newly enrolled gateway: its id, the agent token handed
/// to the agent once, and the token's hash that is kept.
#[derive(Clone, Debug, PartialEq, Eq)]
pub struct NewEnrollment {
    pub gateway_id: String,
    pub agent_token: String,
    pub agent_token_hash: Vec<u8>,
}

/// Draws a gateway id (16 random bytes) and an agent token (32 random
/// bytes), both as hexadecimal, and hashes the token.
pub fn new_enrollment() -> (r: Result<NewEnrollment, RandomError>)
    ensures
        r matches Ok(e) ==> {
            &&& exists|b: Seq<u8>| b.len() == 16 && e.gateway_id@ == #[trigger] hex_bytes(b)
            &&& exists|b: Seq<u8>| b.len() == 32 && e.agent_token@ == #[trigger] hex_bytes(b)
            &&& e.gateway_id@.len() == 32
            &&& e.agent_token@.len() == 64
            &&& e.agent_token_hash@ == sha256_spec(encode_utf8(e.agent_token@))
        },
{
    let gateway_id = random_hex(16)?;
    let agent_token = random_hex(32)?;
    proof {
        let b1 = choose|bytes: Seq<u8>| bytes.len() == 16 && gateway_id@ == #[trigger] hex_bytes(bytes);
        crate::text::lemma_hex_bytes_len(b1);
        let b2 = choose|bytes: Seq<u8>| bytes.len() == 32 && agent_token@ == #[trigger] hex_bytes(bytes);
        crate::text::lemma_hex_bytes_len(b2);
    }
    let agent_token_hash = hash_token(agent_token.as_str());
    Ok(NewEnrollment { gateway_id, agent_token, agent_token_hash })
}

/// Most flows a telemetry batch may carry.
pub const MAX_FLOWS_PER_BATCH: usize = 10_000;

/// Most device discovery observations a telemetry batch may carry.
pub const MAX_DISCOVERY_OBSERVATIONS_PER_BATCH: usize = 10_000;

/// Most probe results a telemetry batch may carry.
pub const MAX_PROBE_RESULTS_PER_BATCH: usize = 64;

/// Most digests one favicon probe result may carry.
pub const MAX_HASHES_PER_FAVICON_RESULT: usize = 8;

/// Whether a batch's probe results are acceptable: not too many, and each
/// favicon result has at most eight digests of 32 bytes each. Each entry
/// lists the digest lengths of a favicon result (none for other results).
pub open spec fn probe_results_ok(digest_lengths: Seq<Seq<usize>>) -> bool {
    &&& digest_lengths.len() <= MAX_PROBE_RESULTS_PER_BATCH
    &&& forall|i: int|
        0 <= i < digest_lengths.len() ==> {
            &&& #[trigger] digest_lengths[i].len() <= MAX_HASHES_PER_FAVICON_RESULT
            &&& forall|j: int| 0 <= j < digest_lengths[i].len() ==> digest_lengths[i][j] == 32
        }
}

fn probe_results_ok_exec(digest_lengths: &Vec<Vec<usize>>) -> (r: bool)
    ensures
        r == probe_results_ok(digest_lengths@.map_values(|v: Vec<usize>| v@)),
{
    let ghost d = digest_lengths@.map_values(|v: Vec<usize>| v@);
    if digest_lengths.len() > MAX_PROBE_RESULTS_PER_BATCH {
        return false;
    }
    let mut i: usize = 0;
    while i < digest_lengths.len()
        invariant
            i <= digest_lengths@.len() <= MAX_PROBE_RESULTS_PER_BATCH,
            d == digest_lengths@.map_values(|v: Vec<usize>| v@),
            forall|k: int|
                0 <= k < i ==> {
                    &&& #[trigger] d[k].len() <= MAX_HASHES_PER_FAVICON_RESULT
                    &&& forall|j: int| 0 <= j < d[k].len() ==> d[k][j] == 32
                },
        decreases digest_lengths@.len() - i,
    {
        let lens = &digest_lengths[i];
        assert(d[i as int] == lens@);
        if lens.len() > MAX_HASHES_PER_FAVICON_RESULT {
            return false;
        }
        let mut j: usize = 0;
        while j < lens.len()
            invariant
                j <= lens@.len(),
                i < digest_lengths@.len(),
                d == digest_lengths@.map_values(|v: Vec<usize>| v@),
                d[i as int] == lens@,
                forall|m: int| 0 <= m < j ==> lens@[m] == 32,
            decreases lens@.len() - j,
        {
            if lens[j] != 32 {
                assert(d[i as int][j as int] != 32);
                return false;
            }
            j = j + 1;
        }
        i = i + 1;
    }
    true
}

/// Checks a decoded telemetry batch against the agent that sent it and the
/// size limits, in order: the gateway must be the agent's, then flows,
/// discovery observations and probe results must be within bounds.
pub fn admit_telemetry(
    agent_gateway_id: &str,
    batch_gateway_id: &str,
    flow_count: usize,
    discovery_count: usize,
    favicon_digest_lengths: &Vec<Vec<usize>>,
) -> (r: Result<(), Rejection>)
    ensures
        batch_gateway_id@ != agent_gateway_id@ ==> r == Err::<(), Rejection>(
            Rejection { status: 403, message: "gateway_id does not match agent token" },
        ),
        batch_gateway_id@ == agent_gateway_id@ && flow_count > MAX_FLOWS_PER_BATCH ==> r == Err::<
            (),
            Rejection,
        >(Rejection { status: 413, message: "too many flows in telemetry batch" }),
        batch_gateway_id@ == agent_gateway_id@ && flow_count <= MAX_FLOWS_PER_BATCH
            && discovery_count > MAX_DISCOVERY_OBSERVATIONS_PER_BATCH ==> r == Err::<(), Rejection>(
            Rejection {
                status: 413,
                message: "too many device discovery observations in telemetry batch",
            },
        ),
        batch_gateway_id@ == agent_gateway_id@ && flow_count <= MAX_FLOWS_PER_BATCH
            && discovery_count <= MAX_DISCOVERY_OBSERVATIONS_PER_BATCH ==> (r is Ok
            <==> probe_results_ok(favicon_digest_lengths@.map_values(|v: Vec<usize>| v@))),
        r is Err && batch_gateway_id@ == agent_gateway_id@ && flow_count <= MAX_FLOWS_PER_BATCH
            && discovery_count <= MAX_DISCOVERY_OBSERVATIONS_PER_BATCH ==> r == Err::<(), Rejection>(
            Rejection { status: 413, message: "invalid probe results" },
        ),
{
    if !crate::text::str_eq(batch_gateway_id, agent_gateway_id) {
        return Err(Rejection { status: 403, message: "gateway_id does not match agent token" });
    }
    if flow_count > MAX_FLOWS_PER_BATCH {
        return Err(Rejection { status: 413, message: "too many flows in telemetry batch" });
    }
    if discovery_count > MAX_DISCOVERY_OBSERVATIONS_PER_BATCH {
        return Err(
            Rejection {
                status: 413,
                message: "too many device discovery observations in telemetry batch",
            },
        );
    }
    if !probe_results_ok_exec(favicon_digest_lengths) {
        return Err(Rejection { status: 413, message: "invalid probe results" });
    }
    Ok(())
}

/// The agent token issued at enrollment authenticates as the enrolled
/// gateway; a token that hashes otherwise authenticates as nothing.
pub proof fn lemma_issued_token_authenticates(e: NewEnrollment, other: Seq<char>)
    requires
        e.agent_token_hash@ == sha256_spec(encode_utf8(e.agent_token@)),
    ensures
        authenticated_as(Some((e.gateway_id@, e.agent_token_hash@)), e.agent_token@) == Some(
            e.gateway_id@,
        ),
        sha256_spec(encode_utf8(other)) != e.agent_token_hash@ ==> authenticated_as(
            Some((e.gateway_id@, e.agent_token_hash@)),
            other,
        ) is None,
{
}

} // verus!
