//! Licensing decisions: the stored installation identity, the status shown
//! to the user, what a license check's answer leads to, the offline grace
//! period, the retry schedule, and the text of cloud errors.

use vstd::prelude::*;
use vstd::utf8::{encode_scalar, encode_utf8};

use crate::text::{
    push_str,
    chars_of, first_match_from, find_from, lemma_first_match_props, lemma_first_match_occurs, occurs_in, lower_chars, lower_seq,
    opt_string_view, clone_opt_string, push_decimal, str_eq, string_from_chars, trim_chars,
    trim_seq,
};

verus! {

/// How long a check may fail for transport reasons before the license
/// falls back to the community edition: one day, in seconds.
pub const OFFLINE_GRACE_SECONDS: i64 = 86_400;

/// Time between successful checks, in seconds.
pub const CHECK_INTERVAL_SECONDS: u64 = 900;

/// Delay after the first failed check, in seconds.
pub const FIRST_RETRY_SECONDS: u64 = 15;

/// Longest cloud error body quoted in a message, in bytes.
pub const MAX_QUOTED_BODY_BYTES: usize = 1024;

/// The license state kept on disk.
#[derive(Clone, Debug, PartialEq, Eq)]
pub struct PersistedIdentity {
    pub installation_id: String,
    pub installation_credential: Option<String>,
    pub last_success_at: Option<i64>,
    pub edition: String,
    pub license_status: String,
    pub lease_valid_until: Option<i64>,
}

/// A new installation: community edition, not licensed.
pub fn fresh_identity(installation_id: String) -> (r: PersistedIdentity)
    ensures
        r.installation_id == installation_id,
        r.installation_credential is None,
        r.last_success_at is None,
        r.edition@ == "community"@,
        r.license_status@ == "unlicensed"@,
        r.lease_valid_until is None,
{
    PersistedIdentity {
        installation_id,
        installation_credential: None,
        last_success_at: None,
        edition: "community".to_owned(),
        license_status: "unlicensed".to_owned(),
        lease_valid_until: None,
    }
}

/// The entitlement the classifier service currently enforces.
#[derive(Clone, Debug, PartialEq, Eq)]
pub struct ClassifierEntitlement {
    pub edition: String,
    pub license_status: String,
    pub lease_valid_until: Option<i64>,
    pub rule_version: Option<String>,
}

/// The license as the settings page shows it.
#[derive(Clone, Debug, PartialEq, Eq)]
pub struct LicenseStatus {
    pub installation_id: String,
    pub activated: bool,
    pub edition: String,
    pub license_status: String,
    pub rule_version: Option<String>,
    pub lease_valid_until: Option<i64>,
    pub last_success_at: Option<i64>,
    pub last_error: Option<String>,
}

/// The status shown: edition and license state from the classifier when
/// it answers, else from the stored identity; the rule version only from
/// the classifier; the rest from the identity.
pub fn license_status(
    identity: &PersistedIdentity,
    classifier: Option<ClassifierEntitlement>,
    last_error: Option<String>,
) -> (r: LicenseStatus)
    ensures
        r.installation_id@ == identity.installation_id@,
        r.activated == identity.installation_credential is Some,
        r.lease_valid_until == identity.lease_valid_until,
        r.last_success_at == identity.last_success_at,
        r.last_error == last_error,
        match classifier {
            Some(c) => r.edition == c.edition && r.license_status == c.license_status
                && r.rule_version == c.rule_version,
            None => r.edition@ == identity.edition@ && r.license_status@ == identity.license_status@
                && r.rule_version is None,
        },
{
    let (edition, status, rule_version) = match classifier {
        Some(c) => (c.edition, c.license_status, c.rule_version),
        None => (identity.edition.clone(), identity.license_status.clone(), None),
    };
    LicenseStatus {
        installation_id: identity.installation_id.clone(),
        activated: identity.installation_credential.is_some(),
        edition,
        license_status: status,
        rule_version,
        lease_valid_until: identity.lease_valid_until,
        last_success_at: identity.last_success_at,
        last_error,
    }
}

/// Whether the classifier's signing identity can be reported: a public key
/// and a key id that are not blank, the key id not `unknown`.
pub fn classifier_identity_usable(public_key: &str, key_id: &str) -> (r: bool)
    ensures
        r == (trim_seq(public_key@).len() > 0 && key_id@ != "unknown"@ && trim_seq(key_id@).len() > 0),
{
    let pk = chars_of(public_key);
    let kid = chars_of(key_id);
    trim_chars(pk.as_slice()).len() > 0 && !str_eq(key_id, "unknown") && trim_chars(
        kid.as_slice(),
    ).len() > 0
}

/// The entitlement a check reports as current: the classifier's, or else
/// the one the stored identity describes.
pub fn current_entitlement(
    classifier: Option<ClassifierEntitlement>,
    identity: &PersistedIdentity,
    rule_version: Option<String>,
) -> (r: ClassifierEntitlement)
    ensures
        classifier matches Some(c) ==> r == c,
        classifier is None ==> r.edition@ == identity.edition@ && r.license_status@
            == identity.license_status@ && r.lease_valid_until == identity.lease_valid_until
            && r.rule_version == rule_version,
{
    match classifier {
        Some(c) => c,
        None => ClassifierEntitlement {
            edition: identity.edition.clone(),
            license_status: identity.license_status.clone(),
            lease_valid_until: identity.lease_valid_until,
            rule_version,
        },
    }
}

/// Whether the offline grace period is over: the installation never
/// checked successfully, or its last success is more than a day ago.
pub open spec fn grace_expired_spec(last_success_at: Option<i64>, now_s: i64) -> bool {
    match last_success_at {
        None => true,
        Some(t) => now_s - t > OFFLINE_GRACE_SECONDS,
    }
}

pub fn grace_expired(last_success_at: Option<i64>, now_s: i64) -> (r: bool)
    ensures
        r == grace_expired_spec(last_success_at, now_s),
{
    match last_success_at {
        None => true,
        Some(t) => (now_s as i128) - (t as i128) > OFFLINE_GRACE_SECONDS as i128,
    }
}

/// Whether `pat` occurs in `s`.
pub open spec fn contains_text(s: Seq<char>, pat: Seq<char>) -> bool {
    first_match_from(s, pat, 0) is Some
}

fn contains_exec(s: &Vec<char>, pat: &str) -> (r: bool)
    ensures
        r == contains_text(s@, pat@),
{
    let p = chars_of(pat);
    proof {
        lemma_first_match_props(s@, p@, 0);
    }
    find_from(s.as_slice(), p.as_slice(), 0).is_some()
}

/// The license state a refused credential leaves behind, read from the
/// cloud's message (case-insensitively): expired, revoked, disabled, or
/// else an invalid credential (401) or denied access.
pub open spec fn cloud_local_status_spec(status: u16, message: Seq<char>) -> Seq<char> {
    let lower = lower_seq(message);
    if contains_text(lower, "license_expired"@) || contains_text(lower, "license expired"@) {
        "expired"@
    } else if contains_text(lower, "license_revoked"@) || contains_text(lower, "license revoked"@) {
        "revoked"@
    } else if contains_text(lower, "account_disabled"@) || contains_text(lower, "account disabled"@) {
        "disabled"@
    } else if status == 401 {
        "credential_invalid"@
    } else {
        "access_denied"@
    }
}

pub fn cloud_local_status(status: u16, message: &str) -> (r: &'static str)
    ensures
        r@ == cloud_local_status_spec(status, message@),
{
    let chars = chars_of(message);
    let lower = lower_chars(chars.as_slice());
    if contains_exec(&lower, "license_expired") || contains_exec(&lower, "license expired") {
        "expired"
    } else if contains_exec(&lower, "license_revoked") || contains_exec(&lower, "license revoked") {
        "revoked"
    } else if contains_exec(&lower, "account_disabled") || contains_exec(&lower, "account disabled") {
        "disabled"
    } else if status == 401 {
        "credential_invalid"
    } else {
        "access_denied"
    }
}

/// Law: the local status after a refused check goes by what the cloud's
/// message says, in any letter case: a message that mentions an expired
/// license (`license_expired` or `license expired`) leaves `expired`
/// whatever the status; one that mentions none of the expired, revoked or
/// disabled conditions leaves `credential_invalid` for HTTP 401 and
/// `access_denied` otherwise.
pub proof fn lemma_cloud_status_from_message(status: u16, message: Seq<char>)
    ensures
        occurs_in(lower_seq(message), "license_expired"@) || occurs_in(lower_seq(message), "license expired"@)
            ==> cloud_local_status_spec(status, message) == "expired"@,
        !occurs_in(lower_seq(message), "license_expired"@) && !occurs_in(lower_seq(message), "license expired"@)
            && (occurs_in(lower_seq(message), "license_revoked"@) || occurs_in(lower_seq(message), "license revoked"@))
            ==> cloud_local_status_spec(status, message) == "revoked"@,
        !occurs_in(lower_seq(message), "license_expired"@) && !occurs_in(lower_seq(message), "license expired"@)
            && !occurs_in(lower_seq(message), "license_revoked"@) && !occurs_in(lower_seq(message), "license revoked"@)
            && (occurs_in(lower_seq(message), "account_disabled"@) || occurs_in(lower_seq(message), "account disabled"@))
            ==> cloud_local_status_spec(status, message) == "disabled"@,
        !occurs_in(lower_seq(message), "license_expired"@) && !occurs_in(lower_seq(message), "license expired"@)
            && !occurs_in(lower_seq(message), "license_revoked"@) && !occurs_in(lower_seq(message), "license revoked"@)
            && !occurs_in(lower_seq(message), "account_disabled"@) && !occurs_in(lower_seq(message), "account disabled"@)
            ==> cloud_local_status_spec(status, message) == if status == 401 {
                "credential_invalid"@
            } else {
                "access_denied"@
            },
{
    let lower = lower_seq(message);
    lemma_first_match_occurs(lower, "license_expired"@);
    lemma_first_match_occurs(lower, "license expired"@);
    lemma_first_match_occurs(lower, "license_revoked"@);
    lemma_first_match_occurs(lower, "license revoked"@);
    lemma_first_match_occurs(lower, "account_disabled"@);
    lemma_first_match_occurs(lower, "account disabled"@);
}

/// UTF-8 length of a character.
pub open spec fn utf8_width(c: char) -> nat {
    encode_scalar(c as u32).len()
}

fn utf8_width_exec(c: char) -> (r: usize)
    ensures
        r == utf8_width(c),
        1 <= r <= 4,
{
    let v = c as u32;
    if v <= 0x7F {
        1
    } else if v <= 0x7FF {
        2
    } else if v <= 0xFFFF && !(0xD800 <= v && v <= 0xDFFF) {
        3
    } else {
        4
    }
}

pub proof fn lemma_encode_utf8_push(s: Seq<char>, c: char)
    ensures
        encode_utf8(s.push(c)) == encode_utf8(s) + encode_scalar(c as u32),
    decreases s.len(),
{
    if s.len() == 0 {
        assert(seq![c].drop_first() =~= Seq::<char>::empty());
        assert(s.push(c) =~= seq![c]);
        assert(encode_utf8(seq![c]) =~= encode_scalar(c as u32) + encode_utf8(Seq::<char>::empty()));
    } else {
        lemma_encode_utf8_push(s.drop_first(), c);
        assert(s.push(c).drop_first() =~= s.drop_first().push(c));
        assert(s.push(c)[0] == s[0]);
    }
}

/// How many characters of `s` (from the start) fit in `max_len` bytes.
pub open spec fn fitting_chars(s: Seq<char>, max_len: nat) -> nat
    decreases s.len(),
{
    if s.len() == 0 || encode_utf8(s).len() <= max_len {
        s.len()
    } else {
        fitting_chars(s.drop_last(), max_len)
    }
}

/// A cloud error body cut to at most `max_len` bytes at a character
/// boundary; kept whole when it fits.
pub fn truncate_body(body: &str, max_len: usize) -> (r: String)
    ensures
        r@ == body@.take(fitting_chars(body@, max_len as nat) as int),
{
    let chars = chars_of(body);
    let n = chars.len();
    let mut widths: u128 = 0;
    let mut k: usize = 0;
    while k < n
        invariant
            k <= n == chars@.len(),
            chars@ == body@,
            widths == encode_utf8(chars@.take(k as int)).len(),
            widths <= 4 * k,
        decreases n - k,
    {
        let w = utf8_width_exec(chars[k]);
        proof {
            lemma_encode_utf8_push(chars@.take(k as int), chars@[k as int]);
            assert(chars@.take(k as int + 1) =~= chars@.take(k as int).push(chars@[k as int]));
        }
        widths = widths + w as u128;
        k = k + 1;
    }
    assert(chars@.take(n as int) =~= chars@);
    let mut end: usize = n;
    let mut total: u128 = widths;
    while end > 0 && total > max_len as u128
        invariant
            end <= n == chars@.len(),
            chars@ == body@,
            total == encode_utf8(chars@.take(end as int)).len(),
            fitting_chars(chars@, max_len as nat) == fitting_chars(chars@.take(end as int), max_len as nat),
        decreases end,
    {
        let w = utf8_width_exec(chars[end - 1]);
        proof {
            let t = chars@.take(end as int);
            assert(t.drop_last() =~= chars@.take(end as int - 1));
            lemma_encode_utf8_push(t.drop_last(), t.last());
            assert(t =~= t.drop_last().push(t.last()));
        }
        total = total - w as u128;
        end = end - 1;
    }
    proof {
        let t = chars@.take(end as int);
        assert(fitting_chars(t, max_len as nat) == end);
    }
    let kept = crate::text::slice_range(chars.as_slice(), 0, end);
    string_from_chars(kept.as_slice())
}

/// What the collector says when the cloud answered an operation with a
/// structured error: status, code and message, then the category, the
/// suggested action and the details when given.
pub open spec fn cloud_error_message_spec(
    operation: Seq<char>,
    status_text: Seq<char>,
    code: Seq<char>,
    message: Seq<char>,
    category: Option<Seq<char>>,
    action: Option<Seq<char>>,
    details: Option<Seq<char>>,
) -> Seq<char> {
    "Cloud "@ + operation + " failed ("@ + status_text + ", code="@ + code + "): "@ + message
        + match category {
        Some(c) => " [category="@ + c + "]"@,
        None => Seq::empty(),
    } + match action {
        Some(a) => " Action: "@ + a + "."@,
        None => Seq::empty(),
    } + match details {
        Some(d) => " Details: "@ + d,
        None => Seq::empty(),
    }
}

pub fn cloud_error_message(
    operation: &str,
    status_text: &str,
    code: &str,
    message: &str,
    category: Option<&str>,
    action: Option<&str>,
    details: Option<&str>,
) -> (r: String)
    ensures
        r@ == cloud_error_message_spec(
            operation@,
            status_text@,
            code@,
            message@,
            match category {
                Some(c) => Some(c@),
                None => None,
            },
            match action {
                Some(a) => Some(a@),
                None => None,
            },
            match details {
                Some(d) => Some(d@),
                None => None,
            },
        ),
{
    let mut out: Vec<char> = Vec::new();
    push_str(&mut out, "Cloud ");
    push_str(&mut out, operation);
    push_str(&mut out, " failed (");
    push_str(&mut out, status_text);
    push_str(&mut out, ", code=");
    push_str(&mut out, code);
    push_str(&mut out, "): ");
    push_str(&mut out, message);
    let ghost base = out@;
    match category {
        Some(c) => {
            push_str(&mut out, " [category=");
            push_str(&mut out, c);
            push_str(&mut out, "]");
        },
        None => {},
    }
    let ghost with_category = out@;
    match action {
        Some(a) => {
            push_str(&mut out, " Action: ");
            push_str(&mut out, a);
            push_str(&mut out, ".");
        },
        None => {},
    }
    let ghost with_action = out@;
    match details {
        Some(d) => {
            push_str(&mut out, " Details: ");
            push_str(&mut out, d);
        },
        None => {},
    }
    assert(out@ =~= cloud_error_message_spec(
        operation@,
        status_text@,
        code@,
        message@,
        match category {
            Some(c) => Some(c@),
            None => None,
        },
        match action {
            Some(a) => Some(a@),
            None => None,
        },
        match details {
            Some(d) => Some(d@),
            None => None,
        },
    ));
    string_from_chars(out.as_slice())
}

/// What the collector says when the cloud's error body is not structured:
/// the status, and the trimmed body cut to 1024 bytes when there is one.
pub open spec fn plain_error_message_spec(operation: Seq<char>, status_text: Seq<char>, body: Seq<char>) -> Seq<char> {
    let t = trim_seq(body);
    let cut = t.take(fitting_chars(t, MAX_QUOTED_BODY_BYTES as nat) as int);
    if cut.len() == 0 {
        "Cloud "@ + operation + " failed ("@ + status_text + ")"@
    } else {
        "Cloud "@ + operation + " failed ("@ + status_text + "): "@ + cut
    }
}

pub fn plain_error_message(operation: &str, status_text: &str, body: &str) -> (r: String)
    ensures
        r@ == plain_error_message_spec(operation@, status_text@, body@),
{
    let chars = chars_of(body);
    let trimmed = trim_chars(chars.as_slice());
    let trimmed_text = string_from_chars(trimmed.as_slice());
    let cut = truncate_body(trimmed_text.as_str(), MAX_QUOTED_BODY_BYTES);
    let mut out: Vec<char> = Vec::new();
    push_str(&mut out, "Cloud ");
    push_str(&mut out, operation);
    push_str(&mut out, " failed (");
    push_str(&mut out, status_text);
    if cut.as_str().is_empty() {
        push_str(&mut out, ")");
    } else {
        push_str(&mut out, "): ");
        push_str(&mut out, cut.as_str());
    }
    assert(out@ =~= plain_error_message_spec(operation@, status_text@, body@));
    string_from_chars(out.as_slice())
}

/// Permission to use a rule package, as the cloud grants it.
#[derive(Clone, Debug, PartialEq, Eq)]
pub struct AllowedRule {
    pub artifact_id: String,
    pub rule_version: String,
    pub edition: String,
}

/// What the classifier service is told to enforce.
#[derive(Clone, Debug, PartialEq, Eq)]
pub struct EntitlementLease {
    pub edition: String,
    pub license_status: String,
    pub lease_valid_until: i64,
    pub allowed_rule: Option<AllowedRule>,
    pub cloud_api_url: String,
    pub installation_credential: Option<String>,
    pub sealed_rule_key: Option<String>,
}

/// The community lease a refused or expired license falls back to.
pub fn community_lease(status: &str, now_s: i64, cloud_api_url: &str) -> (r: EntitlementLease)
    ensures
        r.edition@ == "community"@,
        r.license_status@ == status@,
        r.lease_valid_until == now_s,
        r.allowed_rule is None,
        r.cloud_api_url@ == cloud_api_url@,
        r.installation_credential is None,
        r.sealed_rule_key is None,
{
    EntitlementLease {
        edition: "community".to_owned(),
        license_status: status.to_owned(),
        lease_valid_until: now_s,
        allowed_rule: None,
        cloud_api_url: cloud_api_url.to_owned(),
        installation_credential: None,
        sealed_rule_key: None,
    }
}

/// How the cloud answered a license check.
#[derive(Clone, Debug, PartialEq, Eq)]
pub enum CheckReply {
    /// The check succeeded. The allowed rule is (artifact id, rule version).
    Granted {
        edition: String,
        license_status: String,
        lease_valid_until: i64,
        allowed_rule: Option<(String, String)>,
        sealed_rule_key: Option<String>,
    },
    /// The credential was refused (401 or 403).
    Refused { status: u16, status_text: String, message: String },
    /// Any other failure: another HTTP error, or no answer.
    Unreachable { message: String },
}

/// What to do after a license check.
#[derive(Clone, Debug, PartialEq, Eq)]
pub enum CheckPlan {
    /// Hand the lease to the classifier, store the identity, and keep the
    /// notice as the last error (none clears it).
    Apply { lease: EntitlementLease, identity: PersistedIdentity, notice: Option<String> },
    /// Fall back to the community lease with this status, then fail.
    Downgrade { lease: EntitlementLease, error: String },
    /// Fail; fall back to the community lease first when one is given.
    Fail { lease: Option<EntitlementLease>, error: String },
}

pub const NO_COMPATIBLE_RULE: &'static str = "Pro license is active, but Cloud has no compatible Pro rule package for this installation.";

/// What a check's answer leads to. A grant stores the new lease and the
/// time of success (a Pro grant without a rule package leaves a notice); a
/// refused credential falls back to community with the status the message
/// names; any other failure falls back only when the offline grace is over.
pub fn plan_check(
    identity: PersistedIdentity,
    credential: String,
    reply: CheckReply,
    now_s: i64,
    cloud_api_url: &str,
) -> (r: CheckPlan)
    ensures
        match reply {
            CheckReply::Granted { edition, license_status, lease_valid_until, allowed_rule, sealed_rule_key } =>
                r matches CheckPlan::Apply { lease, identity: id, notice } && {
                &&& lease.edition == edition
                &&& lease.license_status == license_status
                &&& lease.lease_valid_until == lease_valid_until
                &&& lease.cloud_api_url@ == cloud_api_url@
                &&& lease.installation_credential == Some(credential)
                &&& lease.sealed_rule_key == sealed_rule_key
                &&& match (allowed_rule, lease.allowed_rule) {
                    (Some((a, v)), Some(rule)) => rule.artifact_id == a && rule.rule_version == v
                        && rule.edition@ == edition@,
                    (None, None) => true,
                    _ => false,
                }
                &&& id.installation_id == identity.installation_id
                &&& id.installation_credential == identity.installation_credential
                &&& id.last_success_at == Some(now_s)
                &&& id.edition@ == edition@
                &&& id.license_status@ == license_status@
                &&& id.lease_valid_until == Some(lease_valid_until)
                &&& (notice is Some <==> (edition@ == "pro"@ && allowed_rule is None))
                &&& notice matches Some(n) ==> n@ == NO_COMPATIBLE_RULE@
            },
            CheckReply::Refused { status, status_text, message } => r matches CheckPlan::Downgrade {
                lease,
                error,
            } && {
                &&& lease.edition@ == "community"@
                &&& lease.license_status@ == cloud_local_status_spec(status, message@)
                &&& lease.lease_valid_until == now_s
                &&& lease.cloud_api_url@ == cloud_api_url@
                &&& error@ == "Cloud rejected device credential ("@ + status_text@ + "): "@ + message@
            },
            CheckReply::Unreachable { message } => r matches CheckPlan::Fail { lease, error } && {
                &&& error == message
                &&& (lease is Some <==> grace_expired_spec(identity.last_success_at, now_s))
                &&& lease matches Some(l) ==> l.edition@ == "community"@ && l.license_status@
                    == "offline_grace_expired"@ && l.lease_valid_until == now_s
                    && l.cloud_api_url@ == cloud_api_url@
            },
        },
{
    match reply {
        CheckReply::Granted { edition, license_status, lease_valid_until, allowed_rule, sealed_rule_key } => {
            let no_compatible_rule = str_eq(edition.as_str(), "pro") && allowed_rule.is_none();
            let rule = match allowed_rule {
                Some((artifact_id, rule_version)) => Some(
                    AllowedRule { artifact_id, rule_version, edition: edition.clone() },
                ),
                None => None,
            };
            let lease = EntitlementLease {
                edition: edition.clone(),
                license_status: license_status.clone(),
                lease_valid_until,
                allowed_rule: rule,
                cloud_api_url: cloud_api_url.to_owned(),
                installation_credential: Some(credential),
                sealed_rule_key,
            };
            let stored = PersistedIdentity {
                installation_id: identity.installation_id,
                installation_credential: identity.installation_credential,
                last_success_at: Some(now_s),
                edition,
                license_status,
                lease_valid_until: Some(lease_valid_until),
            };
            let notice = if no_compatible_rule {
                Some(NO_COMPATIBLE_RULE.to_owned())
            } else {
                None
            };
            CheckPlan::Apply { lease, identity: stored, notice }
        },
        CheckReply::Refused { status, status_text, message } => {
            let local = cloud_local_status(status, message.as_str());
            let lease = community_lease(local, now_s, cloud_api_url);
            let mut out: Vec<char> = Vec::new();
            push_str(&mut out, "Cloud rejected device credential (");
            push_str(&mut out, status_text.as_str());
            push_str(&mut out, "): ");
            push_str(&mut out, message.as_str());
            CheckPlan::Downgrade { lease, error: string_from_chars(out.as_slice()) }
        },
        CheckReply::Unreachable { message } => {
            let lease = if grace_expired(identity.last_success_at, now_s) {
                Some(community_lease("offline_grace_expired", now_s, cloud_api_url))
            } else {
                None
            };
            CheckPlan::Fail { lease, error: message }
        },
    }
}

/// When the next check runs and the failure delay after it: a success
/// waits the regular interval and resets the delay; a failure waits the
/// delay plus one to seven seconds of jitter, and doubles the delay up to
/// the regular interval.
pub fn next_check(succeeded: bool, failure_delay_s: u64, now_s: i64) -> (r: (u64, u64))
    requires
        FIRST_RETRY_SECONDS <= failure_delay_s <= CHECK_INTERVAL_SECONDS,
    ensures
        succeeded ==> r == (CHECK_INTERVAL_SECONDS, FIRST_RETRY_SECONDS),
        !succeeded ==> {
            &&& r.0 == failure_delay_s + (now_s as int % 7) + 1
            &&& r.1 == if 2 * failure_delay_s <= CHECK_INTERVAL_SECONDS {
                2 * failure_delay_s
            } else {
                CHECK_INTERVAL_SECONDS as int
            }
        },
        FIRST_RETRY_SECONDS <= r.1 <= CHECK_INTERVAL_SECONDS,
{
    if succeeded {
        return (CHECK_INTERVAL_SECONDS, FIRST_RETRY_SECONDS);
    }
    let jitter = (now_s % 7 + 7) % 7;
    assert(jitter == now_s as int % 7);
    let doubled = failure_delay_s * 2;
    let next = if doubled <= CHECK_INTERVAL_SECONDS {
        doubled
    } else {
        CHECK_INTERVAL_SECONDS
    };
    (failure_delay_s + jitter as u64 + 1, next)
}

} // verus!
