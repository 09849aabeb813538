//! The identity conditions of a flow query: a free-text search, a client
//! (by device id, address or name), the application, organization and
//! detected protocol, a domain fragment and a remote address.
//!
//! Which parameters read as IP addresses is decided by the caller's address
//! parser and handed in as the addresses' bytes.

use vstd::prelude::*;

use crate::ingest::copy_bytes;
use crate::query::{param, param_text, parse_i64, parse_i64_spec};
use crate::text::{chars_of, string_from_chars};

verus! {

/// What `str::to_lowercase` returns for a text: its Unicode lower case.
pub uninterp spec fn unicode_lowercase(s: Seq<char>) -> Seq<char>;

/// Calls `str::to_lowercase`; its result is named `unicode_lowercase`.
#[verifier::external_body]
fn lowercase(s: &str) -> (r: String)
    ensures
        r@ == unicode_lowercase(s@),
{
    s.to_lowercase()
}

/// A value an identity condition binds.
#[derive(Clone, Debug, PartialEq, Eq)]
pub enum BoundValue {
    Integer(i64),
    Text(String),
    Blob(Vec<u8>),
}

/// A bound value as the contracts see it.
pub enum BoundView {
    Integer(i64),
    Text(Seq<char>),
    Blob(Seq<u8>),
}

pub open spec fn bound_view(v: BoundValue) -> BoundView {
    match v {
        BoundValue::Integer(i) => BoundView::Integer(i),
        BoundValue::Text(s) => BoundView::Text(s@),
        BoundValue::Blob(b) => BoundView::Blob(b@),
    }
}

/// One `WHERE` condition and the values it binds.
#[derive(Clone, Debug)]
pub struct IdentityClause {
    pub sql: &'static str,
    pub values: Vec<BoundValue>,
}

pub type IdentityClauseView = (Seq<char>, Seq<BoundView>);

pub open spec fn identity_clause_view(c: IdentityClause) -> IdentityClauseView {
    (c.sql@, c.values@.map_values(|v: BoundValue| bound_view(v)))
}

pub open spec fn identity_clauses_view(c: Seq<IdentityClause>) -> Seq<IdentityClauseView> {
    c.map_values(|x: IdentityClause| identity_clause_view(x))
}

/// The identity parameters of a flow query, as given.
#[derive(Clone, Debug)]
pub struct IdentityQuery {
    pub search: Option<String>,
    pub client: Option<String>,
    pub application: Option<String>,
    pub organization: Option<String>,
    pub detected_protocol: Option<String>,
    pub domain: Option<String>,
    pub ip: Option<String>,
}

/// The bytes (4 or 16) of the search, client and address parameters, each
/// trimmed, where it reads as an IP address.
#[derive(Clone, Debug)]
pub struct ParameterAddresses {
    pub search: Option<Vec<u8>>,
    pub client: Option<Vec<u8>>,
    pub ip: Option<Vec<u8>>,
}

pub open spec fn opt_bytes(v: Option<Vec<u8>>) -> Option<Seq<u8>> {
    match v {
        Some(b) => Some(b@),
        None => None,
    }
}

pub const SEARCH_ADDRESS_SQL: &'static str = "(f.client_ip = ? OR f.remote_ip = ?)";

pub const SEARCH_TEXT_SQL: &'static str = "(LOWER(COALESCE(f.domain, '')) LIKE ? OR LOWER(COALESCE(f.application_id, '')) LIKE ? OR LOWER(COALESCE(d.display_name, d.hostname, '')) LIKE ? OR LOWER(HEX(COALESCE(d.mac, X''))) LIKE ?)";

pub const CLIENT_ID_SQL: &'static str = "f.device_id = ?";

pub const CLIENT_ADDRESS_SQL: &'static str = "f.client_ip = ?";

pub const CLIENT_NAME_SQL: &'static str = "(LOWER(COALESCE(d.display_name, d.hostname, '')) LIKE ? OR LOWER(HEX(COALESCE(d.mac, X''))) LIKE ?)";

pub const APPLICATION_SQL: &'static str = "LOWER(COALESCE(f.application_id, 'unknown')) = ?";

pub const ORGANIZATION_SQL: &'static str = "LOWER(COALESCE(f.organization_id, 'unknown')) = ?";

pub const PROTOCOL_SQL: &'static str = "LOWER(COALESCE(f.protocol_id, 'unknown')) = ?";

pub const DOMAIN_SQL: &'static str = "LOWER(COALESCE(f.domain, '')) LIKE ?";

pub const REMOTE_ADDRESS_SQL: &'static str = "f.remote_ip = ?";

/// A `LIKE` pattern that matches any text containing `s`.
pub open spec fn containing(s: Seq<char>) -> Seq<char> {
    seq!['%'] + s + seq!['%']
}

/// The text without `:` and `-`, as a MAC address is matched against the
/// hexadecimal form of stored addresses.
pub open spec fn without_separators(s: Seq<char>) -> Seq<char>
    decreases s.len(),
{
    if s.len() == 0 {
        s
    } else {
        let rest = without_separators(s.drop_last());
        if s.last() == ':' || s.last() == '-' {
            rest
        } else {
            rest.push(s.last())
        }
    }
}

pub open spec fn search_clauses(search: Option<Seq<char>>, address: Option<Seq<u8>>) -> Seq<IdentityClauseView> {
    match search {
        None => Seq::empty(),
        Some(s) => match address {
            Some(b) => seq![(SEARCH_ADDRESS_SQL@, seq![BoundView::Blob(b), BoundView::Blob(b)])],
            None => {
                let p = BoundView::Text(containing(unicode_lowercase(s)));
                seq![(SEARCH_TEXT_SQL@, seq![p, p, p, p])]
            },
        },
    }
}

pub open spec fn client_clauses(client: Option<Seq<char>>, address: Option<Seq<u8>>) -> Seq<IdentityClauseView> {
    match client {
        None => Seq::empty(),
        Some(c) => match parse_i64_spec(c) {
            Some(id) => seq![(CLIENT_ID_SQL@, seq![BoundView::Integer(id)])],
            None => match address {
                Some(b) => seq![(CLIENT_ADDRESS_SQL@, seq![BoundView::Blob(b)])],
                None => {
                    let p = BoundView::Text(containing(without_separators(unicode_lowercase(c))));
                    seq![(CLIENT_NAME_SQL@, seq![p, p])]
                },
            },
        },
    }
}

pub open spec fn equals_clauses(sql: &'static str, v: Option<Seq<char>>) -> Seq<IdentityClauseView> {
    match v {
        None => Seq::empty(),
        Some(s) => seq![(sql@, seq![BoundView::Text(unicode_lowercase(s))])],
    }
}

pub open spec fn domain_clauses(v: Option<Seq<char>>) -> Seq<IdentityClauseView> {
    match v {
        None => Seq::empty(),
        Some(s) => seq![(DOMAIN_SQL@, seq![BoundView::Text(containing(unicode_lowercase(s)))])],
    }
}

/// The identity conditions of a flow query, in parameter order; a remote
/// address that does not read as an IP address is refused.
pub open spec fn identity_filters_spec(q: IdentityQuery, a: ParameterAddresses) -> Result<Seq<IdentityClauseView>, Seq<char>> {
    let head = search_clauses(param(q.search), opt_bytes(a.search)) + client_clauses(
        param(q.client),
        opt_bytes(a.client),
    ) + equals_clauses(APPLICATION_SQL, param(q.application)) + equals_clauses(
        ORGANIZATION_SQL,
        param(q.organization),
    ) + equals_clauses(PROTOCOL_SQL, param(q.detected_protocol)) + domain_clauses(param(q.domain));
    match param(q.ip) {
        None => Ok(head),
        Some(_) => match opt_bytes(a.ip) {
            Some(b) => Ok(head.push((REMOTE_ADDRESS_SQL@, seq![BoundView::Blob(b)]))),
            None => Err("invalid_ip"@),
        },
    }
}

fn containing_exec(s: &str) -> (r: String)
    ensures
        r@ == containing(s@),
{
    let mut out: Vec<char> = Vec::new();
    out.push('%');
    let chars = chars_of(s);
    let mut i: usize = 0;
    while i < chars.len()
        invariant
            i <= chars@.len(),
            chars@ == s@,
            out@ == seq!['%'] + chars@.take(i as int),
        decreases chars@.len() - i,
    {
        out.push(chars[i]);
        assert(chars@.take(i as int + 1) =~= chars@.take(i as int).push(chars@[i as int]));
        assert(out@ =~= seq!['%'] + chars@.take(i as int + 1));
        i = i + 1;
    }
    out.push('%');
    assert(chars@.take(i as int) =~= chars@);
    assert(out@ =~= containing(s@));
    string_from_chars(out.as_slice())
}

fn without_separators_exec(s: &str) -> (r: String)
    ensures
        r@ == without_separators(s@),
{
    let chars = chars_of(s);
    let mut out: Vec<char> = Vec::new();
    let mut i: usize = 0;
    while i < chars.len()
        invariant
            i <= chars@.len(),
            chars@ == s@,
            out@ == without_separators(chars@.take(i as int)),
        decreases chars@.len() - i,
    {
        let c = chars[i];
        proof {
            let t = chars@.take(i as int + 1);
            assert(t.drop_last() =~= chars@.take(i as int));
            assert(t.last() == c);
        }
        if c != ':' && c != '-' {
            out.push(c);
        }
        i = i + 1;
    }
    assert(chars@.take(i as int) =~= chars@);
    string_from_chars(out.as_slice())
}

fn text_value(s: String) -> (r: BoundValue)
    ensures
        bound_view(r) == BoundView::Text(s@),
{
    BoundValue::Text(s)
}

fn clause(out: &mut Vec<IdentityClause>, sql: &'static str, values: Vec<BoundValue>)
    ensures
        identity_clauses_view(final(out)@) == identity_clauses_view(old(out)@).push(
            (sql@, values@.map_values(|v: BoundValue| bound_view(v))),
        ),
{
    let ghost before = identity_clauses_view(out@);
    let c = IdentityClause { sql, values };
    out.push(c);
    assert(identity_clauses_view(out@) =~= before.push(identity_clause_view(c)));
}

fn copies(v: &String, n: usize) -> (r: Vec<BoundValue>)
    ensures
        r@.len() == n,
        forall|i: int| 0 <= i < n ==> bound_view(#[trigger] r@[i]) == BoundView::Text(v@),
{
    let mut out: Vec<BoundValue> = Vec::new();
    let mut i: usize = 0;
    while i < n
        invariant
            i <= n,
            out@.len() == i,
            forall|j: int| 0 <= j < i ==> bound_view(#[trigger] out@[j]) == BoundView::Text(v@),
        decreases n - i,
    {
        let t = string_from_chars(chars_of(v.as_str()).as_slice());
        out.push(text_value(t));
        i = i + 1;
    }
    out
}

/// Builds the identity conditions of a flow query, given which of its
/// search, client and address parameters read as IP addresses.
pub fn identity_filters(q: &IdentityQuery, a: &ParameterAddresses) -> (r: Result<Vec<IdentityClause>, &'static str>)
    ensures
        match r {
            Ok(c) => identity_filters_spec(*q, *a) == Ok::<Seq<IdentityClauseView>, Seq<char>>(identity_clauses_view(c@)),
            Err(e) => identity_filters_spec(*q, *a) == Err::<Seq<IdentityClauseView>, Seq<char>>(e@),
        },
{
    let mut out: Vec<IdentityClause> = Vec::new();
    assert(identity_clauses_view(out@) =~= Seq::empty());
    let ghost c0 = identity_clauses_view(out@);
    match param_text(&q.search) {
        Some(s) => match &a.search {
            Some(b) => {
                let mut values: Vec<BoundValue> = Vec::new();
                values.push(BoundValue::Blob(copy_bytes(b)));
                values.push(BoundValue::Blob(copy_bytes(b)));
                let ghost vs = values@;
                clause(&mut out, SEARCH_ADDRESS_SQL, values);
                assert(vs.map_values(|v: BoundValue| bound_view(v)) =~= seq![BoundView::Blob(b@), BoundView::Blob(b@)]);
            },
            None => {
                let p = containing_exec(lowercase(s.as_str()).as_str());
                let values = copies(&p, 4);
                let ghost vs = values@;
                clause(&mut out, SEARCH_TEXT_SQL, values);
                let ghost pv = BoundView::Text(p@);
                assert(vs.map_values(|v: BoundValue| bound_view(v)) =~= seq![pv, pv, pv, pv]);
            },
        },
        None => {},
    }
    let ghost c1 = identity_clauses_view(out@);
    assert(c1 =~= c0 + search_clauses(param(q.search), opt_bytes(a.search)));
    match param_text(&q.client) {
        Some(c) => match parse_i64(c.as_str()) {
            Some(id) => {
                let mut values: Vec<BoundValue> = Vec::new();
                values.push(BoundValue::Integer(id));
                let ghost vs = values@;
                clause(&mut out, CLIENT_ID_SQL, values);
                assert(vs.map_values(|v: BoundValue| bound_view(v)) =~= seq![BoundView::Integer(id)]);
            },
            None => match &a.client {
                Some(b) => {
                    let mut values: Vec<BoundValue> = Vec::new();
                    values.push(BoundValue::Blob(copy_bytes(b)));
                    let ghost vs = values@;
                    clause(&mut out, CLIENT_ADDRESS_SQL, values);
                    assert(vs.map_values(|v: BoundValue| bound_view(v)) =~= seq![BoundView::Blob(b@)]);
                },
                None => {
                    let stripped = without_separators_exec(lowercase(c.as_str()).as_str());
                    let p = containing_exec(stripped.as_str());
                    let values = copies(&p, 2);
                    let ghost vs = values@;
                    clause(&mut out, CLIENT_NAME_SQL, values);
                    let ghost pv = BoundView::Text(p@);
                    assert(vs.map_values(|v: BoundValue| bound_view(v)) =~= seq![pv, pv]);
                },
            },
        },
        None => {},
    }
    let ghost c2 = identity_clauses_view(out@);
    assert(c2 =~= c1 + client_clauses(param(q.client), opt_bytes(a.client)));
    add_equals(&mut out, APPLICATION_SQL, &q.application);
    let ghost c3 = identity_clauses_view(out@);
    add_equals(&mut out, ORGANIZATION_SQL, &q.organization);
    let ghost c4 = identity_clauses_view(out@);
    add_equals(&mut out, PROTOCOL_SQL, &q.detected_protocol);
    let ghost c5 = identity_clauses_view(out@);
    match param_text(&q.domain) {
        Some(d) => {
            let p = containing_exec(lowercase(d.as_str()).as_str());
            let mut values: Vec<BoundValue> = Vec::new();
            values.push(text_value(p));
            let ghost vs = values@;
            clause(&mut out, DOMAIN_SQL, values);
            assert(vs.map_values(|v: BoundValue| bound_view(v)) =~= seq![BoundView::Text(containing(unicode_lowercase(d@)))]);
        },
        None => {},
    }
    let ghost c6 = identity_clauses_view(out@);
    assert(c6 =~= c5 + domain_clauses(param(q.domain)));
    assert(c6 =~= search_clauses(param(q.search), opt_bytes(a.search)) + client_clauses(
        param(q.client),
        opt_bytes(a.client),
    ) + equals_clauses(APPLICATION_SQL, param(q.application)) + equals_clauses(
        ORGANIZATION_SQL,
        param(q.organization),
    ) + equals_clauses(PROTOCOL_SQL, param(q.detected_protocol)) + domain_clauses(param(q.domain)));
    match param_text(&q.ip) {
        Some(_) => match &a.ip {
            Some(b) => {
                let mut values: Vec<BoundValue> = Vec::new();
                values.push(BoundValue::Blob(copy_bytes(b)));
                let ghost vs = values@;
                clause(&mut out, REMOTE_ADDRESS_SQL, values);
                assert(vs.map_values(|v: BoundValue| bound_view(v)) =~= seq![BoundView::Blob(b@)]);
            },
            None => {
                return Err("invalid_ip");
            },
        },
        None => {},
    }
    Ok(out)
}

fn add_equals(out: &mut Vec<IdentityClause>, sql: &'static str, v: &Option<String>)
    ensures
        identity_clauses_view(final(out)@) == identity_clauses_view(old(out)@) + equals_clauses(sql, param(*v)),
{
    let ghost before = identity_clauses_view(out@);
    match param_text(v) {
        Some(s) => {
            let mut values: Vec<BoundValue> = Vec::new();
            values.push(text_value(lowercase(s.as_str())));
            let ghost vs = values@;
            clause(out, sql, values);
            assert(vs.map_values(|x: BoundValue| bound_view(x)) =~= seq![BoundView::Text(unicode_lowercase(s@))]);
        },
        None => {
            assert(identity_clauses_view(out@) =~= before + Seq::<IdentityClauseView>::empty());
        },
    }
}

} // verus!
