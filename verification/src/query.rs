//! The public directory: which key is served under which domain and hash.

use vstd::prelude::*;
use vstd::string::*;

use crate::api::{
    ascii_text, header_bytes, header_text, is_header_text, is_header_text_byte, ApiErrorView,
};
use crate::openpgp::is_minimized_for;
use crate::storage::{lookup_key_data, opt_bytes, served_at, KeyTable, NewKeyView, TableView};
use crate::text::{
    any_ignoring_case, ascii_lower, ascii_lowered, chars_of, contains_ignoring_case,
    same_ignoring_case, string_of, text_less, texts, to_ascii_lowercase,
};
use crate::timestamp::{has_four_digit_year, rfc3339_of, Timestamp};
use crate::upload::{
    after_upload, all_proper, checked_upload, expires_in_four_digits, place_of,
    published_upload_is_served, upload_outcome, Export, RequestView,
};
use crate::userdb::Answer;
use crate::wkd_hash::address_parts;

verus! {

// ---------------------------------------------------------------------
// Responses
// ---------------------------------------------------------------------

/// A response of the directory.
#[derive(Debug)]
pub struct QueryResponse {
    pub status: u16,
    pub content_type: Option<&'static str>,
    pub body: Vec<u8>,
}

/// A response as mathematical values.
pub struct ResponseView {
    pub status: int,
    pub content_type: Option<Seq<char>>,
    pub body: Seq<u8>,
}

impl View for QueryResponse {
    type V = ResponseView;

    open spec fn view(&self) -> ResponseView {
        ResponseView {
            status: self.status as int,
            content_type: match self.content_type {
                Some(t) => Some(t@),
                None => None,
            },
            body: self.body@,
        }
    }
}

/// The bare answer that no key is served, whatever the reason.
pub open spec fn not_found_response() -> ResponseView {
    ResponseView { status: 404, content_type: None, body: seq![] }
}

/// The answer with a key, as it is stored.
pub open spec fn key_response(data: Seq<u8>) -> ResponseView {
    ResponseView { status: 200, content_type: Some("application/octet-stream"@), body: data }
}

/// The answer with the policy, which is empty.
pub open spec fn policy_response() -> ResponseView {
    ResponseView { status: 200, content_type: Some("text/plain"@), body: seq![] }
}

/// The answer with a key, if there is one to serve.
pub open spec fn found_response(data: Option<Seq<u8>>) -> ResponseView {
    match data {
        Some(data) => key_response(data),
        None => not_found_response(),
    }
}

/// Answers that no key is served.
pub fn not_found() -> (r: QueryResponse)
    ensures
        r@ == not_found_response(),
{
    QueryResponse { status: 404, content_type: None, body: Vec::new() }
}

/// Answers with a key, if there is one to serve.
pub fn found(data: Option<Vec<u8>>) -> (r: QueryResponse)
    ensures
        r@ == found_response(opt_bytes(data)),
{
    match data {
        Some(data) => QueryResponse {
            status: 200,
            content_type: Some("application/octet-stream"),
            body: data,
        },
        None => not_found(),
    }
}

/// Answers with the policy of the domain that the host names.
pub fn direct_policy() -> (r: QueryResponse)
    ensures
        r@ == policy_response(),
{
    QueryResponse { status: 200, content_type: Some("text/plain"), body: Vec::new() }
}

/// Answers with the policy of the domain that the path names.
pub fn advanced_policy(_domain: &str) -> (r: QueryResponse)
    ensures
        r@ == policy_response(),
{
    direct_policy()
}

// ---------------------------------------------------------------------
// Requests
// ---------------------------------------------------------------------

/// The text in front of its last colon, or all of it where there is none.
pub open spec fn without_port(s: Seq<char>) -> Seq<char>
    decreases s.len(),
{
    if s.contains(':') {
        if s.last() == ':' {
            s.drop_last()
        } else {
            without_port(s.drop_last())
        }
    } else {
        s
    }
}

/// The domain that the host header names, without a port.
pub open spec fn host_domain(header: Option<Seq<u8>>) -> Option<Seq<char>> {
    match header {
        Some(bytes) => if is_header_text(bytes) && without_port(ascii_text(bytes)).len() > 0 {
            Some(without_port(ascii_text(bytes)))
        } else {
            None
        },
        None => None,
    }
}

fn strip_port(s: &str) -> (r: String)
    ensures
        r@ == without_port(s@),
{
    let mut chars: Vec<char> = chars_of(s);
    let mut i: usize = chars.len();
    let ghost all = chars@;
    assert(all.take(i as int) == all);
    while i > 0
        invariant
            i <= chars@.len(),
            chars@ == all,
            s@ == all,
            forall|j: int| i <= j < all.len() ==> all[j] != ':',
            without_port(all) == without_port(all.take(i as int)) || !all.take(i as int).contains(
                ':',
            ),
        decreases i,
    {
        i = i - 1;
        let ghost here = all.take(i + 1);
        assert(here.drop_last() == all.take(i as int));
        if chars[i] == ':' {
            assert(here[i as int] == ':');
            assert(here.last() == ':');
            chars.truncate(i);
            assert(chars@ == all.take(i as int));
            return string_of(&chars);
        }
        proof {
            if here.contains(':') {
                let k = choose|k: int| 0 <= k < here.len() && here[k] == ':';
                assert(all.take(i as int)[k] == ':');
            } else if all.take(i as int).contains(':') {
                let k = choose|k: int|
                    0 <= k < all.take(i as int).len() && all.take(i as int)[k] == ':';
                assert(here[k] == ':');
            }
        }
    }
    assert(!all.contains(':'));
    string_of(&chars)
}

/// The domain that the host header names.
pub fn domain_from_host_header(header: Option<&[u8]>) -> (r: Option<String>)
    ensures
        match r {
            Some(domain) => host_domain(header_bytes(header)) == Some(domain@),
            None => host_domain(header_bytes(header)) is None,
        },
{
    let bytes: &[u8] = match header {
        Some(bytes) => bytes,
        None => {
            return None;
        },
    };
    match header_text(bytes) {
        Some(text) => {
            let domain: String = strip_port(text.as_str());
            if domain.as_str().unicode_len() == 0 {
                None
            } else {
                Some(domain)
            }
        },
        None => None,
    }
}

/// A lookup under a domain that is served here.
#[derive(Debug)]
pub struct Lookup {
    pub domain: String,
    pub hash: String,
}

/// The domain as it is stored, if it is served here.
pub open spec fn served_domain(domain: Seq<char>, allowed_domains: Seq<Seq<char>>) -> Option<
    Seq<char>,
> {
    if contains_ignoring_case(allowed_domains, ascii_lowered(domain)) {
        Some(ascii_lowered(domain))
    } else {
        None
    }
}

/// Admits a lookup if its domain is served here, whatever the case of its
/// letters.
pub fn admit_lookup(domain: &str, hash: &str, allowed_domains: &Vec<String>) -> (r: Option<Lookup>)
    ensures
        match r {
            Some(lookup) => served_domain(domain@, texts(allowed_domains@)) == Some(lookup.domain@)
                && lookup.hash@ == hash@,
            None => served_domain(domain@, texts(allowed_domains@)) is None,
        },
{
    let lowered: String = to_ascii_lowercase(domain);
    if any_ignoring_case(allowed_domains, lowered.as_str()) {
        Some(Lookup { domain: lowered, hash: hash.to_owned() })
    } else {
        None
    }
}

// ---------------------------------------------------------------------
// The database handle
// ---------------------------------------------------------------------

/// A handle to the database that is kept between lookups, and opened when there
/// is none.
#[derive(Debug)]
pub struct Handle<C> {
    conn: Option<C>,
}

impl<C> View for Handle<C> {
    type V = Option<C>;

    closed spec fn view(&self) -> Option<C> {
        self.conn
    }
}

/// What is left of an attempt to open the database.
pub open spec fn kept<C>(opened: Result<C, String>) -> Option<C> {
    match opened {
        Ok(conn) => Some(conn),
        Err(_) => None,
    }
}

/// What a lookup through the handle is answered.
pub open spec fn lookup_response(outcome: Result<Option<Vec<u8>>, String>) -> ResponseView {
    match outcome {
        Ok(data) => found_response(opt_bytes(data)),
        Err(_) => not_found_response(),
    }
}

impl<C> Handle<C> {
    /// The handle after the first attempt to open the database. That it failed
    /// is no reason not to start: the database may be created later.
    pub fn new(opened: Result<C, String>) -> (r: Handle<C>)
        ensures
            r@ == kept(opened),
    {
        match opened {
            Ok(conn) => Handle { conn: Some(conn) },
            Err(_) => Handle { conn: None },
        }
    }

    /// The open database; without one it has to be opened first.
    pub fn connection(&self) -> (r: Option<&C>)
        ensures
            match r {
                Some(conn) => self@ == Some(*conn),
                None => self@ is None,
            },
    {
        match &self.conn {
            Some(conn) => Some(conn),
            None => None,
        }
    }

    /// Keeps what came of a later attempt to open the database.
    pub fn reopened(&mut self, opened: Result<C, String>)
        ensures
            final(self)@ == kept(opened),
    {
        match opened {
            Ok(conn) => {
                self.conn = Some(conn);
            },
            Err(_) => {
                self.conn = None;
            },
        }
    }

    /// Answers a lookup that was made through the handle. Where it failed, the
    /// handle is dropped, so that the next lookup opens the database afresh.
    pub fn looked_up(&mut self, outcome: Result<Option<Vec<u8>>, String>) -> (r: QueryResponse)
        ensures
            r@ == lookup_response(outcome),
            final(self)@ == (if outcome is Ok {
                old(self)@
            } else {
                None
            }),
    {
        match outcome {
            Ok(data) => found(data),
            Err(_) => {
                self.conn = None;
                not_found()
            },
        }
    }
}

// ---------------------------------------------------------------------
// The whole lookup
// ---------------------------------------------------------------------

/// What a lookup is answered from a table.
pub open spec fn directory_answer(
    t: TableView,
    allowed_domains: Seq<Seq<char>>,
    domain: Seq<char>,
    hash: Seq<char>,
    now: int,
) -> ResponseView {
    match served_domain(domain, allowed_domains) {
        Some(stored) => found_response(served_at(t, (stored, hash), rfc3339_of(now))),
        None => not_found_response(),
    }
}

/// Answers a lookup from a table at time `now`.
pub fn lookup_and_respond(
    table: &KeyTable,
    allowed_domains: &Vec<String>,
    domain: &str,
    hash: &str,
    now: Timestamp,
) -> (r: QueryResponse)
    requires
        table.wf(),
    ensures
        r@ == directory_answer(table@, texts(allowed_domains@), domain@, hash@, now.unix()),
{
    match admit_lookup(domain, hash, allowed_domains) {
        Some(lookup) => found(
            lookup_key_data(table, lookup.domain.as_str(), lookup.hash.as_str(), now),
        ),
        None => not_found(),
    }
}

// ---------------------------------------------------------------------
// Laws
// ---------------------------------------------------------------------

/// The answers that no key is served are all alike: for a domain that is not
/// served, a place without a row, and a row that is revoked or expired.
pub proof fn refusals_are_alike(
    t: TableView,
    allowed_domains: Seq<Seq<char>>,
    domain: Seq<char>,
    hash: Seq<char>,
    now: int,
)
    requires
        directory_answer(t, allowed_domains, domain, hash, now).status != 200,
    ensures
        directory_answer(t, allowed_domains, domain, hash, now) == not_found_response(),
{
}

/// The answer does not depend on the case of the letters of the domain.
pub proof fn domain_case_does_not_matter(
    t: TableView,
    allowed_domains: Seq<Seq<char>>,
    a: Seq<char>,
    b: Seq<char>,
    hash: Seq<char>,
    now: int,
)
    requires
        same_ignoring_case(a, b),
    ensures
        directory_answer(t, allowed_domains, a, hash, now) == directory_answer(
            t,
            allowed_domains,
            b,
            hash,
            now,
        ),
{
}

proof fn lowering_twice(s: Seq<char>)
    ensures
        ascii_lowered(ascii_lowered(s)) == ascii_lowered(s),
{
    assert forall|i: int| 0 <= i < s.len() implies ascii_lower(ascii_lower(#[trigger] s[i]))
        == ascii_lower(s[i]) by {}
    assert(ascii_lowered(ascii_lowered(s)) =~= ascii_lowered(s));
}

/// What was published for an address is what the directory serves for it: the
/// key minimized for that address, byte for byte, until it expires, and never
/// if it was revoked.
pub proof fn directory_serves_what_was_published(
    uid: Seq<char>,
    request: RequestView,
    allowed_domains: Seq<Seq<char>>,
    owned: Answer,
    other: Answer,
    t: TableView,
    now: int,
    export: Export,
    key: NewKeyView,
    domain: Seq<char>,
    later: int,
)
    requires
        upload_outcome(uid, request, allowed_domains, owned, other, t, now, export) is Ok,
        checked_upload(uid, request, owned, allowed_domains, now, export) == Ok::<
            NewKeyView,
            ApiErrorView,
        >(key),
        same_ignoring_case(domain, key.domain),
        has_four_digit_year(later),
        expires_in_four_digits(key.expires_at),
    ensures
        directory_answer(
            after_upload(uid, request, allowed_domains, owned, other, t, now, export),
            allowed_domains,
            domain,
            key.wkd_hash,
            later,
        ) == (if !key.revoked && (key.expires_at is Some ==> later < key.expires_at->0) {
            key_response(key.key_data)
        } else {
            not_found_response()
        }),
{
    let (local, written) = address_parts(request.address)->0;
    lowering_twice(written);
    assert(key.domain == ascii_lowered(written));
    assert(ascii_lowered(domain) == key.domain);
    assert(served_domain(domain, allowed_domains) == Some(key.domain));
    published_upload_is_served(
        uid,
        request,
        allowed_domains,
        owned,
        other,
        t,
        now,
        export,
        key,
        later,
    );
}

/// Every key that is served from a table of proper rows is the minimized key of
/// an address at that place.
pub proof fn served_keys_are_minimized(
    t: TableView,
    allowed_domains: Seq<Seq<char>>,
    domain: Seq<char>,
    hash: Seq<char>,
    now: int,
) -> (r: (Seq<char>, Seq<char>))
    requires
        t.valid(),
        all_proper(t),
        directory_answer(t, allowed_domains, domain, hash, now).status == 200,
    ensures
        place_of(r.0) == Some((ascii_lowered(domain), hash)),
        is_minimized_for(
            directory_answer(t, allowed_domains, domain, hash, now).body,
            r.1,
            r.0,
        ),
{
    let slot = (ascii_lowered(domain), hash);
    assert(t.rows.contains_key(slot));
    (t.rows[slot].record.address, t.rows[slot].record.fingerprint)
}

/// A response is seen with its status, its content type and its body.
pub proof fn response_view_keeps_every_field(r: QueryResponse)
    ensures
        r@.status == r.status,
        r@.content_type is Some <==> r.content_type is Some,
        r.content_type is Some ==> r@.content_type->0 == r.content_type->0@,
        r@.body == r.body@,
{
}

/// A key is answered as it is, with its type; that there is none, with nothing but
/// the status; the policy is empty.
pub proof fn answers_hold_the_key_or_nothing(data: Seq<u8>)
    ensures
        found_response(Some(data)).status == 200,
        found_response(Some(data)).content_type == Some("application/octet-stream"@),
        found_response(Some(data)).body == data,
        found_response(None).status == 404,
        found_response(None).content_type is None,
        found_response(None).body.len() == 0,
        key_response(data) == found_response(Some(data)),
        not_found_response() == found_response(None),
        policy_response().status == 200,
        policy_response().content_type == Some("text/plain"@),
        policy_response().body.len() == 0,
{
}

/// A text without a colon has no port; otherwise what stands behind the last colon
/// is cut off with it, and nothing else.
pub proof fn port_is_what_follows_the_last_colon(host: Seq<char>, port: Seq<char>)
    requires
        !port.contains(':'),
    ensures
        without_port(port) == port,
        without_port(host + seq![':'] + port) == host,
    decreases port.len(),
{
    let s = host + seq![':'] + port;
    assert(s[host.len() as int] == ':');
    assert(s.contains(':'));
    if port.len() == 0 {
        assert(s.drop_last() == host);
    } else {
        let shorter = port.drop_last();
        assert(s.last() == port.last());
        assert(port.contains(port.last()));
        assert forall|i: int| 0 <= i < shorter.len() implies shorter[i] != ':' by {
            assert(port.contains(port[i]));
        }
        port_is_what_follows_the_last_colon(host, shorter);
        assert(s.drop_last() == host + seq![':'] + shorter);
    }
}

/// A host header without a colon names itself, byte for byte, and one with a port
/// names what stands before the colon of the port.
pub proof fn host_header_names_the_host(host: Seq<u8>, port: Seq<u8>)
    requires
        host.len() > 0,
        forall|i: int| 0 <= i < host.len() ==> 32 <= #[trigger] host[i] <= 126 || host[i] == 9,
        forall|i: int|
            0 <= i < port.len() ==> (32 <= #[trigger] port[i] <= 126 || port[i] == 9) && port[i]
                != 58,
    ensures
        ({
            let named = host_domain(Some(host + seq![58u8] + port));
            &&& named is Some
            &&& named->0.len() == host.len()
            &&& forall|i: int|
                0 <= i < host.len() ==> (#[trigger] named->0[i]) as int == host[i] as int
        }),
        (forall|i: int| 0 <= i < host.len() ==> #[trigger] host[i] != 58) ==> {
            let named = host_domain(Some(host));
            &&& named is Some
            &&& named->0.len() == host.len()
            &&& forall|i: int|
                0 <= i < host.len() ==> (#[trigger] named->0[i]) as int == host[i] as int
        },
{
    let all = host + seq![58u8] + port;
    assert forall|i: int| 0 <= i < all.len() implies is_header_text_byte(#[trigger] all[i]) by {
        if i > host.len() {
            assert(all[i] == port[i - host.len() - 1]);
        }
    }
    assert(ascii_text(all) == ascii_text(host) + seq![':'] + ascii_text(port));
    assert(!ascii_text(port).contains(':')) by {
        assert forall|i: int| 0 <= i < port.len() implies ascii_text(port)[i] != ':' by {
            assert(port[i] != 58);
        }
    }
    port_is_what_follows_the_last_colon(ascii_text(host), ascii_text(port));
    if forall|i: int| 0 <= i < host.len() ==> #[trigger] host[i] != 58 {
        assert forall|i: int| 0 <= i < host.len() implies is_header_text_byte(
            #[trigger] host[i],
        ) by {}
        assert(!ascii_text(host).contains(':')) by {
            assert forall|i: int| 0 <= i < host.len() implies ascii_text(host)[i] != ':' by {
                assert(host[i] != 58);
            }
        }
        port_is_what_follows_the_last_colon(ascii_text(host), ascii_text(host));
    }
}

/// No domain is named without a host header, by one that is no header text, and by
/// one with nothing in front of the port.
pub proof fn no_host_names_no_domain(bytes: Seq<u8>, port: Seq<u8>)
    requires
        forall|i: int| 0 <= i < port.len() ==> #[trigger] port[i] != 58,
    ensures
        host_domain(None) is None,
        host_domain(Some(Seq::<u8>::empty())) is None,
        host_domain(Some(seq![58u8] + port)) is None,
        (exists|i: int|
            0 <= i < bytes.len() && !(32 <= #[trigger] bytes[i] <= 126 || bytes[i] == 9))
            ==> host_domain(Some(bytes)) is None,
{
    let nothing = Seq::<char>::empty();
    assert(ascii_text(Seq::<u8>::empty()) == nothing);
    assert(!nothing.contains(':'));
    let all = seq![58u8] + port;
    assert(ascii_text(all) == nothing + seq![':'] + ascii_text(port));
    assert(!ascii_text(port).contains(':')) by {
        assert forall|i: int| 0 <= i < port.len() implies ascii_text(port)[i] != ':' by {
            assert(port[i] != 58);
        }
    }
    port_is_what_follows_the_last_colon(nothing, ascii_text(port));
    port_is_what_follows_the_last_colon(nothing, nothing);
    if exists|i: int|
        0 <= i < bytes.len() && !(32 <= #[trigger] bytes[i] <= 126 || bytes[i] == 9) {
        let i = choose|i: int|
            0 <= i < bytes.len() && !(32 <= #[trigger] bytes[i] <= 126 || bytes[i] == 9);
        assert(!is_header_text_byte(bytes[i]));
    }
}

/// A domain is served if any of the configured ones is the same up to case, and is
/// then looked up in lower case.
pub proof fn every_configured_domain_is_served(domain: Seq<char>, allowed_domains: Seq<Seq<char>>)
    ensures
        served_domain(domain, allowed_domains) is Some <==> exists|i: int|
            0 <= i < allowed_domains.len() && ascii_lowered(#[trigger] allowed_domains[i])
                == ascii_lowered(domain),
        served_domain(domain, allowed_domains) is Some ==> served_domain(domain, allowed_domains)->0
            == ascii_lowered(domain),
{
    lowering_twice(domain);
}

/// A lookup is answered with a key exactly if its domain is served, and a row
/// stands at the domain in lower case and the hash that is neither revoked nor
/// expired; the key is that of the row.
pub proof fn lookup_finds_the_row(
    t: TableView,
    allowed_domains: Seq<Seq<char>>,
    domain: Seq<char>,
    hash: Seq<char>,
    now: int,
)
    ensures
        ({
            let answer = directory_answer(t, allowed_domains, domain, hash, now);
            let place = (ascii_lowered(domain), hash);
            let row = t.rows[place];
            &&& answer.status == 200 || answer.status == 404
            &&& answer.status == 200 <==> {
                &&& exists|i: int|
                    0 <= i < allowed_domains.len() && ascii_lowered(#[trigger] allowed_domains[i])
                        == ascii_lowered(domain)
                &&& t.rows.contains_key(place)
                &&& !row.record.revoked
                &&& row.record.expires_at is Some ==> text_less(
                    rfc3339_of(now),
                    row.record.expires_at->0,
                )
            }
            &&& answer.status == 200 ==> answer.body == row.key_data && answer.content_type == Some(
                "application/octet-stream"@,
            )
            &&& answer.status == 404 ==> answer.body.len() == 0 && answer.content_type is None
        }),
{
    lowering_twice(domain);
}

/// The handle is kept where the database was opened. A lookup through it is
/// answered with what was found, and one that failed as if there were no key.
pub proof fn handle_answers_with_what_was_found<C>(conn: C, data: Vec<u8>, e: String)
    ensures
        kept(Ok::<C, String>(conn)) == Some(conn),
        kept(Err::<C, String>(e)) is None,
        lookup_response(Ok(Some(data))).status == 200,
        lookup_response(Ok(Some(data))).content_type == Some("application/octet-stream"@),
        lookup_response(Ok(Some(data))).body == data@,
        lookup_response(Ok(None)).status == 404,
        lookup_response(Ok(None)).content_type is None,
        lookup_response(Ok(None)).body.len() == 0,
        lookup_response(Err(e)) == lookup_response(Ok(None)),
{
}

} // verus!
