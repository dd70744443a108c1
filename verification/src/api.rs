//! The management API: who is asking, what is answered, and the errors.

use vstd::prelude::*;
use vstd::string::*;

use crate::openpgp::{KeyError, KeyErrorView};
use crate::storage::{
    after_delete, delete_key_for_uid, has_owned_row, is_listing, is_owned_row, is_row_of,
    list_keys_for_uid, record_views, KeyRecord, KeyTable, RecordView, Slot,
};
use crate::text::{i64_text, join3, opt_text, signed_decimal, texts};

verus! {

// ---------------------------------------------------------------------
// Errors
// ---------------------------------------------------------------------

/// An error response: its status, a fixed code, and a message for a reader.
#[derive(Debug)]
pub struct ApiError {
    pub status: u16,
    pub error: &'static str,
    pub message: String,
}

/// An error response as mathematical values.
pub struct ApiErrorView {
    pub status: int,
    pub error: Seq<char>,
    pub message: Seq<char>,
}

impl View for ApiError {
    type V = ApiErrorView;

    open spec fn view(&self) -> ApiErrorView {
        ApiErrorView {
            status: self.status as int,
            error: self.error@,
            message: self.message@,
        }
    }
}

/// No identity came with the request.
pub open spec fn unauthenticated_error() -> ApiErrorView {
    ApiErrorView {
        status: 401,
        error: "unauthenticated"@,
        message:
            "the SSO proxy header is missing; this should only happen if the reverse proxy is misconfigured"@,
    }
}

/// The address is not one of the caller's.
pub open spec fn address_not_owned_error(address: Seq<char>) -> ApiErrorView {
    ApiErrorView {
        status: 400,
        error: "address_not_owned"@,
        message: address + " is not one of your addresses"@,
    }
}

/// The domain is not served here.
pub open spec fn domain_not_served_error(domain: Seq<char>) -> ApiErrorView {
    ApiErrorView {
        status: 400,
        error: "domain_not_served"@,
        message: domain + " is not a domain served by this instance"@,
    }
}

/// The caller's own key stands there.
pub open spec fn already_exists_error(address: Seq<char>) -> ApiErrorView {
    ApiErrorView {
        status: 409,
        error: "already_exists"@,
        message: "a key already exists for "@ + address + "; delete it first"@,
    }
}

/// The key of another owner of the address stands there.
pub open spec fn already_exists_shared_error(address: Seq<char>) -> ApiErrorView {
    ApiErrorView {
        status: 409,
        error: "already_exists"@,
        message: "a key already exists for "@ + address
            + ", published by another owner who still owns it too; ask them to remove it first"@,
    }
}

/// There is no such key, or it is not the caller's.
pub open spec fn not_found_error() -> ApiErrorView {
    ApiErrorView { status: 404, error: "not_found"@, message: "not found"@ }
}

/// The database failed.
pub open spec fn internal_error(message: Seq<char>) -> ApiErrorView {
    ApiErrorView { status: 500, error: "internal_error"@, message }
}

/// The user directory failed.
pub open spec fn userdb_unavailable_error(message: Seq<char>) -> ApiErrorView {
    ApiErrorView { status: 502, error: "userdb_unavailable"@, message }
}

/// The key was not accepted.
pub open spec fn key_error(e: KeyErrorView) -> ApiErrorView {
    match e {
        KeyErrorView::ParseFailed(m) => ApiErrorView {
            status: 400,
            error: "parse_failed"@,
            message: m,
        },
        KeyErrorView::InvalidPrimaryKey(m) => ApiErrorView {
            status: 400,
            error: "parse_failed"@,
            message: m,
        },
        KeyErrorView::NoMatchingUserId(address) => ApiErrorView {
            status: 400,
            error: "no_matching_uid"@,
            message: "the key has no valid signature for "@ + address,
        },
        KeyErrorView::Expired(m) => ApiErrorView { status: 400, error: "expired"@, message: m },
    }
}

impl ApiError {
    fn new(status: u16, error: &'static str, message: String) -> (r: ApiError)
        ensures
            r@ == (ApiErrorView { status: status as int, error: error@, message: message@ }),
    {
        ApiError { status, error, message }
    }

    /// No identity came with the request.
    pub fn unauthenticated() -> (r: ApiError)
        ensures
            r@ == unauthenticated_error(),
    {
        ApiError::new(
            401,
            "unauthenticated",
            "the SSO proxy header is missing; this should only happen if the reverse proxy is misconfigured".to_owned(),
        )
    }

    /// The address is not one of the caller's.
    pub fn address_not_owned(address: &str) -> (r: ApiError)
        ensures
            r@ == address_not_owned_error(address@),
    {
        ApiError::new(
            400,
            "address_not_owned",
            address.to_owned().concat(" is not one of your addresses"),
        )
    }

    /// The domain is not served here.
    pub fn domain_not_served(domain: &str) -> (r: ApiError)
        ensures
            r@ == domain_not_served_error(domain@),
    {
        ApiError::new(
            400,
            "domain_not_served",
            domain.to_owned().concat(" is not a domain served by this instance"),
        )
    }

    /// The caller's own key stands there.
    pub fn already_exists(address: &str) -> (r: ApiError)
        ensures
            r@ == already_exists_error(address@),
    {
        ApiError::new(
            409,
            "already_exists",
            join3("a key already exists for ", address, "; delete it first"),
        )
    }

    /// The key of another owner of the address stands there.
    pub fn already_exists_shared(address: &str) -> (r: ApiError)
        ensures
            r@ == already_exists_shared_error(address@),
    {
        ApiError::new(
            409,
            "already_exists",
            join3(
                "a key already exists for ",
                address,
                ", published by another owner who still owns it too; ask them to remove it first",
            ),
        )
    }

    /// There is no such key, or it is not the caller's: the two are not told
    /// apart.
    pub fn not_found() -> (r: ApiError)
        ensures
            r@ == not_found_error(),
    {
        ApiError::new(404, "not_found", "not found".to_owned())
    }

    /// The database failed.
    pub fn internal(message: &str) -> (r: ApiError)
        ensures
            r@ == internal_error(message@),
    {
        ApiError::new(500, "internal_error", message.to_owned())
    }

    /// The user directory failed.
    pub fn userdb_unavailable(message: &str) -> (r: ApiError)
        ensures
            r@ == userdb_unavailable_error(message@),
    {
        ApiError::new(502, "userdb_unavailable", message.to_owned())
    }

    /// The key was not accepted.
    pub fn from_key_error(e: KeyError) -> (r: ApiError)
        ensures
            r@ == key_error(e@),
    {
        match e {
            KeyError::ParseFailed(m) => ApiError::new(400, "parse_failed", m),
            KeyError::InvalidPrimaryKey(m) => ApiError::new(400, "parse_failed", m),
            KeyError::NoMatchingUserId(address) => ApiError::new(
                400,
                "no_matching_uid",
                "the key has no valid signature for ".to_owned().concat(address.as_str()),
            ),
            KeyError::Expired(m) => ApiError::new(400, "expired", m),
        }
    }
}

// ---------------------------------------------------------------------
// Who is asking
// ---------------------------------------------------------------------

/// The bytes that may stand in the text of a header: visible ASCII characters,
/// spaces and tabs.
pub open spec fn is_header_text_byte(b: u8) -> bool {
    32 <= b < 127 || b == 9
}

/// All bytes may stand in the text of a header.
pub open spec fn is_header_text(bytes: Seq<u8>) -> bool {
    forall|i: int| 0 <= i < bytes.len() ==> is_header_text_byte(#[trigger] bytes[i])
}

/// The ASCII characters that bytes stand for.
pub open spec fn ascii_text(bytes: Seq<u8>) -> Seq<char> {
    Seq::new(bytes.len(), |i: int| bytes[i] as char)
}

/// The text of a header value, or `None` where it holds anything but visible
/// ASCII characters, spaces and tabs.
pub fn header_text(bytes: &[u8]) -> (r: Option<String>)
    ensures
        match r {
            Some(text) => is_header_text(bytes@) && text@ == ascii_text(bytes@),
            None => !is_header_text(bytes@),
        },
{
    let mut out: String = String::new();
    let mut i: usize = 0;
    while i < bytes.len()
        invariant
            i <= bytes@.len(),
            out@ == ascii_text(bytes@).take(i as int),
            forall|j: int| 0 <= j < i ==> is_header_text_byte(#[trigger] bytes@[j]),
        decreases bytes@.len() - i,
    {
        let b: u8 = bytes[i];
        if !((32 <= b && b < 127) || b == 9) {
            assert(!is_header_text_byte(bytes@[i as int]));
            return None;
        }
        out.push(b as char);
        i = i + 1;
        assert(ascii_text(bytes@).take(i as int) == ascii_text(bytes@).take(i - 1).push(b as char));
    }
    assert(ascii_text(bytes@).take(i as int) == ascii_text(bytes@));
    Some(out)
}

/// The identity that the reverse proxy vouches for.
#[derive(Debug)]
pub struct AuthenticatedUid(pub String);

/// The identity in the header that the proxy sets: there has to be one, with a
/// text that is not empty.
pub open spec fn header_identity(header: Option<Seq<u8>>) -> Option<Seq<char>> {
    match header {
        Some(bytes) => if bytes.len() > 0 && is_header_text(bytes) {
            Some(ascii_text(bytes))
        } else {
            None
        },
        None => None,
    }
}

/// The bytes of an optional header.
pub open spec fn header_bytes(header: Option<&[u8]>) -> Option<Seq<u8>> {
    match header {
        Some(bytes) => Some(bytes@),
        None => None,
    }
}

impl AuthenticatedUid {
    /// Takes the identity from the value of the header, if it is there.
    pub fn from_header(header: Option<&[u8]>) -> (r: Result<AuthenticatedUid, ApiError>)
        ensures
            match r {
                Ok(uid) => header_identity(header_bytes(header)) == Some(uid.0@),
                Err(e) => header_identity(header_bytes(header)) is None && e@
                    == unauthenticated_error(),
            },
    {
        let bytes: &[u8] = match header {
            Some(bytes) => bytes,
            None => {
                return Err(ApiError::unauthenticated());
            },
        };
        if bytes.len() == 0 {
            return Err(ApiError::unauthenticated());
        }
        match header_text(bytes) {
            Some(text) => Ok(AuthenticatedUid(text)),
            None => Err(ApiError::unauthenticated()),
        }
    }
}

// ---------------------------------------------------------------------
// The caller and the caller's keys
// ---------------------------------------------------------------------

/// The caller, and the addresses that the caller may manage.
#[derive(Debug)]
pub struct MeResponse {
    pub uid: String,
    pub addresses: Vec<String>,
}

/// Answers who the caller is, given what the user directory said.
pub fn get_me(uid: AuthenticatedUid, answer: Result<Vec<String>, String>) -> (r: Result<
    MeResponse,
    ApiError,
>)
    ensures
        match answer {
            Ok(addresses) => r matches Ok(me) && me.uid@ == uid.0@ && texts(me.addresses@) == texts(
                addresses@,
            ),
            Err(e) => r matches Err(error) && error@ == userdb_unavailable_error(e@),
        },
{
    match answer {
        Ok(addresses) => Ok(MeResponse { uid: uid.0, addresses }),
        Err(e) => Err(ApiError::userdb_unavailable(e.as_str())),
    }
}

/// What the API shows of a published key.
#[derive(Debug)]
pub struct KeyResponseItem {
    pub id: String,
    pub address: String,
    pub domain: String,
    pub fingerprint: String,
    pub uploaded_at: String,
    pub revoked: bool,
    /// RFC 3339, or `None` for a key that does not expire. A key past this time
    /// is still listed, but not served.
    pub expires_at: Option<String>,
}

/// What the API shows of a published key, as mathematical values.
pub struct ItemView {
    pub id: Seq<char>,
    pub address: Seq<char>,
    pub domain: Seq<char>,
    pub fingerprint: Seq<char>,
    pub uploaded_at: Seq<char>,
    pub revoked: bool,
    pub expires_at: Option<Seq<char>>,
}

impl View for KeyResponseItem {
    type V = ItemView;

    open spec fn view(&self) -> ItemView {
        ItemView {
            id: self.id@,
            address: self.address@,
            domain: self.domain@,
            fingerprint: self.fingerprint@,
            uploaded_at: self.uploaded_at@,
            revoked: self.revoked,
            expires_at: opt_text(self.expires_at),
        }
    }
}

/// What is shown of a record: everything but its owner, the id in decimal
/// digits.
pub open spec fn item_of(r: RecordView) -> ItemView {
    ItemView {
        id: signed_decimal(r.id),
        address: r.address,
        domain: r.domain,
        fingerprint: r.fingerprint,
        uploaded_at: r.uploaded_at,
        revoked: r.revoked,
        expires_at: r.expires_at,
    }
}

impl KeyResponseItem {
    /// What is shown of a record.
    pub fn from_record(record: KeyRecord) -> (r: KeyResponseItem)
        ensures
            r@ == item_of(record@),
    {
        KeyResponseItem {
            id: i64_text(record.id),
            address: record.address,
            domain: record.domain,
            fingerprint: record.fingerprint,
            uploaded_at: record.uploaded_at,
            revoked: record.revoked,
            expires_at: record.expires_at,
        }
    }
}

/// What is shown of a list of records.
pub open spec fn items_of(records: Seq<RecordView>) -> Seq<ItemView> {
    Seq::new(records.len(), |i: int| item_of(records[i]))
}

/// The views of a list of items.
pub open spec fn item_views(items: Seq<KeyResponseItem>) -> Seq<ItemView> {
    Seq::new(items.len(), |i: int| items[i]@)
}

/// Answers with the caller's keys, given what the database said.
pub fn list_keys(answer: Result<Vec<KeyRecord>, String>) -> (r: Result<
    Vec<KeyResponseItem>,
    ApiError,
>)
    ensures
        match answer {
            Ok(records) => r matches Ok(items) && item_views(items@) == items_of(
                record_views(records@),
            ),
            Err(e) => r matches Err(error) && error@ == internal_error(e@),
        },
{
    match answer {
        Ok(records) => {
            let ghost wanted = items_of(record_views(records@));
            let mut items: Vec<KeyResponseItem> = Vec::new();
            let mut i: usize = 0;
            while i < records.len()
                invariant
                    i <= records@.len(),
                    wanted == items_of(record_views(records@)),
                    item_views(items@) == wanted.take(i as int),
                decreases records@.len() - i,
            {
                let ghost before = items@;
                items.push(KeyResponseItem::from_record(records[i].clone()));
                assert(item_views(items@) == item_views(before).push(wanted[i as int]));
                i = i + 1;
            }
            assert(wanted.take(i as int) == wanted);
            Ok(items)
        },
        Err(e) => Err(ApiError::internal(e.as_str())),
    }
}

// ---------------------------------------------------------------------
// Deleting
// ---------------------------------------------------------------------

/// Deletes the caller's key with this id, and returns what it was; `None`, with
/// the table as it was, where there is no such key or it is not the caller's.
pub fn remove_key(table: &mut KeyTable, uid: &str, id: i64) -> (r: Option<KeyRecord>)
    requires
        old(table).wf(),
    ensures
        final(table).wf(),
        final(table)@ == after_delete(old(table)@, id as int, uid@),
        match r {
            Some(record) => record.id == id && is_row_of(old(table)@.rows, uid@, record@),
            None => !has_owned_row(old(table)@, id as int, uid@),
        },
{
    let ghost before = table@;
    let records: Vec<KeyRecord> = list_keys_for_uid(table, uid);
    let ghost views = record_views(records@);
    let mut i: usize = 0;
    while i < records.len()
        invariant
            i <= records@.len(),
            old(table).wf(),
            *table == *old(table),
            before == table@,
            views == record_views(records@),
            is_listing(before, uid@, views),
            forall|j: int| 0 <= j < i ==> (#[trigger] views[j]).id != id,
        decreases records@.len() - i,
    {
        if records[i].id == id {
            let record: KeyRecord = records[i].clone();
            assert(views[i as int] == record@);
            assert(is_row_of(before.rows, uid@, views[i as int]));
            let removed: bool = delete_key_for_uid(table, id, uid);
            proof {
                let k = choose|k: Slot| #[trigger]
                    before.rows.contains_key(k) && before.rows[k].record.uid == uid@
                        && before.rows[k].record == record@;
                assert(before.rows.contains_key(k) && is_owned_row(before.rows[k], id as int, uid@));
                assert(removed);
            }
            return if removed {
                Some(record)
            } else {
                None
            };
        }
        i = i + 1;
    }
    proof {
        assert forall|k: Slot| #[trigger]
            before.rows.contains_key(k) implies !is_owned_row(before.rows[k], id as int, uid@) by {
            if is_owned_row(before.rows[k], id as int, uid@) {
                assert(views.contains(before.rows[k].record));
            }
        }
        assert(!has_owned_row(before, id as int, uid@));
        assert(after_delete(before, id as int, uid@).rows =~= before.rows);
    }
    None
}

/// Answers a request to delete a key, given what was removed: success without
/// content, or that there is no such key.
pub fn delete_key(removed: &Result<Option<KeyRecord>, String>) -> (r: Result<u16, ApiError>)
    ensures
        match *removed {
            Ok(Some(_)) => r == Ok::<u16, ApiError>(204),
            Ok(None) => r matches Err(error) && error@ == not_found_error(),
            Err(e) => r matches Err(error) && error@ == internal_error(e@),
        },
{
    match removed {
        Ok(Some(_)) => Ok(204),
        Ok(None) => Err(ApiError::not_found()),
        Err(e) => Err(ApiError::internal(e.as_str())),
    }
}

// ---------------------------------------------------------------------
// Laws
// ---------------------------------------------------------------------

/// The views hold every field as it is.
pub proof fn views_keep_every_field(e: ApiError, item: KeyResponseItem)
    ensures
        e@.status == e.status,
        e@.error == e.error@,
        e@.message == e.message@,
        item@.id == item.id@,
        item@.address == item.address@,
        item@.domain == item.domain@,
        item@.fingerprint == item.fingerprint@,
        item@.uploaded_at == item.uploaded_at@,
        item@.revoked == item.revoked,
        item@.expires_at is Some <==> item.expires_at is Some,
        item.expires_at is Some ==> item@.expires_at->0 == item.expires_at->0@,
{
}

/// Every error has its own status and code: what the caller did wrong is told
/// apart from what failed here and what failed in the user directory.
pub proof fn errors_have_their_status_and_code(text: Seq<char>)
    ensures
        unauthenticated_error().status == 401,
        unauthenticated_error().error == "unauthenticated"@,
        address_not_owned_error(text).status == 400,
        address_not_owned_error(text).error == "address_not_owned"@,
        domain_not_served_error(text).status == 400,
        domain_not_served_error(text).error == "domain_not_served"@,
        already_exists_error(text).status == 409,
        already_exists_error(text).error == "already_exists"@,
        already_exists_shared_error(text).status == 409,
        already_exists_shared_error(text).error == "already_exists"@,
        not_found_error().status == 404,
        not_found_error().error == "not_found"@,
        internal_error(text).status == 500,
        internal_error(text).error == "internal_error"@,
        userdb_unavailable_error(text).status == 502,
        userdb_unavailable_error(text).error == "userdb_unavailable"@,
{
}

/// Every error says what it is about: the address or the domain that was asked
/// for, or what the database or the user directory said.
pub proof fn errors_say_what_they_are_about(text: Seq<char>)
    ensures
        unauthenticated_error().message
            == "the SSO proxy header is missing; this should only happen if the reverse proxy is misconfigured"@,
        address_not_owned_error(text).message == text + " is not one of your addresses"@,
        domain_not_served_error(text).message == text + " is not a domain served by this instance"@,
        already_exists_error(text).message == "a key already exists for "@ + text
            + "; delete it first"@,
        already_exists_shared_error(text).message == "a key already exists for "@ + text
            + ", published by another owner who still owns it too; ask them to remove it first"@,
        not_found_error().message == "not found"@,
        internal_error(text).message == text,
        userdb_unavailable_error(text).message == text,
{
}

/// A key that is not accepted is the caller's mistake; the code tells apart that it
/// cannot be read, that no User ID is for the address, and that it has expired.
pub proof fn key_errors_are_told_apart(text: Seq<char>)
    ensures
        forall|e: KeyErrorView| (#[trigger] key_error(e)).status == 400,
        key_error(KeyErrorView::ParseFailed(text)).error == "parse_failed"@,
        key_error(KeyErrorView::ParseFailed(text)).message == text,
        key_error(KeyErrorView::InvalidPrimaryKey(text)).error == "parse_failed"@,
        key_error(KeyErrorView::InvalidPrimaryKey(text)).message == text,
        key_error(KeyErrorView::NoMatchingUserId(text)).error == "no_matching_uid"@,
        key_error(KeyErrorView::NoMatchingUserId(text)).message
            == "the key has no valid signature for "@ + text,
        key_error(KeyErrorView::Expired(text)).error == "expired"@,
        key_error(KeyErrorView::Expired(text)).message == text,
{
}

/// The text of a header has its bytes as characters, one for one; a header has a
/// text if all its bytes are visible ASCII characters, spaces or tabs.
pub proof fn header_text_is_byte_for_byte(bytes: Seq<u8>)
    ensures
        is_header_text(bytes) <==> forall|i: int|
            0 <= i < bytes.len() ==> 32 <= #[trigger] bytes[i] <= 126 || bytes[i] == 9,
        ascii_text(bytes).len() == bytes.len(),
        forall|i: int|
            0 <= i < bytes.len() ==> (#[trigger] ascii_text(bytes)[i]) as int == bytes[i] as int,
{
    if is_header_text(bytes) {
        assert forall|i: int| 0 <= i < bytes.len() implies 32 <= #[trigger] bytes[i] <= 126
            || bytes[i] == 9 by {
            assert(is_header_text_byte(bytes[i]));
        }
    }
}

/// The caller is who the header names, byte for byte, whoever that is; without a
/// header, with an empty one and with one that has no text there is no caller.
pub proof fn caller_is_who_the_header_names(bytes: Seq<u8>)
    ensures
        header_identity(None) is None,
        header_identity(Some(bytes)) is Some <==> bytes.len() > 0 && forall|i: int|
            0 <= i < bytes.len() ==> 32 <= #[trigger] bytes[i] <= 126 || bytes[i] == 9,
        header_identity(Some(bytes)) is Some ==> {
            let uid = header_identity(Some(bytes))->0;
            &&& uid.len() == bytes.len()
            &&& forall|i: int| 0 <= i < bytes.len() ==> (#[trigger] uid[i]) as int == bytes[i] as int
        },
{
    header_text_is_byte_for_byte(bytes);
}

/// A header is looked at with all its bytes.
pub proof fn header_bytes_are_all_there(header: Option<&[u8]>)
    ensures
        header is Some <==> header_bytes(header) is Some,
        header is Some ==> header_bytes(header)->0 == header->0@,
{
}

/// What is shown of a record is every field but the owner, as it is stored; the id
/// is the only one that is written out.
pub proof fn item_shows_the_record(r: RecordView)
    ensures
        item_of(r).id == signed_decimal(r.id),
        item_of(r).address == r.address,
        item_of(r).domain == r.domain,
        item_of(r).fingerprint == r.fingerprint,
        item_of(r).uploaded_at == r.uploaded_at,
        item_of(r).revoked == r.revoked,
        item_of(r).expires_at == r.expires_at,
{
}

/// A list is answered with one item for each record, in the same order.
pub proof fn items_follow_the_records(records: Seq<RecordView>, items: Seq<KeyResponseItem>)
    ensures
        items_of(records).len() == records.len(),
        forall|i: int| 0 <= i < records.len() ==> #[trigger] items_of(records)[i] == item_of(records[i]),
        item_views(items).len() == items.len(),
        forall|i: int| 0 <= i < items.len() ==> #[trigger] item_views(items)[i] == items[i]@,
{
}

} // verus!
