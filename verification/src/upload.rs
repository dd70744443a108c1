//! Publishing a key: the checks on an upload, and who may publish over whom.
//!
//! An upload goes through four questions, each put to the user directory or to
//! the database. `check_upload` takes the addresses of the uploader,
//! `CheckedUpload::owner_found` the owner of the row that stands in the way,
//! `ContestedUpload::owner_asked` the addresses of that owner, and
//! `AuthorizedUpload::stored` what the database made of the key.

use vstd::prelude::*;
use vstd::string::*;
use vstd::utf8::*;

use crate::api::{
    address_not_owned_error, already_exists_error, already_exists_shared_error,
    domain_not_served_error, internal_error, item_of, key_error, userdb_unavailable_error,
    ApiError, ApiErrorView, AuthenticatedUid, ItemView, KeyResponseItem,
};
use crate::openpgp::{
    bytes_view, cert_fingerprint, cert_is_tsk, cert_user_ids, expiration_outcome, expiration_time, fingerprint_hex,
    is_minimized_for, is_revoked, judged_at, key_is_accepted_for_each_of_its_addresses,
    may_minimize_to, minimize_for_address, minimized_key_has_one_user_id, parse_key_material,
    revocation_at, revoked_outcome, submitted_material, valid_primary, valid_user_ids,
    validate_for_address, validation_outcome, Cert, KeyError, KeyErrorView, PrimaryView,
    UserIdView,
};
use crate::storage::{
    after_delete, after_insert, existing_owner, insert_key, insert_outcome, opt_unix, owner_at, served_at,
    stored_key_is_served_until_expiry, stored_row_holds_the_upload, InsertError, InsertOutcome, KeyRecord, KeyTable, NewKey,
    NewKeyView, RecordView, RowView, Slot, TableView,
};
use crate::text::{
    any_ignoring_case, any_place_of_a_list_counts, ascii_lowered, contains_ignoring_case,
    lower_case_stays_lower_case, opt_text, same_text, texts,
};
use crate::timestamp::{has_four_digit_year, rfc3339_of, Timestamp};
use crate::userdb::{answer_view, Answer, UserDb};
use crate::wkd_hash::{
    both_sides_of_an_address_are_published, directory_entry, sha1_digest, wkd_hash_for_address,
    zbase32,
};

verus! {

/// A request to publish a key for an address.
#[derive(Debug)]
pub struct UploadRequest {
    pub address: String,
    /// Armored, or binary material in base64.
    pub key: String,
}

/// A request to publish a key as mathematical values.
pub struct RequestView {
    pub address: Seq<char>,
    pub key: Seq<char>,
}

impl View for UploadRequest {
    type V = RequestView;

    open spec fn view(&self) -> RequestView {
        RequestView { address: self.address@, key: self.key@ }
    }
}

// ---------------------------------------------------------------------
// The address
// ---------------------------------------------------------------------

/// Where a key for an address is published: its hash and its domain. The
/// directory has to give the address to the uploader, and the domain has to be
/// served here.
pub open spec fn claim_outcome(
    address: Seq<char>,
    owned: Answer,
    allowed_domains: Seq<Seq<char>>,
) -> Result<(Seq<char>, Seq<char>), ApiErrorView> {
    match owned {
        Err(e) => Err(userdb_unavailable_error(e)),
        Ok(list) => if !contains_ignoring_case(list, address) {
            Err(address_not_owned_error(address))
        } else {
            match directory_entry(address) {
                None => Err(address_not_owned_error(address)),
                Some((hash, domain)) => if contains_ignoring_case(allowed_domains, domain) {
                    Ok((hash, domain))
                } else {
                    Err(domain_not_served_error(domain))
                },
            }
        },
    }
}

/// Finds out where a key for an address is published, given the addresses of
/// the uploader.
pub fn check_claim(
    address: &str,
    owned: &Result<Vec<String>, String>,
    allowed_domains: &Vec<String>,
) -> (r: Result<(String, String), ApiError>)
    ensures
        match r {
            Ok((hash, domain)) => claim_outcome(
                address@,
                answer_view(*owned),
                texts(allowed_domains@),
            ) == Ok::<(Seq<char>, Seq<char>), ApiErrorView>((hash@, domain@)),
            Err(e) => claim_outcome(address@, answer_view(*owned), texts(allowed_domains@)) == Err::<
                (Seq<char>, Seq<char>),
                ApiErrorView,
            >(e@),
        },
{
    let list: &Vec<String> = match owned {
        Ok(list) => list,
        Err(e) => {
            return Err(ApiError::userdb_unavailable(e.as_str()));
        },
    };
    if !any_ignoring_case(list, address) {
        return Err(ApiError::address_not_owned(address));
    }
    match wkd_hash_for_address(address) {
        Ok((hash, domain)) => if any_ignoring_case(allowed_domains, domain.as_str()) {
            Ok((hash, domain))
        } else {
            Err(ApiError::domain_not_served(domain.as_str()))
        },
        Err(_) => Err(ApiError::address_not_owned(address)),
    }
}

// ---------------------------------------------------------------------
// The key
// ---------------------------------------------------------------------

/// A key that was accepted for an address, minimized for it.
#[derive(Debug)]
pub struct InspectedKey {
    pub fingerprint: String,
    pub key_data: Vec<u8>,
    pub revoked: bool,
    pub expires_at: Option<Timestamp>,
}

/// An accepted key as mathematical values.
pub struct InspectedView {
    pub fingerprint: Seq<char>,
    pub key_data: Seq<u8>,
    pub revoked: bool,
    pub expires_at: Option<int>,
}

impl View for InspectedKey {
    type V = InspectedView;

    open spec fn view(&self) -> InspectedView {
        InspectedView {
            fingerprint: self.fingerprint@,
            key_data: self.key_data@,
            revoked: self.revoked,
            expires_at: opt_unix(self.expires_at),
        }
    }
}

/// What came of minimizing a key.
pub type Export = Result<Seq<u8>, KeyErrorView>;

/// What is published of a certificate for an address at a time, given what came
/// of minimizing it; or why it is not accepted. It is valid for the address and
/// not expired; that it is revoked is no reason to refuse it.
pub open spec fn inspected_cert(
    material: Seq<u8>,
    address: Seq<char>,
    now: int,
    export: Export,
) -> Result<InspectedView, KeyErrorView> {
    let at = judged_at(now);
    match validation_outcome(valid_primary(material, at), valid_user_ids(material, at), address, now) {
        Err(e) => Err(e),
        Ok(_) => match export {
            Err(e) => Err(e),
            Ok(key_data) => match expiration_outcome(valid_primary(material, at)) {
                Err(e) => Err(e),
                Ok(expires_at) => Ok(
                    InspectedView {
                        fingerprint: cert_fingerprint(material)->Ok_0,
                        key_data,
                        revoked: revoked_outcome(revocation_at(key_data, at)),
                        expires_at,
                    },
                ),
            },
        },
    }
}

/// What is published of submitted key material, given what came of minimizing
/// it.
pub open spec fn inspected_key(
    text: Seq<char>,
    address: Seq<char>,
    now: int,
    export: Export,
) -> Result<InspectedView, KeyErrorView> {
    match submitted_material(text) {
        Err(e) => Err(KeyErrorView::ParseFailed(e)),
        Ok(material) => inspected_cert(material, address, now, export),
    }
}

/// This may come of minimizing a certificate for an address, if it is valid for
/// that address.
pub open spec fn may_export_cert(
    material: Seq<u8>,
    address: Seq<char>,
    now: int,
    export: Export,
) -> bool {
    let at = judged_at(now);
    validation_outcome(valid_primary(material, at), valid_user_ids(material, at), address, now) is Ok
        ==> may_minimize_to(material, address, now, export)
}

/// This may come of minimizing submitted key material for an address, if it is
/// a key that is valid for that address.
pub open spec fn may_export(text: Seq<char>, address: Seq<char>, now: int, export: Export) -> bool {
    submitted_material(text) matches Ok(material) ==> may_export_cert(
        material,
        address,
        now,
        export,
    )
}

/// The outcome of an inspection as mathematical values.
pub open spec fn inspection_view(r: Result<InspectedKey, KeyError>) -> Result<
    InspectedView,
    KeyErrorView,
> {
    match r {
        Ok(key) => Ok(key@),
        Err(e) => Err(e@),
    }
}

/// An expiration time, if there is one, has a year of four digits.
pub open spec fn expires_in_four_digits(expires_at: Option<int>) -> bool {
    expires_at is Some ==> has_four_digit_year(expires_at->0)
}

fn inspect_cert(cert: &Cert, address: &str, now: Timestamp) -> (r: Result<InspectedKey, KeyError>)
    requires
        cert_fingerprint(cert@) is Ok,
    ensures
        exists|export: Export|
            {
                &&& #[trigger] may_export_cert(cert@, address@, now.unix(), export)
                &&& inspection_view(r) == inspected_cert(cert@, address@, now.unix(), export)
            },
        r matches Ok(key) ==> is_minimized_for(key.key_data@, key.fingerprint@, address@)
            && expires_in_four_digits(key@.expires_at),
{
    match validate_for_address(cert, address, now) {
        Ok(_) => {},
        Err(e) => {
            assert(may_export_cert(cert@, address@, now.unix(), Err(e@)));
            return Err(e);
        },
    }
    let minimized: Result<Vec<u8>, KeyError> = minimize_for_address(cert, address, now);
    assert(may_export_cert(cert@, address@, now.unix(), bytes_view(minimized)));
    let key_data: Vec<u8> = match minimized {
        Ok(bytes) => bytes,
        Err(e) => {
            return Err(e);
        },
    };
    let fingerprint: String = fingerprint_hex(cert);
    let revoked: bool = is_revoked(key_data.as_slice(), now);
    match expiration_time(cert, now) {
        Ok(expires_at) => Ok(InspectedKey { fingerprint, key_data, revoked, expires_at }),
        Err(e) => Err(e),
    }
}

/// Inspects submitted key material at time `now`: it has to be a valid key for
/// the address, and is minimized for it.
pub fn inspect_key(text: &str, address: &str, now: Timestamp) -> (r: Result<InspectedKey, KeyError>)
    ensures
        exists|export: Export|
            {
                &&& #[trigger] may_export(text@, address@, now.unix(), export)
                &&& inspection_view(r) == inspected_key(text@, address@, now.unix(), export)
            },
        r matches Ok(key) ==> is_minimized_for(key.key_data@, key.fingerprint@, address@)
            && expires_in_four_digits(key@.expires_at),
{
    match parse_key_material(text) {
        Ok(cert) => {
            let r: Result<InspectedKey, KeyError> = inspect_cert(&cert, address, now);
            proof {
                let export = choose|export: Export|
                    {
                        &&& #[trigger] may_export_cert(cert@, address@, now.unix(), export)
                        &&& inspection_view(r) == inspected_cert(
                            cert@,
                            address@,
                            now.unix(),
                            export,
                        )
                    };
                assert(may_export(text@, address@, now.unix(), export));
            }
            r
        },
        Err(e) => {
            assert(may_export(text@, address@, now.unix(), Err(e@)));
            Err(e)
        },
    }
}

// ---------------------------------------------------------------------
// The checked upload
// ---------------------------------------------------------------------

/// An upload that passed all checks on the address and on the key.
#[derive(Debug)]
pub struct CheckedUpload {
    uid: String,
    address: String,
    domain: String,
    wkd_hash: String,
    key: InspectedKey,
}

impl View for CheckedUpload {
    type V = NewKeyView;

    closed spec fn view(&self) -> NewKeyView {
        NewKeyView {
            uid: self.uid@,
            domain: self.domain@,
            address: self.address@,
            wkd_hash: self.wkd_hash@,
            fingerprint: self.key.fingerprint@,
            key_data: self.key.key_data@,
            revoked: self.key.revoked,
            expires_at: opt_unix(self.key.expires_at),
        }
    }
}

/// The row to store for an accepted key.
pub open spec fn new_key_for(
    uid: Seq<char>,
    address: Seq<char>,
    hash: Seq<char>,
    domain: Seq<char>,
    key: InspectedView,
) -> NewKeyView {
    NewKeyView {
        uid,
        domain,
        address,
        wkd_hash: hash,
        fingerprint: key.fingerprint,
        key_data: key.key_data,
        revoked: key.revoked,
        expires_at: key.expires_at,
    }
}

/// What is to be stored of an upload, given where its key is published and what
/// was found out about the key; or the error to answer with.
pub open spec fn accepted_upload(
    uid: Seq<char>,
    address: Seq<char>,
    claim: Result<(Seq<char>, Seq<char>), ApiErrorView>,
    key: Result<InspectedView, KeyErrorView>,
) -> Result<NewKeyView, ApiErrorView> {
    match claim {
        Err(e) => Err(e),
        Ok((hash, domain)) => match key {
            Err(e) => Err(key_error(e)),
            Ok(key) => Ok(new_key_for(uid, address, hash, domain, key)),
        },
    }
}

/// What is to be stored of an upload, given what came of minimizing its key; or
/// the error to answer with.
pub open spec fn checked_upload(
    uid: Seq<char>,
    request: RequestView,
    owned: Answer,
    allowed_domains: Seq<Seq<char>>,
    now: int,
    export: Export,
) -> Result<NewKeyView, ApiErrorView> {
    accepted_upload(
        uid,
        request.address,
        claim_outcome(request.address, owned, allowed_domains),
        inspected_key(request.key, request.address, now, export),
    )
}

/// This may come of minimizing the key of an upload, if it comes to that.
pub open spec fn may_export_upload(
    request: RequestView,
    owned: Answer,
    allowed_domains: Seq<Seq<char>>,
    now: int,
    export: Export,
) -> bool {
    claim_outcome(request.address, owned, allowed_domains) is Ok ==> may_export(
        request.key,
        request.address,
        now,
        export,
    )
}

/// The outcome of the checks as mathematical values.
pub open spec fn checked_view(r: Result<CheckedUpload, ApiError>) -> Result<
    NewKeyView,
    ApiErrorView,
> {
    match r {
        Ok(upload) => Ok(upload@),
        Err(e) => Err(e@),
    }
}

/// Accepts an upload for a place, given what was found out about its key.
pub fn accept_upload(
    uid: &str,
    address: &str,
    wkd_hash: String,
    domain: String,
    key: Result<InspectedKey, KeyError>,
) -> (r: Result<CheckedUpload, ApiError>)
    ensures
        checked_view(r) == accepted_upload(
            uid@,
            address@,
            Ok((wkd_hash@, domain@)),
            inspection_view(key),
        ),
{
    match key {
        Ok(key) => Ok(
            CheckedUpload {
                uid: uid.to_owned(),
                address: address.to_owned(),
                domain,
                wkd_hash,
                key,
            },
        ),
        Err(e) => Err(ApiError::from_key_error(e)),
    }
}

/// Checks an upload at time `now`, given the addresses of the uploader.
pub fn check_upload(
    uid: &AuthenticatedUid,
    request: &UploadRequest,
    owned: &Result<Vec<String>, String>,
    allowed_domains: &Vec<String>,
    now: Timestamp,
) -> (r: Result<CheckedUpload, ApiError>)
    ensures
        exists|export: Export|
            {
                &&& #[trigger] may_export_upload(
                    request@,
                    answer_view(*owned),
                    texts(allowed_domains@),
                    now.unix(),
                    export,
                )
                &&& checked_view(r) == checked_upload(
                    uid.0@,
                    request@,
                    answer_view(*owned),
                    texts(allowed_domains@),
                    now.unix(),
                    export,
                )
            },
        r matches Ok(upload) ==> is_minimized_for(
            upload@.key_data,
            upload@.fingerprint,
            request.address@,
        ) && expires_in_four_digits(upload@.expires_at),
{
    let ghost own = answer_view(*owned);
    let ghost domains = texts(allowed_domains@);
    match check_claim(request.address.as_str(), owned, allowed_domains) {
        Ok((hash, domain)) => {
            let key: Result<InspectedKey, KeyError> = inspect_key(
                request.key.as_str(),
                request.address.as_str(),
                now,
            );
            proof {
                let export = choose|export: Export|
                    {
                        &&& #[trigger] may_export(
                            request.key@,
                            request.address@,
                            now.unix(),
                            export,
                        )
                        &&& inspection_view(key) == inspected_key(
                            request.key@,
                            request.address@,
                            now.unix(),
                            export,
                        )
                    };
                assert(may_export_upload(request@, own, domains, now.unix(), export));
            }
            accept_upload(uid.0.as_str(), request.address.as_str(), hash, domain, key)
        },
        Err(e) => {
            let ghost none: Export = Ok(Seq::<u8>::empty());
            assert(may_export_upload(request@, own, domains, now.unix(), none));
            Err(e)
        },
    }
}

// ---------------------------------------------------------------------
// The row in the way
// ---------------------------------------------------------------------

/// An upload for a place where the key of someone else stands.
#[derive(Debug)]
pub struct ContestedUpload {
    upload: CheckedUpload,
    owner: String,
}

/// An upload that may be stored.
#[derive(Debug)]
pub struct AuthorizedUpload {
    upload: CheckedUpload,
    replace_if_owned_by: Option<String>,
}

/// How an upload goes on once the owner of the place is known.
#[derive(Debug)]
pub enum OwnerDecision {
    /// No one else's key is in the way.
    Store(AuthorizedUpload),
    /// Someone else's key is in the way: whether they still own the address has
    /// to be asked.
    Ask(ContestedUpload),
}

impl ContestedUpload {
    #[verifier::type_invariant]
    spec fn is_contested(self) -> bool {
        self.owner@ != self.upload.uid@
    }

    /// What is to be stored.
    pub closed spec fn new_key(self) -> NewKeyView {
        self.upload@
    }

    /// Who owns the key in the way.
    pub closed spec fn other(self) -> Seq<char> {
        self.owner@
    }

    /// The uid whose addresses have to be asked for.
    pub fn owner(&self) -> (r: &str)
        ensures
            r@ == self.other(),
            r@ != self.new_key().uid,
    {
        proof {
            use_type_invariant(self);
        }
        self.owner.as_str()
    }

    /// Goes on with the upload, given the addresses of the owner. The key is
    /// replaced only if that owner does not hold the address any more.
    pub fn owner_asked(self, answer: &Result<Vec<String>, String>) -> (r: Result<
        AuthorizedUpload,
        ApiError,
    >)
        ensures
            match r {
                Ok(a) => a.new_key() == self.new_key() && replacement(
                    self.new_key().address,
                    self.other(),
                    answer_view(*answer),
                ) == Ok::<Seq<char>, ApiErrorView>(self.other()) && a.replaces() == Some(
                    self.other(),
                ),
                Err(e) => replacement(self.new_key().address, self.other(), answer_view(*answer))
                    == Err::<Seq<char>, ApiErrorView>(e@),
            },
    {
        proof {
            use_type_invariant(&self);
        }
        match answer {
            Ok(list) => if any_ignoring_case(list, self.upload.address.as_str()) {
                Err(ApiError::already_exists_shared(self.upload.address.as_str()))
            } else {
                Ok(
                    AuthorizedUpload {
                        upload: self.upload,
                        replace_if_owned_by: Some(self.owner),
                    },
                )
            },
            Err(e) => Err(ApiError::userdb_unavailable(e.as_str())),
        }
    }
}

/// Whose key may be replaced, given what the directory says of its owner; or
/// the error to answer with. An address that the owner still holds is shared,
/// and no one takes it over.
pub open spec fn replacement(address: Seq<char>, owner: Seq<char>, answer: Answer) -> Result<
    Seq<char>,
    ApiErrorView,
> {
    match answer {
        Err(e) => Err(userdb_unavailable_error(e)),
        Ok(list) => if contains_ignoring_case(list, address) {
            Err(already_exists_shared_error(address))
        } else {
            Ok(owner)
        },
    }
}

/// Whose key an upload may replace, given who owns the key in the way and what
/// the directory says of that owner: no one's, if there is none, or if it is
/// the uploader's own.
pub open spec fn authorization(
    key: NewKeyView,
    owner: Option<Seq<char>>,
    answer: Answer,
) -> Result<Option<Seq<char>>, ApiErrorView> {
    match owner {
        Some(other) => if other == key.uid {
            Ok(None)
        } else {
            match replacement(key.address, other, answer) {
                Ok(replaced) => Ok(Some(replaced)),
                Err(e) => Err(e),
            }
        },
        None => Ok(None),
    }
}

impl CheckedUpload {
    /// The domain under which the key is published.
    pub fn domain(&self) -> (r: &str)
        ensures
            r@ == self@.domain,
    {
        self.domain.as_str()
    }

    /// The hash under which the key is published.
    pub fn wkd_hash(&self) -> (r: &str)
        ensures
            r@ == self@.wkd_hash,
    {
        self.wkd_hash.as_str()
    }

    /// Goes on with the upload, given who owns the key that stands at its
    /// place.
    pub fn owner_found(self, answer: Result<Option<String>, String>) -> (r: Result<
        OwnerDecision,
        ApiError,
    >)
        ensures
            match answer {
                Err(m) => r matches Err(e) && e@ == internal_error(m@),
                Ok(owner) => match r {
                    Ok(OwnerDecision::Store(a)) => a.new_key() == self@ && a.replaces() is None && (
                    owner is None || owner->0@ == self@.uid),
                    Ok(OwnerDecision::Ask(c)) => c.new_key() == self@ && owner is Some && c.other()
                        == owner->0@ && c.other() != self@.uid,
                    Err(_) => false,
                },
            },
    {
        match answer {
            Err(m) => Err(ApiError::internal(m.as_str())),
            Ok(Some(owner)) => if same_text(owner.as_str(), self.uid.as_str()) {
                Ok(
                    OwnerDecision::Store(
                        AuthorizedUpload { upload: self, replace_if_owned_by: None },
                    ),
                )
            } else {
                Ok(OwnerDecision::Ask(ContestedUpload { upload: self, owner }))
            },
            Ok(None) => Ok(
                OwnerDecision::Store(AuthorizedUpload { upload: self, replace_if_owned_by: None }),
            ),
        }
    }
}

// ---------------------------------------------------------------------
// Storing
// ---------------------------------------------------------------------

/// What is answered to an upload, given what the database made of it.
pub open spec fn upload_response(
    address: Seq<char>,
    stored: Result<RecordView, InsertError>,
) -> Result<ItemView, ApiErrorView> {
    match stored {
        Ok(record) => Ok(item_of(record)),
        Err(InsertError::Duplicate) => Err(already_exists_error(address)),
        Err(InsertError::OwnedByOther) => Err(already_exists_shared_error(address)),
        Err(InsertError::Sqlite(m)) => Err(internal_error(m@)),
    }
}

/// What the database made of a key, as mathematical values.
pub open spec fn stored_view(r: Result<KeyRecord, InsertError>) -> Result<RecordView, InsertError> {
    match r {
        Ok(record) => Ok(record@),
        Err(e) => Err(e),
    }
}

/// The outcome of an upload as mathematical values.
pub open spec fn response_view(r: Result<KeyResponseItem, ApiError>) -> Result<
    ItemView,
    ApiErrorView,
> {
    match r {
        Ok(item) => Ok(item@),
        Err(e) => Err(e@),
    }
}

impl AuthorizedUpload {
    #[verifier::type_invariant]
    spec fn is_authorized(self) -> bool {
        self.replace_if_owned_by is Some ==> self.replace_if_owned_by->0@ != self.upload.uid@
    }

    /// What is to be stored.
    pub closed spec fn new_key(self) -> NewKeyView {
        self.upload@
    }

    /// Whose key may be replaced.
    pub closed spec fn replaces(self) -> Option<Seq<char>> {
        opt_text(self.replace_if_owned_by)
    }

    /// The domain under which the key is published.
    pub fn domain(&self) -> (r: &str)
        ensures
            r@ == self.new_key().domain,
    {
        self.upload.domain.as_str()
    }

    /// The hash under which the key is published.
    pub fn wkd_hash(&self) -> (r: &str)
        ensures
            r@ == self.new_key().wkd_hash,
    {
        self.upload.wkd_hash.as_str()
    }

    /// The minimized key.
    pub fn key_data(&self) -> (r: &[u8])
        ensures
            r@ == self.new_key().key_data,
    {
        self.upload.key.key_data.as_slice()
    }

    /// Stores the key in the table at time `now`.
    pub fn store(&self, table: &mut KeyTable, now: Timestamp) -> (r: Result<KeyRecord, InsertError>)
        requires
            old(table).wf(),
        ensures
            final(table).wf(),
            final(table)@ == after_insert(
                old(table)@,
                self.new_key(),
                self.replaces(),
                now.unix(),
            ),
            match insert_outcome(old(table)@, self.new_key(), self.replaces(), now.unix()) {
                InsertOutcome::Stored(row) => r is Ok && r->Ok_0@ == row.record,
                InsertOutcome::Duplicate => r is Err && r->Err_0 is Duplicate,
                InsertOutcome::OwnedByOther => r is Err && r->Err_0 is OwnedByOther,
                InsertOutcome::Full => r is Err && (r->Err_0 matches InsertError::Sqlite(m) && m@
                    == "database or disk is full"@),
            },
    {
        let key: NewKey = NewKey {
            uid: self.upload.uid.as_str(),
            domain: self.upload.domain.as_str(),
            address: self.upload.address.as_str(),
            wkd_hash: self.upload.wkd_hash.as_str(),
            fingerprint: self.upload.key.fingerprint.as_str(),
            key_data: self.upload.key.key_data.as_slice(),
            revoked: self.upload.key.revoked,
            expires_at: self.upload.key.expires_at,
        };
        assert(key@ == self.new_key());
        match &self.replace_if_owned_by {
            Some(owner) => insert_key(table, &key, Some(owner.as_str()), now),
            None => insert_key(table, &key, None, now),
        }
    }

    /// Answers the upload, given what the database made of it.
    pub fn stored(&self, result: Result<KeyRecord, InsertError>) -> (r: Result<
        KeyResponseItem,
        ApiError,
    >)
        ensures
            response_view(r) == upload_response(self.new_key().address, stored_view(result)),
    {
        match result {
            Ok(record) => Ok(KeyResponseItem::from_record(record)),
            Err(InsertError::Duplicate) => Err(
                ApiError::already_exists(self.upload.address.as_str()),
            ),
            Err(InsertError::OwnedByOther) => Err(
                ApiError::already_exists_shared(self.upload.address.as_str()),
            ),
            Err(InsertError::Sqlite(m)) => Err(ApiError::internal(m.as_str())),
        }
    }
}

// ---------------------------------------------------------------------
// The whole upload
// ---------------------------------------------------------------------

/// What is answered to an upload, given what became of the attempt to store
/// the key.
pub open spec fn inserted_response(address: Seq<char>, outcome: InsertOutcome) -> Result<
    ItemView,
    ApiErrorView,
> {
    match outcome {
        InsertOutcome::Stored(row) => Ok(item_of(row.record)),
        InsertOutcome::Duplicate => Err(already_exists_error(address)),
        InsertOutcome::OwnedByOther => Err(already_exists_shared_error(address)),
        InsertOutcome::Full => Err(internal_error("database or disk is full"@)),
    }
}

/// What an upload is answered, given what the directory says of the uploader
/// and of the owner of the key in the way.
pub open spec fn upload_outcome(
    uid: Seq<char>,
    request: RequestView,
    allowed_domains: Seq<Seq<char>>,
    owned: Answer,
    other: Answer,
    t: TableView,
    now: int,
    export: Export,
) -> Result<ItemView, ApiErrorView> {
    match checked_upload(uid, request, owned, allowed_domains, now, export) {
        Err(e) => Err(e),
        Ok(key) => match authorization(key, owner_at(t, key.slot()), other) {
            Err(e) => Err(e),
            Ok(replaced) => inserted_response(
                request.address,
                insert_outcome(t, key, replaced, now),
            ),
        },
    }
}

/// The table after an upload.
pub open spec fn after_upload(
    uid: Seq<char>,
    request: RequestView,
    allowed_domains: Seq<Seq<char>>,
    owned: Answer,
    other: Answer,
    t: TableView,
    now: int,
    export: Export,
) -> TableView {
    match checked_upload(uid, request, owned, allowed_domains, now, export) {
        Err(_) => t,
        Ok(key) => match authorization(key, owner_at(t, key.slot()), other) {
            Err(_) => t,
            Ok(replaced) => after_insert(t, key, replaced, now),
        },
    }
}

/// Whose addresses are asked for besides those of the uploader.
pub open spec fn contested_by(
    uid: Seq<char>,
    request: RequestView,
    allowed_domains: Seq<Seq<char>>,
    owned: Answer,
    t: TableView,
    now: int,
    export: Export,
) -> Option<Seq<char>> {
    match checked_upload(uid, request, owned, allowed_domains, now, export) {
        Err(_) => None,
        Ok(key) => match owner_at(t, key.slot()) {
            Some(other) => if other == uid {
                None
            } else {
                Some(other)
            },
            None => None,
        },
    }
}

/// The directory may have said this of the uploader, and this of the owner of
/// the key in the way, if that was asked for.
pub open spec fn may_have_said<D: UserDb>(
    db: D,
    uid: Seq<char>,
    owned: Answer,
    contested: Option<Seq<char>>,
    other: Answer,
) -> bool {
    db.may_answer(uid, owned) && (contested is Some ==> db.may_answer(contested->0, other))
}

/// The place where the key of an address is published.
pub open spec fn place_of(address: Seq<char>) -> Option<Slot> {
    match directory_entry(address) {
        Some((hash, domain)) => Some((domain, hash)),
        None => None,
    }
}

/// A row stands at the place of its address, and its key is minimized for that
/// address: a certificate with the fingerprint of the row, with a single User ID,
/// which is for the address, and without secret key material.
pub open spec fn is_proper(row: RowView) -> bool {
    &&& place_of(row.record.address) == Some(row.slot())
    &&& is_minimized_for(row.key_data, row.record.fingerprint, row.record.address)
}

/// Every row of the table is proper.
pub open spec fn all_proper(t: TableView) -> bool {
    forall|k: Slot| #[trigger] t.rows.contains_key(k) ==> is_proper(t.rows[k])
}

/// Publishes a key in the table at time `now`, asking the directory who owns
/// what.
pub fn upload_key<D: UserDb>(
    db: &D,
    table: &mut KeyTable,
    allowed_domains: &Vec<String>,
    uid: &AuthenticatedUid,
    request: &UploadRequest,
    now: Timestamp,
) -> (r: Result<KeyResponseItem, ApiError>)
    requires
        old(table).wf(),
    ensures
        final(table).wf(),
        all_proper(old(table)@) ==> all_proper(final(table)@),
        r is Ok ==> place_of(request.address@) is Some && final(table)@.rows.contains_key(
            place_of(request.address@)->0,
        ) && is_proper(final(table)@.rows[place_of(request.address@)->0]),
        exists|owned: Answer, other: Answer, export: Export|
            {
                &&& #[trigger] may_export_upload(
                    request@,
                    owned,
                    texts(allowed_domains@),
                    now.unix(),
                    export,
                )
                &&& #[trigger] may_have_said(
                    *db,
                    uid.0@,
                    owned,
                    contested_by(
                        uid.0@,
                        request@,
                        texts(allowed_domains@),
                        owned,
                        old(table)@,
                        now.unix(),
                        export,
                    ),
                    other,
                )
                &&& response_view(r) == upload_outcome(
                    uid.0@,
                    request@,
                    texts(allowed_domains@),
                    owned,
                    other,
                    old(table)@,
                    now.unix(),
                    export,
                )
                &&& final(table)@ == after_upload(
                    uid.0@,
                    request@,
                    texts(allowed_domains@),
                    owned,
                    other,
                    old(table)@,
                    now.unix(),
                    export,
                )
            },
{
    let ghost before = table@;
    let ghost domains = texts(allowed_domains@);
    let owned: Result<Vec<String>, String> = db.addresses_for_user(uid.0.as_str());
    let ghost own = answer_view(owned);
    let ghost unasked: Answer = Err(Seq::<char>::empty());
    let checked: Result<CheckedUpload, ApiError> = check_upload(
        uid,
        request,
        &owned,
        allowed_domains,
        now,
    );
    let ghost export = choose|export: Export|
        {
            &&& #[trigger] may_export_upload(request@, own, domains, now.unix(), export)
            &&& checked_view(checked) == checked_upload(
                uid.0@,
                request@,
                own,
                domains,
                now.unix(),
                export,
            )
        };
    assert(may_export_upload(request@, own, domains, now.unix(), export));
    let ghost contested = contested_by(uid.0@, request@, domains, own, before, now.unix(), export);
    let upload: CheckedUpload = match checked {
        Ok(upload) => upload,
        Err(e) => {
            assert(may_have_said(*db, uid.0@, own, contested, unasked));
            return Err(e);
        },
    };
    let owner: Option<String> = existing_owner(table, upload.domain(), upload.wkd_hash());
    let authorized: AuthorizedUpload = match upload.owner_found(Ok(owner)) {
        Ok(OwnerDecision::Store(authorized)) => {
            assert(may_have_said(*db, uid.0@, own, contested, unasked));
            authorized
        },
        Ok(OwnerDecision::Ask(contest)) => {
            let answer: Result<Vec<String>, String> = db.addresses_for_user(contest.owner());
            assert(may_have_said(*db, uid.0@, own, contested, answer_view(answer)));
            match contest.owner_asked(&answer) {
                Ok(authorized) => authorized,
                Err(e) => {
                    return Err(e);
                },
            }
        },
        Err(e) => {
            return Err(e);
        },
    };
    let ghost key = authorized.new_key();
    let result: Result<KeyRecord, InsertError> = authorized.store(table, now);
    proof {
        let row = key.row(before.last_id + 1, rfc3339_of(now.unix()));
        assert(place_of(request.address@) == Some(key.slot()));
        assert(is_proper(row));
    }
    authorized.stored(result)
}

// ---------------------------------------------------------------------
// Laws
// ---------------------------------------------------------------------

/// A refused upload changes nothing.
pub proof fn refused_upload_changes_nothing(
    uid: Seq<char>,
    request: RequestView,
    allowed_domains: Seq<Seq<char>>,
    owned: Answer,
    other: Answer,
    t: TableView,
    now: int,
    export: Export,
)
    requires
        upload_outcome(uid, request, allowed_domains, owned, other, t, now, export) is Err,
    ensures
        after_upload(uid, request, allowed_domains, owned, other, t, now, export) == t,
{
}

/// A key is published only for an address that the directory gives to the
/// uploader, in a domain that is served here, and only if it is valid for that
/// address and not expired.
pub proof fn published_upload_was_checked(
    uid: Seq<char>,
    request: RequestView,
    allowed_domains: Seq<Seq<char>>,
    owned: Answer,
    other: Answer,
    t: TableView,
    now: int,
    export: Export,
)
    requires
        upload_outcome(uid, request, allowed_domains, owned, other, t, now, export) is Ok,
    ensures
        owned is Ok,
        contains_ignoring_case(owned->Ok_0, request.address),
        directory_entry(request.address) matches Some((_, domain)) && contains_ignoring_case(
            allowed_domains,
            domain,
        ),
        submitted_material(request.key) is Ok,
        validation_outcome(
            valid_primary(submitted_material(request.key)->Ok_0, judged_at(now)),
            valid_user_ids(submitted_material(request.key)->Ok_0, judged_at(now)),
            request.address,
            now,
        ) is Ok,
{
}

/// What is published stands at the place of its address: under the uploader,
/// with the key minimized for that address.
pub proof fn published_upload_is_stored(
    uid: Seq<char>,
    request: RequestView,
    allowed_domains: Seq<Seq<char>>,
    owned: Answer,
    other: Answer,
    t: TableView,
    now: int,
    export: Export,
)
    requires
        may_export_upload(request, owned, allowed_domains, now, export),
        upload_outcome(uid, request, allowed_domains, owned, other, t, now, export) is Ok,
    ensures
        ({
            let slot = place_of(request.address)->0;
            let after = after_upload(uid, request, allowed_domains, owned, other, t, now, export);
            let material = submitted_material(request.key)->Ok_0;
            &&& place_of(request.address) is Some
            &&& after.rows.contains_key(slot)
            &&& after.rows[slot].record.uid == uid
            &&& after.rows[slot].record.address == request.address
            &&& after.rows[slot].record.uploaded_at == rfc3339_of(now)
            &&& may_minimize_to(material, request.address, now, Ok(after.rows[slot].key_data))
            &&& after.rows[slot].record.revoked == revoked_outcome(
                revocation_at(after.rows[slot].key_data, judged_at(now)),
            )
        }),
{
}

/// What was published is served, byte for byte, until the key expires; and a
/// key that was revoked when it was published is never served.
pub proof fn published_upload_is_served(
    uid: Seq<char>,
    request: RequestView,
    allowed_domains: Seq<Seq<char>>,
    owned: Answer,
    other: Answer,
    t: TableView,
    now: int,
    export: Export,
    key: NewKeyView,
    later: int,
)
    requires
        upload_outcome(uid, request, allowed_domains, owned, other, t, now, export) is Ok,
        checked_upload(uid, request, owned, allowed_domains, now, export) == Ok::<
            NewKeyView,
            ApiErrorView,
        >(key),
        has_four_digit_year(later),
        expires_in_four_digits(key.expires_at),
    ensures
        served_at(
            after_upload(uid, request, allowed_domains, owned, other, t, now, export),
            key.slot(),
            rfc3339_of(later),
        ) == (if !key.revoked && (key.expires_at is Some ==> later < key.expires_at->0) {
            Some(key.key_data)
        } else {
            None
        }),
{
    let replaced = authorization(key, owner_at(t, key.slot()), other)->Ok_0;
    stored_key_is_served_until_expiry(t, key, replaced, now, later);
}

/// A key that has expired is not published; so what is published, and is not
/// revoked, is served from the first.
pub proof fn published_key_is_alive(
    uid: Seq<char>,
    request: RequestView,
    allowed_domains: Seq<Seq<char>>,
    owned: Answer,
    other: Answer,
    t: TableView,
    now: int,
    export: Export,
    key: NewKeyView,
)
    requires
        upload_outcome(uid, request, allowed_domains, owned, other, t, now, export) is Ok,
        checked_upload(uid, request, owned, allowed_domains, now, export) == Ok::<
            NewKeyView,
            ApiErrorView,
        >(key),
        has_four_digit_year(now),
        expires_in_four_digits(key.expires_at),
    ensures
        key.expires_at is Some ==> now < key.expires_at->0,
        !key.revoked ==> served_at(
            after_upload(uid, request, allowed_domains, owned, other, t, now, export),
            key.slot(),
            rfc3339_of(now),
        ) == Some(key.key_data),
{
    published_upload_is_served(uid, request, allowed_domains, owned, other, t, now, export, key, now);
}

/// An upload over the key of someone else succeeds only if the directory does
/// not give the address to them any more, and an upload over one's own key
/// never does.
pub proof fn replaced_owner_has_lost_the_address(
    uid: Seq<char>,
    request: RequestView,
    allowed_domains: Seq<Seq<char>>,
    owned: Answer,
    other: Answer,
    t: TableView,
    now: int,
    export: Export,
    owner: Seq<char>,
)
    requires
        upload_outcome(uid, request, allowed_domains, owned, other, t, now, export) is Ok,
        place_of(request.address) is Some,
        owner_at(t, place_of(request.address)->0) == Some(owner),
    ensures
        owner != uid,
        contested_by(uid, request, allowed_domains, owned, t, now, export) == Some(owner),
        other is Ok,
        !contains_ignoring_case(other->Ok_0, request.address),
{
}

/// An upload over one's own key is refused: it has to be deleted first.
pub proof fn own_key_is_not_overwritten(
    uid: Seq<char>,
    request: RequestView,
    allowed_domains: Seq<Seq<char>>,
    owned: Answer,
    other: Answer,
    t: TableView,
    now: int,
    export: Export,
    key: NewKeyView,
)
    requires
        checked_upload(uid, request, owned, allowed_domains, now, export) == Ok::<
            NewKeyView,
            ApiErrorView,
        >(key),
        owner_at(t, key.slot()) == Some(uid),
    ensures
        upload_outcome(uid, request, allowed_domains, owned, other, t, now, export) == Err::<
            ItemView,
            ApiErrorView,
        >(already_exists_error(request.address)),
        after_upload(uid, request, allowed_domains, owned, other, t, now, export) == t,
{
}

/// An address that another owner still holds is not taken over.
pub proof fn shared_address_is_not_taken_over(
    uid: Seq<char>,
    request: RequestView,
    allowed_domains: Seq<Seq<char>>,
    owned: Answer,
    other: Seq<Seq<char>>,
    t: TableView,
    now: int,
    export: Export,
    key: NewKeyView,
    owner: Seq<char>,
)
    requires
        checked_upload(uid, request, owned, allowed_domains, now, export) == Ok::<
            NewKeyView,
            ApiErrorView,
        >(key),
        owner_at(t, key.slot()) == Some(owner),
        owner != uid,
        contains_ignoring_case(other, request.address),
    ensures
        upload_outcome(uid, request, allowed_domains, owned, Ok(other), t, now, export) == Err::<
            ItemView,
            ApiErrorView,
        >(already_exists_shared_error(request.address)),
        after_upload(uid, request, allowed_domains, owned, Ok(other), t, now, export) == t,
{
}

/// A new owner of an address can publish over the key of the old one, and the
/// old key is gone.
pub proof fn reassigned_address_can_be_published(
    uid: Seq<char>,
    request: RequestView,
    allowed_domains: Seq<Seq<char>>,
    owned: Answer,
    other: Seq<Seq<char>>,
    t: TableView,
    now: int,
    export: Export,
    key: NewKeyView,
    owner: Seq<char>,
)
    requires
        checked_upload(uid, request, owned, allowed_domains, now, export) == Ok::<
            NewKeyView,
            ApiErrorView,
        >(key),
        owner_at(t, key.slot()) == Some(owner),
        owner != uid,
        !contains_ignoring_case(other, request.address),
        t.last_id < i64::MAX,
    ensures
        upload_outcome(uid, request, allowed_domains, owned, Ok(other), t, now, export) is Ok,
        owner_at(
            after_upload(uid, request, allowed_domains, owned, Ok(other), t, now, export),
            key.slot(),
        ) == Some(uid),
{
}

/// Deleting a key leaves every other row proper.
pub proof fn delete_keeps_rows_proper(t: TableView, id: int, uid: Seq<char>)
    requires
        all_proper(t),
    ensures
        all_proper(after_delete(t, id, uid)),
{
    assert forall|k: Slot| #[trigger] after_delete(t, id, uid).rows.contains_key(k) implies is_proper(
        after_delete(t, id, uid).rows[k],
    ) by {
        assert(t.rows.contains_key(k));
    }
}

/// An upload touches no other place than that of its address.
pub proof fn upload_touches_one_slot(
    uid: Seq<char>,
    request: RequestView,
    allowed_domains: Seq<Seq<char>>,
    owned: Answer,
    other: Answer,
    t: TableView,
    now: int,
    export: Export,
    slot: Slot,
)
    requires
        place_of(request.address) != Some(slot),
    ensures
        ({
            let after = after_upload(uid, request, allowed_domains, owned, other, t, now, export);
            &&& after.rows.contains_key(slot) == t.rows.contains_key(slot)
            &&& t.rows.contains_key(slot) ==> after.rows[slot] == t.rows[slot]
        }),
{
}

// ---------------------------------------------------------------------
// Laws on what is accepted
// ---------------------------------------------------------------------

/// Who owns an address, in a domain that is served here, may publish for it: it is
/// enough that the directory gives any one of the uploader's addresses, and the
/// configuration any one of the domains, that are the same up to case.
pub proof fn justified_claim_is_accepted(
    local: Seq<char>,
    domain: Seq<char>,
    owned: Seq<Seq<char>>,
    i: int,
    allowed_domains: Seq<Seq<char>>,
    j: int,
)
    requires
        local.len() > 0,
        domain.len() > 0,
        !local.contains('@'),
        !domain.contains('@'),
        0 <= i < owned.len(),
        ascii_lowered(owned[i]) == ascii_lowered(local + seq!['@'] + domain),
        0 <= j < allowed_domains.len(),
        ascii_lowered(allowed_domains[j]) == ascii_lowered(domain),
    ensures
        claim_outcome(local + seq!['@'] + domain, Ok(owned), allowed_domains) == Ok::<
            (Seq<char>, Seq<char>),
            ApiErrorView,
        >((zbase32(sha1_digest(encode_utf8(ascii_lowered(local)))), ascii_lowered(domain))),
{
    both_sides_of_an_address_are_published(local, domain);
    lower_case_stays_lower_case(domain);
    any_place_of_a_list_counts(owned, local + seq!['@'] + domain);
    any_place_of_a_list_counts(allowed_domains, ascii_lowered(domain));
}

/// A claim is accepted with the place of the address in the directory, only if the
/// address is one of the uploader's and the domain one of those served; otherwise
/// the first of these that fails is answered.
pub proof fn refused_claims_are_told_apart(
    address: Seq<char>,
    owned: Seq<Seq<char>>,
    allowed_domains: Seq<Seq<char>>,
    e: Seq<char>,
)
    ensures
        claim_outcome(address, Err(e), allowed_domains) == Err::<
            (Seq<char>, Seq<char>),
            ApiErrorView,
        >(userdb_unavailable_error(e)),
        ({
            let is_owned = exists|i: int|
                0 <= i < owned.len() && ascii_lowered(#[trigger] owned[i]) == ascii_lowered(
                    address,
                );
            let entry = directory_entry(address);
            let is_served = exists|j: int|
                0 <= j < allowed_domains.len() && ascii_lowered(#[trigger] allowed_domains[j])
                    == ascii_lowered((entry->0).1);
            claim_outcome(address, Ok(owned), allowed_domains) == (if !is_owned || entry is None {
                Err::<(Seq<char>, Seq<char>), ApiErrorView>(address_not_owned_error(address))
            } else if !is_served {
                Err(domain_not_served_error((entry->0).1))
            } else {
                Ok(entry->0)
            })
        }),
{
    any_place_of_a_list_counts(owned, address);
    if directory_entry(address) is Some {
        any_place_of_a_list_counts(allowed_domains, (directory_entry(address)->0).1);
    }
}

/// A certificate that is valid for the address and was minimized is taken: with its
/// fingerprint, the minimized bytes, the expiry of its primary key, and as revoked
/// if the minimized key is.
pub proof fn valid_certificate_is_taken(
    material: Seq<u8>,
    address: Seq<char>,
    now: int,
    primary: PrimaryView,
    ids: Seq<UserIdView>,
    i: int,
    fingerprint: Seq<char>,
    key_data: Seq<u8>,
    e: KeyErrorView,
)
    requires
        cert_fingerprint(material) == Ok::<Seq<char>, Seq<char>>(fingerprint),
        valid_primary(material, judged_at(now)) == Ok::<PrimaryView, Seq<char>>(primary),
        valid_user_ids(material, judged_at(now)) == Ok::<Seq<UserIdView>, Seq<char>>(ids),
        primary.expires_at is Some ==> now < primary.expires_at->0,
        0 <= i < ids.len(),
        ids[i].email is Some,
        ascii_lowered(ids[i].email->0) == ascii_lowered(address),
    ensures
        ({
            let taken = inspected_cert(material, address, now, Ok(key_data));
            &&& taken is Ok
            &&& taken->Ok_0.fingerprint == fingerprint
            &&& taken->Ok_0.key_data == key_data
            &&& taken->Ok_0.revoked == revoked_outcome(revocation_at(key_data, judged_at(now)))
            &&& taken->Ok_0.expires_at is Some <==> primary.expires_at is Some
            &&& primary.expires_at is Some ==> taken->Ok_0.expires_at->0 == primary.expires_at->0
        }),
        inspected_cert(material, address, now, Err(e)) == Err::<InspectedView, KeyErrorView>(e),
{
    key_is_accepted_for_each_of_its_addresses(primary, ids, i, address, now);
}

/// A certificate that is not valid for the address is refused for what is wrong with
/// it, whatever could be made of it; and so is a text that is no key.
pub proof fn invalid_key_is_refused(
    text: Seq<char>,
    material: Seq<u8>,
    address: Seq<char>,
    now: int,
    export: Export,
    e: KeyErrorView,
)
    ensures
        validation_outcome(
            valid_primary(material, judged_at(now)),
            valid_user_ids(material, judged_at(now)),
            address,
            now,
        ) == Err::<(), KeyErrorView>(e) ==> inspected_cert(material, address, now, export) == Err::<
            InspectedView,
            KeyErrorView,
        >(e),
        submitted_material(text) is Err ==> inspected_key(text, address, now, export) == Err::<
            InspectedView,
            KeyErrorView,
        >(KeyErrorView::ParseFailed(submitted_material(text)->Err_0)),
        submitted_material(text) == Ok::<Seq<u8>, Seq<char>>(material) ==> inspected_key(
            text,
            address,
            now,
            export,
        ) == inspected_cert(material, address, now, export),
{
}

/// What is to be stored of an upload is the uploader, the address as it was
/// requested, the place of the claim, and all of the key; a claim or a key that was
/// refused is answered with its error, the claim first.
pub proof fn accepted_upload_keeps_every_field(
    uid: Seq<char>,
    address: Seq<char>,
    hash: Seq<char>,
    domain: Seq<char>,
    key: InspectedView,
    e: ApiErrorView,
    refused: KeyErrorView,
    any: Result<InspectedView, KeyErrorView>,
)
    ensures
        ({
            let stored = accepted_upload(uid, address, Ok((hash, domain)), Ok(key));
            &&& stored is Ok
            &&& stored->Ok_0.uid == uid
            &&& stored->Ok_0.address == address
            &&& stored->Ok_0.domain == domain
            &&& stored->Ok_0.wkd_hash == hash
            &&& stored->Ok_0.fingerprint == key.fingerprint
            &&& stored->Ok_0.key_data == key.key_data
            &&& stored->Ok_0.revoked == key.revoked
            &&& stored->Ok_0.expires_at == key.expires_at
        }),
        accepted_upload(uid, address, Err(e), any) == Err::<NewKeyView, ApiErrorView>(e),
        accepted_upload(uid, address, Ok((hash, domain)), Err(refused)) == Err::<
            NewKeyView,
            ApiErrorView,
        >(key_error(refused)),
{
}

/// The checks on an upload are those on the claim and on the key, for the address and
/// the key of the request.
pub proof fn upload_is_checked_for_its_address_and_key(
    uid: Seq<char>,
    request: RequestView,
    owned: Answer,
    allowed_domains: Seq<Seq<char>>,
    now: int,
    export: Export,
)
    ensures
        ({
            let claim = claim_outcome(request.address, owned, allowed_domains);
            let key = inspected_key(request.key, request.address, now, export);
            let checked = checked_upload(uid, request, owned, allowed_domains, now, export);
            &&& checked is Ok <==> claim is Ok && key is Ok
            &&& checked is Ok ==> {
                let stored = checked->Ok_0;
                &&& stored.uid == uid
                &&& stored.address == request.address
                &&& (stored.wkd_hash, stored.domain) == claim->Ok_0
                &&& stored.fingerprint == key->Ok_0.fingerprint
                &&& stored.key_data == key->Ok_0.key_data
                &&& stored.revoked == key->Ok_0.revoked
                &&& stored.expires_at == key->Ok_0.expires_at
            }
            &&& claim is Err ==> checked == Err::<NewKeyView, ApiErrorView>(claim->Err_0)
            &&& claim is Ok && key is Err ==> checked == Err::<NewKeyView, ApiErrorView>(
                key_error(key->Err_0),
            )
        }),
{
}

/// The key of another owner may be replaced exactly if the directory answers and does
/// not give them the address in any case of its letters; it is that owner's key
/// that may be replaced.
pub proof fn only_a_lost_address_is_given_up(
    address: Seq<char>,
    owner: Seq<char>,
    list: Seq<Seq<char>>,
    e: Seq<char>,
)
    ensures
        replacement(address, owner, Ok(list)) == (if exists|i: int|
            0 <= i < list.len() && ascii_lowered(#[trigger] list[i]) == ascii_lowered(address) {
            Err::<Seq<char>, ApiErrorView>(already_exists_shared_error(address))
        } else {
            Ok(owner)
        }),
        replacement(address, owner, Err(e)) == Err::<Seq<char>, ApiErrorView>(
            userdb_unavailable_error(e),
        ),
{
    any_place_of_a_list_counts(list, address);
}

/// Whoever's key is in the way is asked about, unless it is the uploader's own or
/// there is none; then nothing is replaced.
pub proof fn another_owner_is_asked_about(
    key: NewKeyView,
    owner: Seq<char>,
    list: Seq<Seq<char>>,
    answer: Answer,
    e: Seq<char>,
)
    ensures
        authorization(key, None, answer) == Ok::<Option<Seq<char>>, ApiErrorView>(None),
        authorization(key, Some(key.uid), answer) == Ok::<Option<Seq<char>>, ApiErrorView>(None),
        owner != key.uid ==> authorization(key, Some(owner), Ok(list)) == (if exists|i: int|
            0 <= i < list.len() && ascii_lowered(#[trigger] list[i]) == ascii_lowered(
                key.address,
            ) {
            Err::<Option<Seq<char>>, ApiErrorView>(already_exists_shared_error(key.address))
        } else {
            Ok(Some(owner))
        }),
        owner != key.uid ==> authorization(key, Some(owner), Err(e)) == Err::<
            Option<Seq<char>>,
            ApiErrorView,
        >(userdb_unavailable_error(e)),
{
    any_place_of_a_list_counts(list, key.address);
}

/// A stored key is answered with its record, and a refusal with what stood in the way.
pub proof fn stored_key_is_answered_with_its_record(
    address: Seq<char>,
    record: RecordView,
    row: RowView,
    m: String,
)
    ensures
        upload_response(address, Ok(record)) == Ok::<ItemView, ApiErrorView>(item_of(record)),
        upload_response(address, Err(InsertError::Duplicate)) == Err::<ItemView, ApiErrorView>(
            already_exists_error(address),
        ),
        upload_response(address, Err(InsertError::OwnedByOther)) == Err::<ItemView, ApiErrorView>(
            already_exists_shared_error(address),
        ),
        upload_response(address, Err(InsertError::Sqlite(m))) == Err::<ItemView, ApiErrorView>(
            internal_error(m@),
        ),
        inserted_response(address, InsertOutcome::Stored(row)) == Ok::<ItemView, ApiErrorView>(
            item_of(row.record),
        ),
        inserted_response(address, InsertOutcome::Duplicate) == Err::<ItemView, ApiErrorView>(
            already_exists_error(address),
        ),
        inserted_response(address, InsertOutcome::OwnedByOther) == Err::<ItemView, ApiErrorView>(
            already_exists_shared_error(address),
        ),
        inserted_response(address, InsertOutcome::Full) == Err::<ItemView, ApiErrorView>(
            internal_error("database or disk is full"@),
        ),
{
}

/// A valid key for an address of the uploader, in a domain that is served, is
/// published where nothing stands, and over the key of an owner whom the directory
/// does not give the address any more. The row at the place of the address then has
/// the uploader, the address, the fingerprint and the minimized key, and the
/// uploader is answered with that row.
pub proof fn justified_upload_is_published(
    uid: Seq<char>,
    request: RequestView,
    local: Seq<char>,
    domain: Seq<char>,
    owned: Seq<Seq<char>>,
    i: int,
    allowed_domains: Seq<Seq<char>>,
    j: int,
    other: Answer,
    t: TableView,
    now: int,
    material: Seq<u8>,
    primary: PrimaryView,
    ids: Seq<UserIdView>,
    k: int,
    key_data: Seq<u8>,
)
    requires
        request.address == local + seq!['@'] + domain,
        local.len() > 0,
        domain.len() > 0,
        !local.contains('@'),
        !domain.contains('@'),
        0 <= i < owned.len(),
        ascii_lowered(owned[i]) == ascii_lowered(request.address),
        0 <= j < allowed_domains.len(),
        ascii_lowered(allowed_domains[j]) == ascii_lowered(domain),
        submitted_material(request.key) == Ok::<Seq<u8>, Seq<char>>(material),
        cert_fingerprint(material) == Ok::<Seq<char>, Seq<char>>(primary.fingerprint),
        valid_primary(material, judged_at(now)) == Ok::<PrimaryView, Seq<char>>(primary),
        valid_user_ids(material, judged_at(now)) == Ok::<Seq<UserIdView>, Seq<char>>(ids),
        primary.expires_at is Some ==> now < primary.expires_at->0,
        0 <= k < ids.len(),
        ids[k].email is Some,
        ascii_lowered(ids[k].email->0) == ascii_lowered(request.address),
        t.last_id < i64::MAX,
        ({
            let place = (
                ascii_lowered(domain),
                zbase32(sha1_digest(encode_utf8(ascii_lowered(local)))),
            );
            t.rows.contains_key(place) ==> {
                &&& t.rows[place].record.uid != uid
                &&& other is Ok
                &&& forall|l: int|
                    0 <= l < other->Ok_0.len() ==> ascii_lowered(#[trigger] other->Ok_0[l])
                        != ascii_lowered(request.address)
            }
        }),
    ensures
        ({
            let place = (
                ascii_lowered(domain),
                zbase32(sha1_digest(encode_utf8(ascii_lowered(local)))),
            );
            let after = after_upload(
                uid,
                request,
                allowed_domains,
                Ok(owned),
                other,
                t,
                now,
                Ok(key_data),
            );
            let row = after.rows[place];
            &&& after.rows.contains_key(place)
            &&& row.wkd_hash == place.1
            &&& row.key_data == key_data
            &&& row.record.id == t.last_id + 1
            &&& row.record.uid == uid
            &&& row.record.address == request.address
            &&& row.record.domain == place.0
            &&& row.record.fingerprint == primary.fingerprint
            &&& row.record.uploaded_at == rfc3339_of(now)
            &&& row.record.revoked == revoked_outcome(revocation_at(key_data, judged_at(now)))
            &&& row.record.expires_at is Some <==> primary.expires_at is Some
            &&& primary.expires_at is Some ==> row.record.expires_at->0 == rfc3339_of(
                primary.expires_at->0 as int,
            )
            &&& upload_outcome(
                uid,
                request,
                allowed_domains,
                Ok(owned),
                other,
                t,
                now,
                Ok(key_data),
            ) == Ok::<ItemView, ApiErrorView>(item_of(row.record))
        }),
{
    justified_claim_is_accepted(local, domain, owned, i, allowed_domains, j);
    valid_certificate_is_taken(
        material,
        request.address,
        now,
        primary,
        ids,
        k,
        primary.fingerprint,
        key_data,
        KeyErrorView::ParseFailed(seq![]),
    );
    let key = checked_upload(uid, request, Ok(owned), allowed_domains, now, Ok(key_data))->Ok_0;
    if t.rows.contains_key(key.slot()) {
        let owner = t.rows[key.slot()].record.uid;
        another_owner_is_asked_about(key, owner, other->Ok_0, other, seq![]);
        stored_row_holds_the_upload(t, key, Some(owner), now);
    } else {
        stored_row_holds_the_upload(t, key, None, now);
    }
}

/// An upload is answered with the error of the first step that refuses it: the checks on
/// the claim and the key, the question to the directory about another owner, and the
/// table. Nobody else is asked about, and nothing is stored, before the checks pass.
pub proof fn upload_stops_at_the_first_refusal(
    uid: Seq<char>,
    request: RequestView,
    allowed_domains: Seq<Seq<char>>,
    owned: Answer,
    other: Answer,
    t: TableView,
    now: int,
    export: Export,
)
    ensures
        ({
            let checked = checked_upload(uid, request, owned, allowed_domains, now, export);
            let key = checked->Ok_0;
            let place = (key.domain, key.wkd_hash);
            let contested = t.rows.contains_key(place) && t.rows[place].record.uid != uid;
            let answer = upload_outcome(uid, request, allowed_domains, owned, other, t, now, export);
            let after = after_upload(uid, request, allowed_domains, owned, other, t, now, export);
            &&& checked is Err ==> {
                &&& answer == Err::<ItemView, ApiErrorView>(checked->Err_0)
                &&& after == t
                &&& contested_by(uid, request, allowed_domains, owned, t, now, export) is None
            }
            &&& checked is Ok && contested && other is Err ==> {
                &&& answer == Err::<ItemView, ApiErrorView>(userdb_unavailable_error(other->Err_0))
                &&& after == t
            }
            &&& checked is Ok && contested && other is Ok && contains_ignoring_case(
                other->Ok_0,
                request.address,
            ) ==> {
                &&& answer == Err::<ItemView, ApiErrorView>(
                    already_exists_shared_error(request.address),
                )
                &&& after == t
            }
            &&& checked is Ok && t.rows.contains_key(place) && !contested ==> {
                &&& answer == Err::<ItemView, ApiErrorView>(already_exists_error(request.address))
                &&& after == t
            }
            &&& checked is Ok && t.last_id == i64::MAX && (t.rows.contains_key(place)
                ==> contested && other is Ok && !contains_ignoring_case(
                other->Ok_0,
                request.address,
            )) ==> {
                &&& answer == Err::<ItemView, ApiErrorView>(
                    internal_error("database or disk is full"@),
                )
                &&& after == t
            }
        }),
{
}

/// The owner of the row at the place of the address is the one who is asked about, if
/// it is someone else than the uploader and the upload passed its checks.
pub proof fn owner_in_the_way_is_the_other_owner(
    uid: Seq<char>,
    request: RequestView,
    allowed_domains: Seq<Seq<char>>,
    owned: Answer,
    t: TableView,
    now: int,
    export: Export,
    key: NewKeyView,
)
    requires
        checked_upload(uid, request, owned, allowed_domains, now, export) == Ok::<
            NewKeyView,
            ApiErrorView,
        >(key),
    ensures
        ({
            let place = (key.domain, key.wkd_hash);
            let asked = contested_by(uid, request, allowed_domains, owned, t, now, export);
            &&& asked is Some <==> t.rows.contains_key(place) && t.rows[place].record.uid != uid
            &&& asked is Some ==> asked->0 == t.rows[place].record.uid
        }),
{
}

/// What the directory said is what it may say of those who were asked about.
pub proof fn directory_said_what_it_may<D: UserDb>(
    db: D,
    uid: Seq<char>,
    owned: Answer,
    contested: Option<Seq<char>>,
    other: Answer,
)
    requires
        may_have_said(db, uid, owned, contested, other),
    ensures
        db.may_answer(uid, owned),
        contested is Some ==> db.may_answer(contested->0, other),
{
}

/// What is exported of an upload that passes its checks is what may come of minimizing
/// the submitted key for the requested address.
pub proof fn export_is_of_the_submitted_key(
    request: RequestView,
    owned: Answer,
    allowed_domains: Seq<Seq<char>>,
    now: int,
    export: Export,
)
    requires
        may_export_upload(request, owned, allowed_domains, now, export),
        claim_outcome(request.address, owned, allowed_domains) is Ok,
        submitted_material(request.key) is Ok,
        validation_outcome(
            valid_primary(submitted_material(request.key)->Ok_0, judged_at(now)),
            valid_user_ids(submitted_material(request.key)->Ok_0, judged_at(now)),
            request.address,
            now,
        ) is Ok,
    ensures
        may_minimize_to(submitted_material(request.key)->Ok_0, request.address, now, export),
{
}

/// The place of an address is its domain and the hash of its local part.
pub proof fn place_is_domain_and_hash(local: Seq<char>, domain: Seq<char>)
    requires
        local.len() > 0,
        domain.len() > 0,
        !local.contains('@'),
        !domain.contains('@'),
    ensures
        place_of(local + seq!['@'] + domain) == Some(
            (ascii_lowered(domain), zbase32(sha1_digest(encode_utf8(ascii_lowered(local))))),
        ),
{
    both_sides_of_an_address_are_published(local, domain);
}

/// A proper row stands where the directory looks for its address, with a key that has
/// one User ID, with that address up to case, and no secret key material.
pub proof fn proper_row_is_found_by_its_address(row: RowView)
    requires
        is_proper(row),
    ensures
        directory_entry(row.record.address) == Some((row.wkd_hash, row.record.domain)),
        cert_fingerprint(row.key_data) == Ok::<Seq<char>, Seq<char>>(row.record.fingerprint),
        cert_user_ids(row.key_data) is Ok,
        cert_user_ids(row.key_data)->Ok_0.len() == 1,
        cert_user_ids(row.key_data)->Ok_0[0].email is Some,
        ascii_lowered(cert_user_ids(row.key_data)->Ok_0[0].email->0) == ascii_lowered(
            row.record.address,
        ),
        cert_is_tsk(row.key_data) != Ok::<bool, Seq<char>>(true),
{
    minimized_key_has_one_user_id(row.key_data, row.record.fingerprint, row.record.address);
}

/// An expiry has a year of four digits if it lies in the years 0 to 9999.
pub proof fn four_digit_expiry_is_in_range(secs: int)
    ensures
        expires_in_four_digits(None),
        expires_in_four_digits(Some(secs)) <==> -62167219200 <= secs <= 253402300799,
{
}

/// The views hold every field as it is.
pub proof fn views_keep_every_field(request: UploadRequest, key: InspectedKey)
    ensures
        request@.address == request.address@,
        request@.key == request.key@,
        key@.fingerprint == key.fingerprint@,
        key@.key_data == key.key_data@,
        key@.revoked == key.revoked,
        key@.expires_at is Some <==> key.expires_at is Some,
        key.expires_at is Some ==> key@.expires_at->0 == key.expires_at->0.unix(),
{
}

/// What comes out is taken as it is, and so is an error.
pub proof fn outcomes_are_taken_as_they_are(
    key: InspectedKey,
    refused: KeyError,
    upload: CheckedUpload,
    record: KeyRecord,
    failed: InsertError,
    item: KeyResponseItem,
    e: ApiError,
)
    ensures
        inspection_view(Ok(key)) == Ok::<InspectedView, KeyErrorView>(key@),
        inspection_view(Err(refused)) == Err::<InspectedView, KeyErrorView>(refused@),
        checked_view(Ok(upload)) == Ok::<NewKeyView, ApiErrorView>(upload@),
        checked_view(Err(e)) == Err::<NewKeyView, ApiErrorView>(e@),
        stored_view(Ok(record)) == Ok::<RecordView, InsertError>(record@),
        stored_view(Err(failed)) == Err::<RecordView, InsertError>(failed),
        response_view(Ok(item)) == Ok::<ItemView, ApiErrorView>(item@),
        response_view(Err(e)) == Err::<ItemView, ApiErrorView>(e@),
{
}

} // verus!
