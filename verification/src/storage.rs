//! The table of published keys: the single source of truth.
//!
//! A `KeyTable` holds rows of the table as plain values, together with the
//! largest id that was ever given out. Its operations are the rules of the
//! table: who may publish over whom, who may delete, and what is served.

use vstd::prelude::*;
use vstd::slice::slice_to_vec;
use vstd::string::*;
use vstd::utf8::*;

use crate::text::{
    bytes_less, bytes_less_irreflexive, bytes_less_transitive, opt_text, same_text, text_less, text_lt,
};
use crate::timestamp::{
    has_four_digit_year, rfc3339_of, rfc3339_secs, rfc3339_sorts_like_time, Timestamp,
};

verus! {

/// What the owner of a published key is shown of it.
#[derive(Debug)]
pub struct KeyRecord {
    pub id: i64,
    pub uid: String,
    pub address: String,
    pub domain: String,
    pub fingerprint: String,
    pub uploaded_at: String,
    /// Whether the stored key, or its sole User ID, was already revoked when
    /// it was uploaded. Such a row is never served.
    pub revoked: bool,
    /// RFC 3339, if the primary key expires. A row is not served any more
    /// once this time has come.
    pub expires_at: Option<String>,
}

/// A record as mathematical values.
pub struct RecordView {
    pub id: int,
    pub uid: Seq<char>,
    pub address: Seq<char>,
    pub domain: Seq<char>,
    pub fingerprint: Seq<char>,
    pub uploaded_at: Seq<char>,
    pub revoked: bool,
    pub expires_at: Option<Seq<char>>,
}

impl View for KeyRecord {
    type V = RecordView;

    open spec fn view(&self) -> RecordView {
        RecordView {
            id: self.id as int,
            uid: self.uid@,
            address: self.address@,
            domain: self.domain@,
            fingerprint: self.fingerprint@,
            uploaded_at: self.uploaded_at@,
            revoked: self.revoked,
            expires_at: opt_text(self.expires_at),
        }
    }
}

fn copy_opt(o: &Option<String>) -> (r: Option<String>)
    ensures
        opt_text(r) == opt_text(*o),
{
    match o {
        Some(s) => Some(s.clone()),
        None => None,
    }
}

impl Clone for KeyRecord {
    fn clone(&self) -> (r: Self)
        ensures
            r@ == self@,
    {
        KeyRecord {
            id: self.id,
            uid: self.uid.clone(),
            address: self.address.clone(),
            domain: self.domain.clone(),
            fingerprint: self.fingerprint.clone(),
            uploaded_at: self.uploaded_at.clone(),
            revoked: self.revoked,
            expires_at: copy_opt(&self.expires_at),
        }
    }
}

/// A row of the table: the record, the hash it is looked up by, and the
/// minimized key.
#[derive(Debug)]
pub struct KeyRow {
    pub record: KeyRecord,
    pub wkd_hash: String,
    pub key_data: Vec<u8>,
}

/// The place of a row: its domain and its hash. No two rows share one.
pub type Slot = (Seq<char>, Seq<char>);

/// A row as mathematical values.
pub struct RowView {
    pub record: RecordView,
    pub wkd_hash: Seq<char>,
    pub key_data: Seq<u8>,
}

impl RowView {
    /// The place of the row.
    pub open spec fn slot(self) -> Slot {
        (self.record.domain, self.wkd_hash)
    }
}

impl View for KeyRow {
    type V = RowView;

    open spec fn view(&self) -> RowView {
        RowView { record: self.record@, wkd_hash: self.wkd_hash@, key_data: self.key_data@ }
    }
}

/// The table: its rows by place, and the largest id ever given out.
pub struct TableView {
    pub rows: Map<Slot, RowView>,
    pub last_id: int,
}

/// The table of published keys.
#[derive(Debug)]
pub struct KeyTable {
    rows: Vec<KeyRow>,
    last_id: i64,
}

/// No two rows share a place or an id.
pub open spec fn all_different(rows: Seq<KeyRow>) -> bool {
    forall|i: int, j: int|
        0 <= i < j < rows.len() ==> (#[trigger] rows[i])@.slot() != (#[trigger] rows[j])@.slot()
            && rows[i].record.id != rows[j].record.id
}

/// No two rows share a place or an id, and no id is larger than `last_id`.
pub open spec fn consistent(rows: Seq<KeyRow>, last_id: int) -> bool {
    &&& forall|i: int| 0 <= i < rows.len() ==> (#[trigger] rows[i]).record.id <= last_id
    &&& all_different(rows)
}

/// The largest of the counter and of the ids of the rows.
pub open spec fn largest_id(rows: Seq<KeyRow>, counter: int) -> int
    decreases rows.len(),
{
    if rows.len() == 0 {
        counter
    } else if rows.last().record.id > largest_id(rows.drop_last(), counter) {
        rows.last().record.id as int
    } else {
        largest_id(rows.drop_last(), counter)
    }
}

/// The rows by place.
pub open spec fn by_slot(rows: Seq<KeyRow>) -> Map<Slot, RowView> {
    Map::new(
        |k: Slot| exists|i: int| 0 <= i < rows.len() && (#[trigger] rows[i])@.slot() == k,
        |k: Slot| rows[choose|i: int| 0 <= i < rows.len() && (#[trigger] rows[i])@.slot() == k]@,
    )
}

impl View for KeyTable {
    type V = TableView;

    closed spec fn view(&self) -> TableView {
        TableView { rows: by_slot(self.rows@), last_id: self.last_id as int }
    }
}

impl TableView {
    /// The invariant of the table: a row stands at its own place, ids are not
    /// shared, and none is larger than the largest id given out.
    pub open spec fn valid(self) -> bool {
        &&& self.last_id <= i64::MAX
        &&& forall|k: Slot| #[trigger]
            self.rows.contains_key(k) ==> self.rows[k].slot() == k && self.rows[k].record.id
                <= self.last_id
        &&& forall|k: Slot, l: Slot|
            self.rows.contains_key(k) && self.rows.contains_key(l) && (#[trigger] self.rows[k]).record.id
                == (#[trigger] self.rows[l]).record.id ==> k == l
    }
}

proof fn by_slot_has(rows: Seq<KeyRow>, last_id: int, i: int)
    requires
        consistent(rows, last_id),
        0 <= i < rows.len(),
    ensures
        by_slot(rows).contains_key(rows[i]@.slot()),
        by_slot(rows)[rows[i]@.slot()] == rows[i]@,
{
    let k = rows[i]@.slot();
    let c = choose|j: int| 0 <= j < rows.len() && (#[trigger] rows[j])@.slot() == k;
    assert(0 <= c < rows.len() && rows[c]@.slot() == k);
    if c < i {
        assert(rows[c]@.slot() != rows[i]@.slot());
    } else if i < c {
        assert(rows[i]@.slot() != rows[c]@.slot());
    }
}

proof fn by_slot_comes_from(rows: Seq<KeyRow>, k: Slot) -> (i: int)
    requires
        by_slot(rows).contains_key(k),
    ensures
        0 <= i < rows.len(),
        rows[i]@.slot() == k,
        by_slot(rows)[k] == rows[i]@,
{
    choose|i: int| 0 <= i < rows.len() && (#[trigger] rows[i])@.slot() == k
}

proof fn by_slot_push(rows: Seq<KeyRow>, last_id: int, row: KeyRow)
    requires
        consistent(rows, last_id),
        consistent(rows.push(row), last_id + 1),
    ensures
        by_slot(rows.push(row)) == by_slot(rows).insert(row@.slot(), row@),
{
    let more = rows.push(row);
    let left = by_slot(more);
    let right = by_slot(rows).insert(row@.slot(), row@);
    by_slot_has(more, last_id + 1, rows.len() as int);
    assert forall|k: Slot| #[trigger] left.contains_key(k) <==> right.contains_key(k) by {
        if left.contains_key(k) {
            let i = by_slot_comes_from(more, k);
            if i < rows.len() {
                assert(rows[i]@.slot() == k);
            }
        }
        if by_slot(rows).contains_key(k) {
            let i = by_slot_comes_from(rows, k);
            assert(more[i]@.slot() == k);
        }
    }
    assert forall|k: Slot| #[trigger] left.contains_key(k) implies left[k] == right[k] by {
        let i = by_slot_comes_from(more, k);
        if i < rows.len() {
            by_slot_has(rows, last_id, i);
            assert(more[i]@.slot() != more[rows.len() as int]@.slot());
        }
    }
    assert(left =~= right);
}

proof fn by_slot_remove(rows: Seq<KeyRow>, last_id: int, at: int)
    requires
        consistent(rows, last_id),
        0 <= at < rows.len(),
    ensures
        consistent(rows.remove(at), last_id),
        by_slot(rows.remove(at)) == by_slot(rows).remove(rows[at]@.slot()),
{
    let fewer = rows.remove(at);
    assert forall|i: int| 0 <= i < fewer.len() implies #[trigger] fewer[i] == rows[if i < at {
        i
    } else {
        i + 1
    }] by {}
    assert(consistent(fewer, last_id));
    let left = by_slot(fewer);
    let right = by_slot(rows).remove(rows[at]@.slot());
    assert forall|k: Slot| #[trigger] left.contains_key(k) <==> right.contains_key(k) by {
        if left.contains_key(k) {
            let i = by_slot_comes_from(fewer, k);
            let j = if i < at { i } else { i + 1 };
            assert(rows[j]@.slot() == k);
            assert(rows[j]@.slot() != rows[at]@.slot());
        }
        if right.contains_key(k) {
            let j = by_slot_comes_from(rows, k);
            let i = if j < at { j } else { j - 1 };
            assert(fewer[i]@.slot() == k);
        }
    }
    assert forall|k: Slot| #[trigger] left.contains_key(k) implies left[k] == right[k] by {
        let i = by_slot_comes_from(fewer, k);
        let j = if i < at { i } else { i + 1 };
        by_slot_has(rows, last_id, j);
    }
    assert(left =~= right);
}

impl KeyTable {
    /// The rows and the counter agree.
    pub closed spec fn wf(self) -> bool {
        consistent(self.rows@, self.last_id as int)
    }

    /// The rows, in the order in which they are held.
    pub closed spec fn held(self) -> Seq<KeyRow> {
        self.rows@
    }

    /// A table without rows, in which no id was given out yet.
    pub fn new() -> (r: KeyTable)
        ensures
            r.wf(),
            r@.rows == Map::<Slot, RowView>::empty(),
            r@.last_id == 0,
    {
        let r: KeyTable = KeyTable { rows: Vec::new(), last_id: 0 };
        assert(by_slot(r.rows@) =~= Map::<Slot, RowView>::empty());
        r
    }

    /// The table with the given rows, or `None` where two rows share a place
    /// or an id. The last id given out is the counter, unless a row has a larger
    /// id.
    pub fn from_rows(rows: Vec<KeyRow>, counter: i64) -> (r: Option<KeyTable>)
        ensures
            match r {
                Some(t) => t.wf() && all_different(rows@) && t.held() == rows@ && t@.rows
                    == by_slot(rows@) && t@.last_id == largest_id(rows@, counter as int),
                None => !all_different(rows@),
            },
    {
        let mut last_id: i64 = counter;
        let mut i: usize = 0;
        assert(rows@.take(0).len() == 0);
        while i < rows.len()
            invariant
                i <= rows.len(),
                last_id == largest_id(rows@.take(i as int), counter as int),
                forall|a: int| 0 <= a < i ==> (#[trigger] rows@[a]).record.id <= last_id,
                forall|a: int, b: int|
                    0 <= a < b < i ==> (#[trigger] rows@[a])@.slot() != (#[trigger] rows@[b])@.slot()
                        && rows@[a].record.id != rows@[b].record.id,
            decreases rows.len() - i,
        {
            let mut j: usize = 0;
            while j < i
                invariant
                    j <= i < rows.len(),
                    forall|a: int|
                        0 <= a < j ==> (#[trigger] rows@[a])@.slot() != rows@[i as int]@.slot()
                            && rows@[a].record.id != rows@[i as int].record.id,
                decreases i - j,
            {
                let same_slot: bool = rows[j].record.domain == rows[i].record.domain
                    && rows[j].wkd_hash == rows[i].wkd_hash;
                if same_slot || rows[j].record.id == rows[i].record.id {
                    assert(rows@[j as int]@.slot() == rows@[i as int]@.slot() || rows@[j as int].record.id
                        == rows@[i as int].record.id);
                    return None;
                }
                j = j + 1;
            }
            if rows[i].record.id > last_id {
                last_id = rows[i].record.id;
            }
            i = i + 1;
            assert(rows@.take(i as int).drop_last() == rows@.take(i - 1));
        }
        assert(rows@.take(i as int) == rows@);
        Some(KeyTable { rows, last_id })
    }

    /// The rows that the table holds.
    pub fn rows(&self) -> (r: &Vec<KeyRow>)
        ensures
            r@ == self.held(),
            self.wf() ==> self@.rows == by_slot(r@),
    {
        &self.rows
    }

    /// The largest id that was ever given out.
    pub fn last_id(&self) -> (r: i64)
        ensures
            r == self@.last_id,
    {
        self.last_id
    }

    fn find_slot(&self, domain: &str, wkd_hash: &str) -> (r: Option<usize>)
        requires
            self.wf(),
        ensures
            match r {
                Some(i) => i < self.rows@.len() && self.rows@[i as int]@.slot() == (
                    domain@,
                    wkd_hash@,
                ) && self@.rows.contains_key((domain@, wkd_hash@)) && self@.rows[(
                    domain@,
                    wkd_hash@,
                )] == self.rows@[i as int]@,
                None => !self@.rows.contains_key((domain@, wkd_hash@)),
            },
    {
        let mut i: usize = 0;
        while i < self.rows.len()
            invariant
                self.wf(),
                i <= self.rows@.len(),
                forall|j: int|
                    0 <= j < i ==> (#[trigger] self.rows@[j])@.slot() != (domain@, wkd_hash@),
            decreases self.rows@.len() - i,
        {
            if same_text(self.rows[i].record.domain.as_str(), domain) && same_text(
                self.rows[i].wkd_hash.as_str(),
                wkd_hash,
            ) {
                proof {
                    by_slot_has(self.rows@, self.last_id as int, i as int);
                }
                return Some(i);
            }
            i = i + 1;
        }
        None
    }
}

/// The table of a consistent set of rows is valid.
pub proof fn table_is_valid(table: KeyTable)
    requires
        table.wf(),
    ensures
        table@.valid(),
{
    let rows = table.rows@;
    let m = by_slot(rows);
    assert forall|k: Slot| #[trigger] m.contains_key(k) implies m[k].slot() == k
        && m[k].record.id <= table.last_id by {
        let i = by_slot_comes_from(rows, k);
        assert(rows[i].record.id <= table.last_id);
    }
    assert forall|k: Slot, l: Slot|
        m.contains_key(k) && m.contains_key(l) && (#[trigger] m[k]).record.id == (#[trigger] m[l]).record.id implies k
        == l by {
        let i = by_slot_comes_from(rows, k);
        let j = by_slot_comes_from(rows, l);
        if i < j {
            assert(rows[i].record.id != rows[j].record.id);
        } else if j < i {
            assert(rows[j].record.id != rows[i].record.id);
        }
    }
}

// ---------------------------------------------------------------------
// Publishing
// ---------------------------------------------------------------------

/// Why a key was not stored.
#[derive(Debug)]
pub enum InsertError {
    /// The caller's own key stands there; it has to be deleted first.
    Duplicate,
    /// The row there is owned by someone else than the one whose row the
    /// caller may replace.
    OwnedByOther,
    /// The database failed, with its message.
    Sqlite(String),
}

impl InsertError {
    /// The message for this error.
    pub open spec fn message(self) -> Seq<char> {
        match self {
            InsertError::Duplicate => "a key already exists for this domain/address"@,
            InsertError::OwnedByOther =>
                "a key already exists for this domain/address, owned by someone else who still owns it"@,
            InsertError::Sqlite(m) => m@,
        }
    }

    /// Writes the error out for a reader.
    pub fn to_string(&self) -> (r: String)
        ensures
            r@ == self.message(),
    {
        match self {
            InsertError::Duplicate => "a key already exists for this domain/address".to_owned(),
            InsertError::OwnedByOther =>
                "a key already exists for this domain/address, owned by someone else who still owns it".to_owned(),
            InsertError::Sqlite(m) => m.clone(),
        }
    }
}

/// A newly uploaded, minimized key.
pub struct NewKey<'a> {
    pub uid: &'a str,
    pub domain: &'a str,
    pub address: &'a str,
    pub wkd_hash: &'a str,
    pub fingerprint: &'a str,
    pub key_data: &'a [u8],
    /// Revocation can change by a fresh upload only, so it is determined once,
    /// from `key_data`.
    pub revoked: bool,
    /// `None` for a key that does not expire.
    pub expires_at: Option<Timestamp>,
}

/// A newly uploaded key as mathematical values.
pub struct NewKeyView {
    pub uid: Seq<char>,
    pub domain: Seq<char>,
    pub address: Seq<char>,
    pub wkd_hash: Seq<char>,
    pub fingerprint: Seq<char>,
    pub key_data: Seq<u8>,
    pub revoked: bool,
    pub expires_at: Option<int>,
}

/// The seconds since 1970 of an optional point in time.
pub open spec fn opt_unix(t: Option<Timestamp>) -> Option<int> {
    match t {
        Some(t) => Some(t.unix()),
        None => None,
    }
}

/// The stored form of an optional point in time.
pub open spec fn opt_rfc3339(t: Option<int>) -> Option<Seq<char>> {
    match t {
        Some(t) => Some(rfc3339_of(t)),
        None => None,
    }
}

impl<'a> View for NewKey<'a> {
    type V = NewKeyView;

    open spec fn view(&self) -> NewKeyView {
        NewKeyView {
            uid: self.uid@,
            domain: self.domain@,
            address: self.address@,
            wkd_hash: self.wkd_hash@,
            fingerprint: self.fingerprint@,
            key_data: self.key_data@,
            revoked: self.revoked,
            expires_at: opt_unix(self.expires_at),
        }
    }
}

impl NewKeyView {
    /// The place where the key is to be stored.
    pub open spec fn slot(self) -> Slot {
        (self.domain, self.wkd_hash)
    }

    /// The row for this key.
    pub open spec fn row(self, id: int, uploaded_at: Seq<char>) -> RowView {
        RowView {
            record: RecordView {
                id,
                uid: self.uid,
                address: self.address,
                domain: self.domain,
                fingerprint: self.fingerprint,
                uploaded_at,
                revoked: self.revoked,
                expires_at: opt_rfc3339(self.expires_at),
            },
            wkd_hash: self.wkd_hash,
            key_data: self.key_data,
        }
    }
}

/// The characters of an optional text slice.
pub open spec fn opt_str(o: Option<&str>) -> Option<Seq<char>> {
    match o {
        Some(s) => Some(s@),
        None => None,
    }
}

/// Who owns the row at a place.
pub open spec fn owner_at(t: TableView, slot: Slot) -> Option<Seq<char>> {
    if t.rows.contains_key(slot) {
        Some(t.rows[slot].record.uid)
    } else {
        None
    }
}

/// What becomes of an attempt to store a key.
pub enum InsertOutcome {
    Stored(RowView),
    Duplicate,
    OwnedByOther,
    Full,
}

/// Whether a key may be stored: not over a row of the same owner, over a row of
/// another owner only if that owner is the one named, and only while there are
/// ids left. The row gets the next id.
pub open spec fn insert_outcome(
    t: TableView,
    key: NewKeyView,
    replace_if_owned_by: Option<Seq<char>>,
    now: int,
) -> InsertOutcome {
    let owner = owner_at(t, key.slot());
    if owner == Some(key.uid) {
        InsertOutcome::Duplicate
    } else if owner is Some && owner != replace_if_owned_by {
        InsertOutcome::OwnedByOther
    } else if t.last_id == i64::MAX {
        InsertOutcome::Full
    } else {
        InsertOutcome::Stored(key.row(t.last_id + 1, rfc3339_of(now)))
    }
}

/// The table after an attempt to store a key: the new row stands at its place,
/// every other row is as before; and nothing changes where the key is refused.
pub open spec fn after_insert(
    t: TableView,
    key: NewKeyView,
    replace_if_owned_by: Option<Seq<char>>,
    now: int,
) -> TableView {
    match insert_outcome(t, key, replace_if_owned_by, now) {
        InsertOutcome::Stored(row) => TableView {
            rows: t.rows.insert(key.slot(), row),
            last_id: t.last_id + 1,
        },
        _ => t,
    }
}

/// Who, if anyone, owns the row at `(domain, wkd_hash)`. With this a caller
/// decides, before it stores a key, whether an owner other than the uploader
/// still holds the address.
pub fn existing_owner(table: &KeyTable, domain: &str, wkd_hash: &str) -> (r: Option<String>)
    requires
        table.wf(),
    ensures
        opt_text(r) == owner_at(table@, (domain@, wkd_hash@)),
{
    match table.find_slot(domain, wkd_hash) {
        Some(i) => Some(table.rows[i].record.uid.clone()),
        None => None,
    }
}

/// Stores a newly uploaded, minimized key at time `now`.
///
/// Where a row of the same uid stands at the place, the key is refused: an
/// owner has to delete the old key first. A row of another uid is replaced
/// only if that uid is named in `replace_if_owned_by`; the owner is compared
/// with the row as it is now, so that a permission for an owner who is not
/// there any more replaces nothing.
pub fn insert_key(
    table: &mut KeyTable,
    new_key: &NewKey,
    replace_if_owned_by: Option<&str>,
    now: Timestamp,
) -> (r: Result<KeyRecord, InsertError>)
    requires
        old(table).wf(),
    ensures
        final(table).wf(),
        final(table)@ == after_insert(
            old(table)@,
            new_key@,
            opt_str(replace_if_owned_by),
            now.unix(),
        ),
        match insert_outcome(old(table)@, new_key@, opt_str(replace_if_owned_by), now.unix()) {
            InsertOutcome::Stored(row) => r is Ok && r->Ok_0@ == row.record,
            InsertOutcome::Duplicate => r is Err && r->Err_0 is Duplicate,
            InsertOutcome::OwnedByOther => r is Err && r->Err_0 is OwnedByOther,
            InsertOutcome::Full => r is Err && (r->Err_0 matches InsertError::Sqlite(m) && m@
                == "database or disk is full"@),
        },
{
    let found: Option<usize> = table.find_slot(new_key.domain, new_key.wkd_hash);
    if let Some(i) = found {
        if same_text(table.rows[i].record.uid.as_str(), new_key.uid) {
            return Err(InsertError::Duplicate);
        }
        let allowed: bool = match replace_if_owned_by {
            Some(uid) => same_text(table.rows[i].record.uid.as_str(), uid),
            None => false,
        };
        if !allowed {
            return Err(InsertError::OwnedByOther);
        }
    }
    if table.last_id == i64::MAX {
        return Err(InsertError::Sqlite("database or disk is full".to_owned()));
    }
    let ghost before = table@;
    if let Some(i) = found {
        proof {
            by_slot_remove(table.rows@, table.last_id as int, i as int);
        }
        table.rows.remove(i);
    }
    let uploaded_at: String = rfc3339_secs(now);
    let expires_at: Option<String> = match new_key.expires_at {
        Some(t) => Some(rfc3339_secs(t)),
        None => None,
    };
    let record: KeyRecord = KeyRecord {
        id: table.last_id + 1,
        uid: new_key.uid.to_owned(),
        address: new_key.address.to_owned(),
        domain: new_key.domain.to_owned(),
        fingerprint: new_key.fingerprint.to_owned(),
        uploaded_at,
        revoked: new_key.revoked,
        expires_at,
    };
    let row: KeyRow = KeyRow {
        record: record.clone(),
        wkd_hash: new_key.wkd_hash.to_owned(),
        key_data: slice_to_vec(new_key.key_data),
    };
    proof {
        let rows = table.rows@;
        let id = table.last_id as int;
        assert(!by_slot(rows).contains_key(new_key@.slot()));
        assert(row@.record.id == id + 1);
        assert(row@ == new_key@.row(id + 1, rfc3339_of(now.unix())));
        assert(row@.slot() == new_key@.slot());
        let more = rows.push(row);
        assert forall|i: int, j: int| 0 <= i < j < more.len() implies (#[trigger] more[i])@.slot() != (
        #[trigger] more[j])@.slot() && more[i].record.id != more[j].record.id by {
            if j == rows.len() {
                by_slot_has(rows, id, i);
                assert(rows[i].record.id <= id);
            } else {
                assert(rows[i]@.slot() != rows[j]@.slot());
            }
        }
        assert(consistent(more, id + 1));
        by_slot_push(rows, id, row);
        assert(by_slot(more) =~= before.rows.insert(new_key@.slot(), row@));
    }
    table.rows.push(row);
    table.last_id = table.last_id + 1;
    Ok(record)
}

// ---------------------------------------------------------------------
// Listing
// ---------------------------------------------------------------------

/// The record is that of a row that `uid` owns.
pub open spec fn is_row_of(rows: Map<Slot, RowView>, uid: Seq<char>, record: RecordView) -> bool {
    exists|k: Slot| #[trigger]
        rows.contains_key(k) && rows[k].record.uid == uid && rows[k].record == record
}

/// The records are those of the rows that `uid` owns, each of them once, with
/// the one that was uploaded last in front.
pub open spec fn is_listing(t: TableView, uid: Seq<char>, list: Seq<RecordView>) -> bool {
    &&& forall|k: Slot| #[trigger]
        t.rows.contains_key(k) && t.rows[k].record.uid == uid ==> list.contains(t.rows[k].record)
    &&& forall|i: int| 0 <= i < list.len() ==> is_row_of(t.rows, uid, #[trigger] list[i])
    &&& forall|i: int, j: int|
        0 <= i < j < list.len() ==> (#[trigger] list[i]).id != (#[trigger] list[j]).id
            && !text_less(list[i].uploaded_at, list[j].uploaded_at)
}

/// The records as mathematical values.
pub open spec fn record_views(list: Seq<KeyRecord>) -> Seq<RecordView> {
    Seq::new(list.len(), |i: int| list[i]@)
}

/// Lists the keys that `uid` owns, the one uploaded last in front. Records with
/// one upload time come in an order that is not fixed.
pub fn list_keys_for_uid(table: &KeyTable, uid: &str) -> (r: Vec<KeyRecord>)
    requires
        table.wf(),
    ensures
        is_listing(table@, uid@, record_views(r@)),
{
    let mut out: Vec<KeyRecord> = Vec::new();
    let mut n: usize = 0;
    proof {
        reveal(lists_first);
    }
    while n < table.rows.len()
        invariant
            table.wf(),
            n <= table.rows@.len(),
            lists_first(table.rows@, n as int, uid@, out@),
        decreases table.rows@.len() - n,
    {
        if same_text(table.rows[n].record.uid.as_str(), uid) {
            let record: KeyRecord = table.rows[n].record.clone();
            let mut p: usize = 0;
            while p < out.len() && !text_lt(
                out[p].uploaded_at.as_str(),
                record.uploaded_at.as_str(),
            )
                invariant
                    p <= out@.len(),
                    forall|i: int|
                        0 <= i < p ==> !text_less(
                            (#[trigger] out@[i]).uploaded_at@,
                            record.uploaded_at@,
                        ),
                decreases out@.len() - p,
            {
                p = p + 1;
            }
            proof {
                lists_one_more(
                    table.rows@,
                    table.last_id as int,
                    n as int,
                    uid@,
                    out@,
                    p as int,
                    record,
                );
            }
            out.insert(p, record);
        } else {
            proof {
                lists_no_more(table.rows@, n as int, uid@, out@);
            }
        }
        n = n + 1;
    }
    proof {
        lists_all(table.rows@, table.last_id as int, uid@, out@);
    }
    out
}

/// Row `k` is one of the first `n` and owned by `uid`.
spec fn picked(rows: Seq<KeyRow>, n: int, uid: Seq<char>, k: int) -> bool {
    0 <= k < n && rows[k].record.uid@ == uid
}

/// The record stands in the list.
spec fn listed(out: Seq<KeyRecord>, record: RecordView) -> bool {
    exists|i: int| 0 <= i < out.len() && #[trigger] out[i]@ == record
}

/// The record is that of one of the first `n` rows, owned by `uid`.
spec fn comes_from(rows: Seq<KeyRow>, n: int, uid: Seq<char>, record: RecordView) -> bool {
    exists|k: int| #[trigger] picked(rows, n, uid, k) && rows[k]@.record == record
}

spec fn sorted_by_upload(out: Seq<KeyRecord>) -> bool {
    forall|i: int, j: int|
        0 <= i < j < out.len() ==> (#[trigger] out[i]).id != (#[trigger] out[j]).id && !text_less(
            out[i].uploaded_at@,
            out[j].uploaded_at@,
        )
}

/// The list is that of the first `n` rows.
#[verifier::opaque]
spec fn lists_first(rows: Seq<KeyRow>, n: int, uid: Seq<char>, out: Seq<KeyRecord>) -> bool {
    &&& forall|k: int| #[trigger] picked(rows, n, uid, k) ==> listed(out, rows[k]@.record)
    &&& forall|i: int| 0 <= i < out.len() ==> comes_from(rows, n, uid, (#[trigger] out[i])@)
    &&& sorted_by_upload(out)
}

proof fn lists_no_more(rows: Seq<KeyRow>, n: int, uid: Seq<char>, out: Seq<KeyRecord>)
    requires
        0 <= n < rows.len(),
        rows[n].record.uid@ != uid,
        lists_first(rows, n, uid, out),
    ensures
        lists_first(rows, n + 1, uid, out),
{
    reveal(lists_first);
    assert forall|k: int| #[trigger] picked(rows, n + 1, uid, k) implies listed(
        out,
        rows[k]@.record,
    ) by {
        assert(picked(rows, n, uid, k));
    }
    assert forall|i: int| 0 <= i < out.len() implies comes_from(
        rows,
        n + 1,
        uid,
        (#[trigger] out[i])@,
    ) by {
        let k = choose|k: int| #[trigger] picked(rows, n, uid, k) && rows[k]@.record == out[i]@;
        assert(picked(rows, n + 1, uid, k));
    }
}

proof fn lists_one_more(
    rows: Seq<KeyRow>,
    last_id: int,
    n: int,
    uid: Seq<char>,
    out: Seq<KeyRecord>,
    p: int,
    record: KeyRecord,
)
    requires
        consistent(rows, last_id),
        0 <= n < rows.len(),
        rows[n].record.uid@ == uid,
        record@ == rows[n]@.record,
        lists_first(rows, n, uid, out),
        0 <= p <= out.len(),
        forall|i: int| 0 <= i < p ==> !text_less((#[trigger] out[i]).uploaded_at@, record.uploaded_at@),
        p < out.len() ==> text_less(out[p].uploaded_at@, record.uploaded_at@),
    ensures
        lists_first(rows, n + 1, uid, out.insert(p, record)),
{
    reveal(lists_first);
    let after = out.insert(p, record);
    assert forall|i: int| 0 <= i < out.len() implies (#[trigger] out[i]).id != record.id by {
        let k = choose|k: int| #[trigger] picked(rows, n, uid, k) && rows[k]@.record == out[i]@;
        assert(rows[k].record.id != rows[n].record.id);
        assert(rows[k]@.record.id == out[i]@.id);
    }
    insertion_keeps_order(out, p, record);
    assert forall|k: int| #[trigger] picked(rows, n + 1, uid, k) implies listed(
        after,
        rows[k]@.record,
    ) by {
        if k == n {
            assert(after[p]@ == rows[k]@.record);
        } else {
            assert(picked(rows, n, uid, k));
            let i = choose|i: int| 0 <= i < out.len() && #[trigger] out[i]@ == rows[k]@.record;
            let j = if i < p { i } else { i + 1 };
            assert(after[j] == out[i]);
        }
    }
    assert forall|i: int| 0 <= i < after.len() implies comes_from(
        rows,
        n + 1,
        uid,
        (#[trigger] after[i])@,
    ) by {
        if i == p {
            assert(picked(rows, n + 1, uid, n));
        } else {
            let j = if i < p { i } else { i - 1 };
            assert(after[i] == out[j]);
            let k = choose|k: int| #[trigger] picked(rows, n, uid, k) && rows[k]@.record == out[j]@;
            assert(picked(rows, n + 1, uid, k));
        }
    }
}

proof fn lists_all(rows: Seq<KeyRow>, last_id: int, uid: Seq<char>, out: Seq<KeyRecord>)
    requires
        consistent(rows, last_id),
        lists_first(rows, rows.len() as int, uid, out),
    ensures
        is_listing(TableView { rows: by_slot(rows), last_id }, uid, record_views(out)),
{
    reveal(lists_first);
    let m = by_slot(rows);
    let list = record_views(out);
    assert forall|k: Slot| #[trigger] m.contains_key(k) && m[k].record.uid == uid implies list.contains(
        m[k].record,
    ) by {
        let j = by_slot_comes_from(rows, k);
        assert(picked(rows, rows.len() as int, uid, j));
        let i = choose|i: int| 0 <= i < out.len() && #[trigger] out[i]@ == rows[j]@.record;
        assert(list[i] == m[k].record);
    }
    assert forall|i: int| 0 <= i < list.len() implies is_row_of(m, uid, #[trigger] list[i]) by {
        assert(comes_from(rows, rows.len() as int, uid, out[i]@));
        let j = choose|j: int| #[trigger]
            picked(rows, rows.len() as int, uid, j) && rows[j]@.record == out[i]@;
        by_slot_has(rows, last_id, j);
        assert(m.contains_key(rows[j]@.slot()));
    }
    assert forall|i: int, j: int| 0 <= i < j < list.len() implies (#[trigger] list[i]).id != (
    #[trigger] list[j]).id && !text_less(list[i].uploaded_at, list[j].uploaded_at) by {
        assert(out[i].id != out[j].id);
    }
}

proof fn insertion_keeps_order(before: Seq<KeyRecord>, p: int, record: KeyRecord)
    requires
        0 <= p <= before.len(),
        forall|i: int| 0 <= i < p ==> !text_less((#[trigger] before[i]).uploaded_at@, record.uploaded_at@),
        p < before.len() ==> text_less(before[p].uploaded_at@, record.uploaded_at@),
        forall|i: int| 0 <= i < before.len() ==> (#[trigger] before[i]).id != record.id,
        sorted_by_upload(before),
    ensures
        sorted_by_upload(before.insert(p, record)),
{
    let after = before.insert(p, record);
    assert forall|i: int| p <= i < before.len() implies !text_less(
        record.uploaded_at@,
        (#[trigger] before[i]).uploaded_at@,
    ) by {
        let r = encode_utf8(record.uploaded_at@);
        let b = encode_utf8(before[i].uploaded_at@);
        let first = encode_utf8(before[p].uploaded_at@);
        if text_less(record.uploaded_at@, before[i].uploaded_at@) {
            bytes_less_transitive(first, r, b);
            if i == p {
                bytes_less_irreflexive(b);
            } else {
                assert(!text_less(before[p].uploaded_at@, before[i].uploaded_at@));
            }
        }
    }
    assert forall|i: int, j: int| 0 <= i < j < after.len() implies (#[trigger] after[i]).id != (
    #[trigger] after[j]).id && !text_less(after[i].uploaded_at@, after[j].uploaded_at@) by {
        if j < p {
            assert(after[i] == before[i] && after[j] == before[j]);
        } else if j == p {
            assert(after[i] == before[i]);
        } else if i == p {
            assert(after[j] == before[j - 1]);
        } else {
            let a = if i < p { i } else { i - 1 };
            assert(after[i] == before[a] && after[j] == before[j - 1]);
        }
    }
}

// ---------------------------------------------------------------------
// Deleting
// ---------------------------------------------------------------------

/// A row that has this id and is owned by this uid.
pub open spec fn is_owned_row(row: RowView, id: int, uid: Seq<char>) -> bool {
    row.record.id == id && row.record.uid == uid
}

/// The table has a row with this id that is owned by this uid.
pub open spec fn has_owned_row(t: TableView, id: int, uid: Seq<char>) -> bool {
    exists|k: Slot| #[trigger] t.rows.contains_key(k) && is_owned_row(t.rows[k], id, uid)
}

/// The table without the rows that have this id and are owned by this uid.
pub open spec fn after_delete(t: TableView, id: int, uid: Seq<char>) -> TableView {
    TableView {
        rows: Map::new(
            |k: Slot| t.rows.contains_key(k) && !is_owned_row(t.rows[k], id, uid),
            |k: Slot| t.rows[k],
        ),
        last_id: t.last_id,
    }
}

/// Deletes the key with the given `id`, but only if `uid` owns it, and says
/// whether a row was deleted.
pub fn delete_key_for_uid(table: &mut KeyTable, id: i64, uid: &str) -> (r: bool)
    requires
        old(table).wf(),
    ensures
        final(table).wf(),
        final(table)@ == after_delete(old(table)@, id as int, uid@),
        r == has_owned_row(old(table)@, id as int, uid@),
{
    let mut i: usize = 0;
    while i < table.rows.len()
        invariant
            *table == *old(table),
            table.wf(),
            i <= table.rows@.len(),
            forall|j: int|
                0 <= j < i ==> !is_owned_row((#[trigger] table.rows@[j])@, id as int, uid@),
        decreases table.rows@.len() - i,
    {
        if table.rows[i].record.id == id && same_text(table.rows[i].record.uid.as_str(), uid) {
            proof {
                let rows = table.rows@;
                let last = table.last_id as int;
                let at = rows[i as int]@.slot();
                by_slot_has(rows, last, i as int);
                by_slot_remove(rows, last, i as int);
                table_is_valid(*table);
                let left = table@.rows.remove(at);
                let right = after_delete(table@, id as int, uid@).rows;
                assert forall|k: Slot| #[trigger] left.contains_key(k) <==> right.contains_key(k) by {
                    if table@.rows.contains_key(k) && is_owned_row(table@.rows[k], id as int, uid@) {
                        assert(table@.rows[k].record.id == table@.rows[at].record.id);
                    }
                }
                assert(left =~= right);
                assert(table@.rows.contains_key(at) && is_owned_row(table@.rows[at], id as int, uid@));
            }
            table.rows.remove(i);
            return true;
        }
        i = i + 1;
    }
    proof {
        let rows = table.rows@;
        assert forall|k: Slot| #[trigger] table@.rows.contains_key(k) implies !is_owned_row(
            table@.rows[k],
            id as int,
            uid@,
        ) by {
            let j = by_slot_comes_from(rows, k);
        }
        assert(after_delete(table@, id as int, uid@).rows =~= table@.rows);
    }
    false
}

// ---------------------------------------------------------------------
// Serving
// ---------------------------------------------------------------------

/// A row is served while it is not revoked and, if it expires, only before
/// that time; the times are compared as texts.
pub open spec fn is_served(row: RowView, now: Seq<char>) -> bool {
    &&& !row.record.revoked
    &&& match row.record.expires_at {
        Some(expiry) => text_less(now, expiry),
        None => true,
    }
}

/// The key that is served for a place at the time with the text `now`.
pub open spec fn served_at(t: TableView, slot: Slot, now: Seq<char>) -> Option<Seq<u8>> {
    if t.rows.contains_key(slot) && is_served(t.rows[slot], now) {
        Some(t.rows[slot].key_data)
    } else {
        None
    }
}

/// The bytes of an optional byte string.
pub open spec fn opt_bytes(o: Option<Vec<u8>>) -> Option<Seq<u8>> {
    match o {
        Some(v) => Some(v@),
        None => None,
    }
}

/// Looks up the minimized key to serve at time `now`. A revoked or expired row
/// is not returned: the answer is that of a place without a row.
pub fn lookup_key_data(
    table: &KeyTable,
    domain: &str,
    wkd_hash: &str,
    now: Timestamp,
) -> (r: Option<Vec<u8>>)
    requires
        table.wf(),
    ensures
        opt_bytes(r) == served_at(table@, (domain@, wkd_hash@), rfc3339_of(now.unix())),
{
    let now_text: String = rfc3339_secs(now);
    match table.find_slot(domain, wkd_hash) {
        Some(i) => {
            let row: &KeyRow = &table.rows[i];
            if row.record.revoked {
                return None;
            }
            let live: bool = match &row.record.expires_at {
                Some(expiry) => text_lt(now_text.as_str(), expiry.as_str()),
                None => true,
            };
            if live {
                Some(slice_to_vec(row.key_data.as_slice()))
            } else {
                None
            }
        },
        None => None,
    }
}

// ---------------------------------------------------------------------
// Laws
// ---------------------------------------------------------------------

/// Storing and deleting keep the invariant of the table.
pub proof fn operations_keep_table_valid(
    t: TableView,
    key: NewKeyView,
    replace_if_owned_by: Option<Seq<char>>,
    now: int,
    id: int,
    uid: Seq<char>,
)
    requires
        t.valid(),
    ensures
        after_insert(t, key, replace_if_owned_by, now).valid(),
        after_delete(t, id, uid).valid(),
{
    let a = after_insert(t, key, replace_if_owned_by, now);
    if insert_outcome(t, key, replace_if_owned_by, now) is Stored {
        assert forall|k: Slot, l: Slot|
            a.rows.contains_key(k) && a.rows.contains_key(l) && (#[trigger] a.rows[k]).record.id == (
            #[trigger] a.rows[l]).record.id implies k == l by {
            if k != key.slot() && l != key.slot() {
                assert(t.rows.contains_key(k) && t.rows.contains_key(l));
                assert(t.rows[k].record.id == t.rows[l].record.id);
            } else if k != key.slot() {
                assert(t.rows.contains_key(k));
            } else if l != key.slot() {
                assert(t.rows.contains_key(l));
            }
        }
    }
    let d = after_delete(t, id, uid);
    assert forall|k: Slot, l: Slot|
        d.rows.contains_key(k) && d.rows.contains_key(l) && (#[trigger] d.rows[k]).record.id == (
        #[trigger] d.rows[l]).record.id implies k == l by {
        assert(t.rows.contains_key(k) && t.rows.contains_key(l));
        assert(t.rows[k].record.id == t.rows[l].record.id);
    }
}

/// A key that was stored is served, byte for byte, exactly as long as it is
/// neither revoked nor expired.
pub proof fn stored_key_is_served_until_expiry(
    t: TableView,
    key: NewKeyView,
    replace_if_owned_by: Option<Seq<char>>,
    now: int,
    later: int,
)
    requires
        insert_outcome(t, key, replace_if_owned_by, now) is Stored,
        has_four_digit_year(later),
        key.expires_at is Some ==> has_four_digit_year(key.expires_at->0),
    ensures
        served_at(
            after_insert(t, key, replace_if_owned_by, now),
            key.slot(),
            rfc3339_of(later),
        ) == (if !key.revoked && (key.expires_at is Some ==> later < key.expires_at->0) {
            Some(key.key_data)
        } else {
            None
        }),
{
    if let Some(e) = key.expires_at {
        rfc3339_sorts_like_time(later, e);
    }
}

/// A revoked row is never served.
pub proof fn revoked_row_is_never_served(t: TableView, slot: Slot, now: Seq<char>)
    requires
        t.rows.contains_key(slot),
        t.rows[slot].record.revoked,
    ensures
        served_at(t, slot, now) is None,
{
}

/// Once a row is not served for its age, it is not served at any later time.
pub proof fn expired_row_stays_expired(t: TableView, slot: Slot, now: int, later: int)
    requires
        has_four_digit_year(now),
        has_four_digit_year(later),
        now <= later,
        served_at(t, slot, rfc3339_of(now)) is None,
    ensures
        served_at(t, slot, rfc3339_of(later)) is None,
{
    rfc3339_sorts_like_time(now, later);
    if t.rows.contains_key(slot) {
        if let Some(e) = t.rows[slot].record.expires_at {
            if now < later && text_less(rfc3339_of(later), e) {
                bytes_less_transitive(
                    encode_utf8(rfc3339_of(now)),
                    encode_utf8(rfc3339_of(later)),
                    encode_utf8(e),
                );
            }
        }
    }
}

/// A key that was stored is listed for its owner, revoked or expired or not.
pub proof fn stored_key_is_listed(
    t: TableView,
    key: NewKeyView,
    replace_if_owned_by: Option<Seq<char>>,
    now: int,
    list: Seq<RecordView>,
)
    requires
        insert_outcome(t, key, replace_if_owned_by, now) is Stored,
        is_listing(after_insert(t, key, replace_if_owned_by, now), key.uid, list),
    ensures
        list.contains(key.row(t.last_id + 1, rfc3339_of(now)).record),
{
    let a = after_insert(t, key, replace_if_owned_by, now);
    assert(a.rows.contains_key(key.slot()));
}

/// The listings of two owners have no record in common.
pub proof fn listings_are_separate(
    t: TableView,
    a: Seq<char>,
    b: Seq<char>,
    list_a: Seq<RecordView>,
    list_b: Seq<RecordView>,
    record: RecordView,
)
    requires
        a != b,
        is_listing(t, a, list_a),
        is_listing(t, b, list_b),
    ensures
        !(list_a.contains(record) && list_b.contains(record)),
{
    if list_a.contains(record) && list_b.contains(record) {
        let i = choose|i: int| 0 <= i < list_a.len() && list_a[i] == record;
        let j = choose|j: int| 0 <= j < list_b.len() && list_b[j] == record;
        assert(is_row_of(t.rows, a, list_a[i]));
        assert(is_row_of(t.rows, b, list_b[j]));
    }
}

/// A key is never stored over the row of an owner who is not named: neither
/// over the uploader's own row, nor over the row of someone else than the one
/// that the permission was given for.
pub proof fn row_is_replaced_by_permission_only(
    t: TableView,
    key: NewKeyView,
    replace_if_owned_by: Option<Seq<char>>,
    now: int,
)
    requires
        t.rows.contains_key(key.slot()),
        t.rows[key.slot()].record.uid == key.uid || replace_if_owned_by != Some(
            t.rows[key.slot()].record.uid,
        ),
    ensures
        !(insert_outcome(t, key, replace_if_owned_by, now) is Stored),
        after_insert(t, key, replace_if_owned_by, now) == t,
{
}

/// Storing a key touches no other place.
pub proof fn insert_touches_one_slot(
    t: TableView,
    key: NewKeyView,
    replace_if_owned_by: Option<Seq<char>>,
    now: int,
    other: Slot,
)
    requires
        other != key.slot(),
    ensures
        ({
            let a = after_insert(t, key, replace_if_owned_by, now);
            &&& a.rows.contains_key(other) == t.rows.contains_key(other)
            &&& t.rows.contains_key(other) ==> a.rows[other] == t.rows[other]
        }),
{
}

/// An id that was given out is never given out again: a stored key gets an id
/// past all ids so far, and no operation takes that count back.
pub proof fn ids_are_never_reused(
    t: TableView,
    key: NewKeyView,
    replace_if_owned_by: Option<Seq<char>>,
    now: int,
    id: int,
    uid: Seq<char>,
)
    ensures
        match insert_outcome(t, key, replace_if_owned_by, now) {
            InsertOutcome::Stored(row) => t.last_id < row.record.id && after_insert(
                t,
                key,
                replace_if_owned_by,
                now,
            ).last_id == row.record.id,
            _ => after_insert(t, key, replace_if_owned_by, now).last_id == t.last_id,
        },
        after_delete(t, id, uid).last_id == t.last_id,
{
}

/// Only the owner can delete a row: for anyone else the table stays as it is.
pub proof fn delete_by_another_changes_nothing(t: TableView, id: int, uid: Seq<char>)
    requires
        forall|k: Slot| #[trigger] t.rows.contains_key(k) && t.rows[k].record.id == id
            ==> t.rows[k].record.uid != uid,
    ensures
        after_delete(t, id, uid) == t,
        !has_owned_row(t, id, uid),
{
    assert(after_delete(t, id, uid).rows =~= t.rows);
}

/// After its owner has deleted a key, nothing is served at its place, no one
/// owns it, and every other row is as it was.
pub proof fn deleted_key_is_gone(t: TableView, slot: Slot, now: Seq<char>, other: Slot)
    requires
        t.valid(),
        t.rows.contains_key(slot),
        other != slot,
    ensures
        ({
            let row = t.rows[slot].record;
            let d = after_delete(t, row.id, row.uid);
            &&& has_owned_row(t, row.id, row.uid)
            &&& served_at(d, slot, now) is None
            &&& owner_at(d, slot) is None
            &&& !has_owned_row(d, row.id, row.uid)
            &&& d.rows.contains_key(other) == t.rows.contains_key(other)
            &&& t.rows.contains_key(other) ==> d.rows[other] == t.rows[other]
        }),
{
    let row = t.rows[slot].record;
    if t.rows.contains_key(other) && t.rows[other].record.id == row.id {
        assert(t.rows[slot].record.id == t.rows[other].record.id);
    }
}

/// An owner who has deleted a key can publish again at that place.
pub proof fn delete_makes_room(t: TableView, slot: Slot, key: NewKeyView, now: int)
    requires
        t.valid(),
        t.rows.contains_key(slot),
        key.slot() == slot,
        t.last_id < i64::MAX,
    ensures
        ({
            let row = t.rows[slot].record;
            insert_outcome(after_delete(t, row.id, row.uid), key, None, now) is Stored
        }),
{
}

/// What happens at one place depends on the row there and on the largest id
/// only, so a table may be read one place at a time.
pub proof fn one_slot_is_enough(
    t: TableView,
    u: TableView,
    key: NewKeyView,
    replace_if_owned_by: Option<Seq<char>>,
    now: int,
    text: Seq<char>,
)
    requires
        t.rows.contains_key(key.slot()) == u.rows.contains_key(key.slot()),
        t.rows.contains_key(key.slot()) ==> t.rows[key.slot()] == u.rows[key.slot()],
        t.last_id == u.last_id,
    ensures
        insert_outcome(t, key, replace_if_owned_by, now) == insert_outcome(
            u,
            key,
            replace_if_owned_by,
            now,
        ),
        owner_at(t, key.slot()) == owner_at(u, key.slot()),
        served_at(t, key.slot(), text) == served_at(u, key.slot(), text),
{
}

/// The listing of an owner, and whether an owner can delete a row, depend on that
/// owner's rows only.
pub proof fn rows_of_one_owner_are_enough(
    t: TableView,
    u: TableView,
    uid: Seq<char>,
    list: Seq<RecordView>,
    id: int,
)
    requires
        forall|k: Slot| #[trigger] t.rows.contains_key(k) && t.rows[k].record.uid == uid
            ==> u.rows.contains_key(k) && u.rows[k] == t.rows[k],
        forall|k: Slot| #[trigger] u.rows.contains_key(k) && u.rows[k].record.uid == uid
            ==> t.rows.contains_key(k) && t.rows[k] == u.rows[k],
    ensures
        is_listing(t, uid, list) == is_listing(u, uid, list),
        has_owned_row(t, id, uid) == has_owned_row(u, id, uid),
{
    if has_owned_row(t, id, uid) {
        let k = choose|k: Slot| #[trigger]
            t.rows.contains_key(k) && is_owned_row(t.rows[k], id, uid);
        assert(u.rows.contains_key(k));
    }
    if has_owned_row(u, id, uid) {
        let k = choose|k: Slot| #[trigger]
            u.rows.contains_key(k) && is_owned_row(u.rows[k], id, uid);
        assert(t.rows.contains_key(k));
    }
    assert forall|record: RecordView| #[trigger]
        is_row_of(t.rows, uid, record) == is_row_of(u.rows, uid, record) by {
        if is_row_of(t.rows, uid, record) {
            let k = choose|k: Slot| #[trigger]
                t.rows.contains_key(k) && t.rows[k].record.uid == uid && t.rows[k].record == record;
            assert(u.rows.contains_key(k));
        }
        if is_row_of(u.rows, uid, record) {
            let k = choose|k: Slot| #[trigger]
                u.rows.contains_key(k) && u.rows[k].record.uid == uid && u.rows[k].record == record;
            assert(t.rows.contains_key(k));
        }
    }
}

// ---------------------------------------------------------------------
// Migrations
// ---------------------------------------------------------------------

/// How many migrations a database with this version counts as having run.
pub open spec fn migrations_run(user_version: int) -> int {
    if 0 <= user_version <= usize::MAX {
        user_version
    } else {
        0
    }
}

/// The migration to run next on a database with this version, and the version
/// that records it; `None` once all have run. The two have to be committed
/// together: the version of a database then tells exactly which have run.
pub fn next_migration(user_version: i64, total: usize) -> (r: Option<(usize, i64)>)
    requires
        total <= i64::MAX,
    ensures
        match r {
            Some((index, version)) => index == migrations_run(user_version as int) && index < total
                && version == index + 1,
            None => total <= migrations_run(user_version as int),
        },
{
    let run: usize = if user_version < 0 {
        0
    } else if user_version as u64 <= usize::MAX as u64 {
        user_version as usize
    } else {
        0
    };
    if run < total {
        Some((run, (run + 1) as i64))
    } else {
        None
    }
}

/// Once a migration is recorded, the next one follows: none is run twice, and
/// none is left out.
pub proof fn migrations_run_in_order(user_version: int, total: int)
    requires
        0 <= total <= usize::MAX,
        migrations_run(user_version) < total,
    ensures
        migrations_run(migrations_run(user_version) + 1) == migrations_run(user_version) + 1,
{
}

// ---------------------------------------------------------------------
// Laws on what is stored
// ---------------------------------------------------------------------

/// The views hold every field as it is.
pub proof fn views_keep_every_field(record: KeyRecord, row: KeyRow)
    ensures
        record@.id == record.id,
        record@.uid == record.uid@,
        record@.address == record.address@,
        record@.domain == record.domain@,
        record@.fingerprint == record.fingerprint@,
        record@.uploaded_at == record.uploaded_at@,
        record@.revoked == record.revoked,
        record@.expires_at is Some <==> record.expires_at is Some,
        record.expires_at is Some ==> record@.expires_at->0 == record.expires_at->0@,
        row@.record == row.record@,
        row@.wkd_hash == row.wkd_hash@,
        row@.key_data == row.key_data@,
        row@.slot() == (row.record.domain@, row.wkd_hash@),
{
}

/// The view of a new key holds every field as it is, the expiry in seconds.
pub proof fn new_key_view_keeps_every_field(key: NewKey)
    ensures
        key@.uid == key.uid@,
        key@.domain == key.domain@,
        key@.address == key.address@,
        key@.wkd_hash == key.wkd_hash@,
        key@.fingerprint == key.fingerprint@,
        key@.key_data == key.key_data@,
        key@.revoked == key.revoked,
        key@.expires_at is Some <==> key.expires_at is Some,
        key.expires_at is Some ==> key@.expires_at->0 == key.expires_at->0.unix(),
        key@.slot() == (key.domain@, key.wkd_hash@),
{
}

/// An optional value is there as it is, or not there.
pub proof fn optional_values_are_kept(text: Option<&str>, bytes: Option<Vec<u8>>, time: Option<int>)
    ensures
        text is Some <==> opt_str(text) is Some,
        text is Some ==> opt_str(text)->0 == text->0@,
        bytes is Some <==> opt_bytes(bytes) is Some,
        bytes is Some ==> opt_bytes(bytes)->0 == bytes->0@,
        time is Some <==> opt_rfc3339(time) is Some,
        time is Some ==> opt_rfc3339(time)->0 == rfc3339_of(time->0),
{
}

/// Every record of a list is looked at.
pub proof fn record_views_keep_every_record(list: Seq<KeyRecord>)
    ensures
        record_views(list).len() == list.len(),
        forall|i: int| 0 <= i < list.len() ==> #[trigger] record_views(list)[i] == list[i]@,
{
}

/// The table of a list of rows has, at the place of every one of them, that row,
/// and nothing at any other place.
pub proof fn every_row_stands_at_its_place(rows: Seq<KeyRow>)
    requires
        forall|i: int, j: int|
            0 <= i < j < rows.len() ==> ((#[trigger] rows[i]).record.domain@ != (
            #[trigger] rows[j]).record.domain@ || rows[i].wkd_hash@ != rows[j].wkd_hash@)
                && rows[i].record.id != rows[j].record.id,
    ensures
        all_different(rows),
        forall|i: int|
            0 <= i < rows.len() ==> by_slot(rows).contains_key(
                ((#[trigger] rows[i]).record.domain@, rows[i].wkd_hash@),
            ) && by_slot(rows)[(rows[i].record.domain@, rows[i].wkd_hash@)] == rows[i]@,
        forall|k: Slot| #[trigger]
            by_slot(rows).contains_key(k) ==> exists|i: int|
                0 <= i < rows.len() && ((#[trigger] rows[i]).record.domain@, rows[i].wkd_hash@)
                    == k,
{
    let top = largest_id(rows, 0);
    largest_id_is_the_largest(rows, 0);
    assert(consistent(rows, top));
    assert forall|i: int| 0 <= i < rows.len() implies by_slot(rows).contains_key(
        ((#[trigger] rows[i]).record.domain@, rows[i].wkd_hash@),
    ) && by_slot(rows)[(rows[i].record.domain@, rows[i].wkd_hash@)] == rows[i]@ by {
        by_slot_has(rows, top, i);
    }
    assert forall|k: Slot| #[trigger] by_slot(rows).contains_key(k) implies exists|i: int|
        0 <= i < rows.len() && ((#[trigger] rows[i]).record.domain@, rows[i].wkd_hash@) == k by {
        let i = by_slot_comes_from(rows, k);
        assert((rows[i].record.domain@, rows[i].wkd_hash@) == k);
    }
}

/// Rows that are told apart share neither a place nor an id.
pub proof fn different_rows_share_nothing(rows: Seq<KeyRow>, i: int, j: int)
    requires
        all_different(rows),
        0 <= i < j < rows.len(),
    ensures
        rows[i].record.domain@ != rows[j].record.domain@ || rows[i].wkd_hash@ != rows[j].wkd_hash@,
        rows[i].record.id != rows[j].record.id,
{
    assert(rows[i]@.slot() != rows[j]@.slot());
}

/// The last id is no smaller than the counter and than the id of every row, and
/// it is one of these.
pub proof fn largest_id_is_the_largest(rows: Seq<KeyRow>, counter: int)
    ensures
        counter <= largest_id(rows, counter),
        forall|i: int|
            0 <= i < rows.len() ==> (#[trigger] rows[i]).record.id <= largest_id(rows, counter),
        largest_id(rows, counter) == counter || exists|i: int|
            0 <= i < rows.len() && (#[trigger] rows[i]).record.id == largest_id(rows, counter),
    decreases rows.len(),
{
    if rows.len() > 0 {
        let fewer = rows.drop_last();
        largest_id_is_the_largest(fewer, counter);
        assert forall|i: int| 0 <= i < rows.len() implies (#[trigger] rows[i]).record.id
            <= largest_id(rows, counter) by {
            if i < fewer.len() {
                assert(fewer[i] == rows[i]);
            }
        }
        if largest_id(rows, counter) != counter {
            if rows.last().record.id > largest_id(fewer, counter) {
                assert(rows[rows.len() - 1].record.id == largest_id(rows, counter));
            } else {
                let i = choose|i: int|
                    0 <= i < fewer.len() && (#[trigger] fewer[i]).record.id == largest_id(
                        fewer,
                        counter,
                    );
                assert(rows[i] == fewer[i]);
            }
        }
    }
}

/// A key is stored wherever nothing stands, and over the row of the other owner
/// that is named. The row holds what was uploaded, every field of it, under the
/// next id and with the time of the upload; nothing else changes.
pub proof fn stored_row_holds_the_upload(
    t: TableView,
    key: NewKeyView,
    replace_if_owned_by: Option<Seq<char>>,
    now: int,
)
    requires
        t.last_id < i64::MAX,
        t.rows.contains_key((key.domain, key.wkd_hash)) ==> {
            let owner = t.rows[(key.domain, key.wkd_hash)].record.uid;
            owner != key.uid && replace_if_owned_by == Some(owner)
        },
    ensures
        ({
            let place = (key.domain, key.wkd_hash);
            let a = after_insert(t, key, replace_if_owned_by, now);
            let row = a.rows[place];
            &&& insert_outcome(t, key, replace_if_owned_by, now) == InsertOutcome::Stored(row)
            &&& a.rows.contains_key(place)
            &&& row.record.id == t.last_id + 1
            &&& row.record.uid == key.uid
            &&& row.record.address == key.address
            &&& row.record.domain == key.domain
            &&& row.record.fingerprint == key.fingerprint
            &&& row.record.uploaded_at == rfc3339_of(now)
            &&& row.record.revoked == key.revoked
            &&& row.record.expires_at is Some <==> key.expires_at is Some
            &&& key.expires_at is Some ==> row.record.expires_at->0 == rfc3339_of(
                key.expires_at->0,
            )
            &&& row.wkd_hash == key.wkd_hash
            &&& row.key_data == key.key_data
            &&& a.last_id == t.last_id + 1
            &&& forall|other: Slot|
                other != place ==> (#[trigger] a.rows.contains_key(other) <==> t.rows.contains_key(
                    other,
                )) && (t.rows.contains_key(other) ==> a.rows[other] == t.rows[other])
        }),
{
}

/// A key is refused, and nothing changes, exactly where the uploader's own row
/// stands, where the row of an owner stands who is not named, and where no id is
/// left; and the answer says which.
pub proof fn refusals_are_told_apart(
    t: TableView,
    key: NewKeyView,
    replace_if_owned_by: Option<Seq<char>>,
    now: int,
)
    ensures
        ({
            let place = (key.domain, key.wkd_hash);
            let taken = t.rows.contains_key(place);
            let owner = t.rows[place].record.uid;
            let outcome = insert_outcome(t, key, replace_if_owned_by, now);
            &&& outcome is Duplicate <==> taken && owner == key.uid
            &&& outcome is OwnedByOther <==> taken && owner != key.uid && replace_if_owned_by
                != Some(owner)
            &&& outcome is Full <==> t.last_id == i64::MAX && (taken ==> owner != key.uid
                && replace_if_owned_by == Some(owner))
            &&& !(outcome is Stored) ==> after_insert(t, key, replace_if_owned_by, now) == t
        }),
{
}

/// The owner of a place is the owner of the row there.
pub proof fn owner_is_that_of_the_row(t: TableView, domain: Seq<char>, wkd_hash: Seq<char>)
    ensures
        owner_at(t, (domain, wkd_hash)) is Some <==> t.rows.contains_key((domain, wkd_hash)),
        t.rows.contains_key((domain, wkd_hash)) ==> owner_at(t, (domain, wkd_hash)) == Some(
            t.rows[(domain, wkd_hash)].record.uid,
        ),
{
}

/// A listing has the record of every row of the owner and no other, none of them
/// twice, and none in front of one that was uploaded later.
pub proof fn listing_is_complete_and_in_order(t: TableView, uid: Seq<char>, list: Seq<RecordView>)
    requires
        is_listing(t, uid, list),
    ensures
        forall|k: Slot| #[trigger]
            t.rows.contains_key(k) && t.rows[k].record.uid == uid ==> exists|i: int|
                0 <= i < list.len() && #[trigger] list[i] == t.rows[k].record,
        forall|i: int|
            0 <= i < list.len() ==> (#[trigger] list[i]).uid == uid && exists|k: Slot| #[trigger]
                t.rows.contains_key(k) && t.rows[k].record == list[i],
        forall|i: int, j: int|
            0 <= i < j < list.len() ==> (#[trigger] list[i]).id != (#[trigger] list[j]).id
                && !text_less(list[i].uploaded_at, list[j].uploaded_at),
{
    assert forall|k: Slot| #[trigger]
        t.rows.contains_key(k) && t.rows[k].record.uid == uid implies exists|i: int|
        0 <= i < list.len() && #[trigger] list[i] == t.rows[k].record by {
        assert(list.contains(t.rows[k].record));
    }
    assert forall|i: int| 0 <= i < list.len() implies (#[trigger] list[i]).uid == uid && exists|
        k: Slot,
    | #[trigger]
        t.rows.contains_key(k) && t.rows[k].record == list[i] by {
        assert(is_row_of(t.rows, uid, list[i]));
    }
}

/// Deleting takes away the row with the id if the uid owns it, and keeps every
/// other row and the count of ids.
pub proof fn delete_takes_the_owned_row_only(t: TableView, id: int, uid: Seq<char>)
    ensures
        forall|k: Slot| #[trigger]
            after_delete(t, id, uid).rows.contains_key(k) <==> t.rows.contains_key(k) && !(
            t.rows[k].record.id == id && t.rows[k].record.uid == uid),
        forall|k: Slot| #[trigger]
            after_delete(t, id, uid).rows.contains_key(k) ==> after_delete(t, id, uid).rows[k]
                == t.rows[k],
        after_delete(t, id, uid).last_id == t.last_id,
        has_owned_row(t, id, uid) <==> exists|k: Slot| #[trigger]
            t.rows.contains_key(k) && t.rows[k].record.id == id && t.rows[k].record.uid == uid,
{
}

/// The record of a row that an owner has is that of a row in the table, with that
/// owner.
pub proof fn row_of_an_owner_is_in_the_table(
    rows: Map<Slot, RowView>,
    uid: Seq<char>,
    record: RecordView,
)
    ensures
        is_row_of(rows, uid, record) <==> record.uid == uid && exists|k: Slot| #[trigger]
            rows.contains_key(k) && rows[k].record == record,
{
}

/// What is served at a place is the key of the row there, as it is stored, unless
/// the row is revoked or its expiry is not past the present time.
pub proof fn served_key_is_that_of_the_row(t: TableView, slot: Slot, now: Seq<char>)
    ensures
        served_at(t, slot, now) is Some <==> t.rows.contains_key(slot) && !t.rows[slot].record.revoked
            && (t.rows[slot].record.expires_at is Some ==> bytes_less(
            encode_utf8(now),
            encode_utf8(t.rows[slot].record.expires_at->0),
        )),
        served_at(t, slot, now) is Some ==> served_at(t, slot, now)->0 == t.rows[slot].key_data,
{
}

/// A database that holds the number of a migration has run those before it; one
/// without such a number has run none.
pub proof fn version_counts_the_migrations(user_version: int)
    ensures
        0 <= user_version <= usize::MAX ==> migrations_run(user_version) == user_version,
        user_version < 0 || user_version > usize::MAX ==> migrations_run(user_version) == 0,
{
}

/// An error about storing says what stands in the way, or what the database said.
pub proof fn insert_errors_say_what_is_wrong(m: String)
    ensures
        InsertError::Duplicate.message() == "a key already exists for this domain/address"@,
        InsertError::OwnedByOther.message()
            == "a key already exists for this domain/address, owned by someone else who still owns it"@,
        InsertError::Sqlite(m).message() == m@,
{
}

} // verus!
