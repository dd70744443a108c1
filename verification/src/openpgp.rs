//! OpenPGP keys: parsing, validation for an address, and minimization for
//! publication.
//!
//! What a certificate holds is read by `sequoia_openpgp` into plain values;
//! which of it is accepted and which of it is published is decided here.

use base64::Engine;
use sequoia_openpgp::cert::amalgamation::ValidateAmalgamation;
use sequoia_openpgp::packet::Packet;
use sequoia_openpgp::parse::Parse;
use sequoia_openpgp::policy::StandardPolicy;
use sequoia_openpgp::serialize::MarshalInto;
use sequoia_openpgp::types::RevocationStatus;
use sequoia_openpgp::{Cert as PgpCert, PacketPile, Result as PgpResult};
use std::time::{Duration, UNIX_EPOCH};
use vstd::prelude::*;
use vstd::slice::slice_to_vec;
use vstd::string::*;
use vstd::utf8::*;

use crate::text::{
    all_base64, all_white, ascii_lowered, base64_needs_no_trimming, base64_text,
    base64_text_is_base64, byte_lists, eq_ignore_ascii_case, is_base64_char, opt_text,
    same_ignoring_case, same_ignoring_case_at_every_place, trimmed,
    trimming_ignores_white_space_around,
};
use crate::timestamp::{
    has_four_digit_year, rfc3339_of, rfc3339_secs, Timestamp, MAX_UNIX_SECS,
};
use crate::wkd_hash::{directory_entry, directory_entry_ignores_case};

verus! {

/// The last second at which certificates are judged: 9999-12-31T23:59:59Z.
pub const LAST_JUDGED_SECOND: u64 = 253402300799;

/// Why a key is not accepted.
#[derive(Debug)]
pub enum KeyError {
    /// The material is no OpenPGP key.
    ParseFailed(String),
    /// The primary key has no valid self-signature.
    InvalidPrimaryKey(String),
    /// No valid User ID is for this address.
    NoMatchingUserId(String),
    /// The primary key has expired.
    Expired(String),
}

/// A key error as mathematical values.
pub enum KeyErrorView {
    ParseFailed(Seq<char>),
    InvalidPrimaryKey(Seq<char>),
    NoMatchingUserId(Seq<char>),
    Expired(Seq<char>),
}

impl View for KeyError {
    type V = KeyErrorView;

    open spec fn view(&self) -> KeyErrorView {
        match *self {
            KeyError::ParseFailed(m) => KeyErrorView::ParseFailed(m@),
            KeyError::InvalidPrimaryKey(m) => KeyErrorView::InvalidPrimaryKey(m@),
            KeyError::NoMatchingUserId(a) => KeyErrorView::NoMatchingUserId(a@),
            KeyError::Expired(m) => KeyErrorView::Expired(m@),
        }
    }
}

impl KeyError {
    /// The message for this error.
    pub open spec fn message(self) -> Seq<char> {
        match self {
            KeyError::ParseFailed(m) => "failed to parse key material: "@ + m@,
            KeyError::InvalidPrimaryKey(m) =>
                "key has no valid, non-expired self-signature on its primary key: "@ + m@,
            KeyError::NoMatchingUserId(a) => "key has no valid User ID matching "@ + a@,
            KeyError::Expired(m) => "key has expired: "@ + m@,
        }
    }

    /// Writes the error out for a reader.
    pub fn to_string(&self) -> (r: String)
        ensures
            r@ == self.message(),
    {
        match self {
            KeyError::ParseFailed(m) => "failed to parse key material: ".to_owned().concat(
                m.as_str(),
            ),
            KeyError::InvalidPrimaryKey(m) =>
                "key has no valid, non-expired self-signature on its primary key: ".to_owned().concat(
                m.as_str(),
            ),
            KeyError::NoMatchingUserId(a) => "key has no valid User ID matching ".to_owned().concat(
                a.as_str(),
            ),
            KeyError::Expired(m) => "key has expired: ".to_owned().concat(m.as_str()),
        }
    }
}

// ---------------------------------------------------------------------
// What a certificate holds
// ---------------------------------------------------------------------

/// A User ID: its packet, and the mail address in it, if there is one.
#[derive(Debug)]
pub struct UserId {
    pub packet: Vec<u8>,
    pub email: Option<String>,
}

/// A User ID as mathematical values.
pub struct UserIdView {
    pub packet: Seq<u8>,
    pub email: Option<Seq<char>>,
}

impl View for UserId {
    type V = UserIdView;

    open spec fn view(&self) -> UserIdView {
        UserIdView { packet: self.packet@, email: opt_text(self.email) }
    }
}

/// The primary key of a certificate.
#[derive(Debug)]
pub struct PrimaryPart {
    pub fingerprint: String,
    /// The packet of the public key.
    pub packet: Vec<u8>,
    /// When the key expires, in seconds since 1970.
    pub expires_at: Option<i64>,
}

/// A primary key as mathematical values.
pub struct PrimaryView {
    pub fingerprint: Seq<char>,
    pub packet: Seq<u8>,
    pub expires_at: Option<i64>,
}

impl View for PrimaryPart {
    type V = PrimaryView;

    open spec fn view(&self) -> PrimaryView {
        PrimaryView {
            fingerprint: self.fingerprint@,
            packet: self.packet@,
            expires_at: self.expires_at,
        }
    }
}

/// The signatures of the primary key on a User ID or a subkey: the packet of
/// the one that binds it, and the packets of those that revoke it.
#[derive(Debug)]
pub struct OwnSignatures {
    pub binding: Vec<u8>,
    pub revocations: Vec<Vec<u8>>,
}

/// Signatures as mathematical values.
pub struct SignaturesView {
    pub binding: Seq<u8>,
    pub revocations: Seq<Seq<u8>>,
}

impl View for OwnSignatures {
    type V = SignaturesView;

    open spec fn view(&self) -> SignaturesView {
        SignaturesView { binding: self.binding@, revocations: byte_lists(self.revocations@) }
    }
}

/// A subkey with its signatures.
#[derive(Debug)]
pub struct SubkeyPart {
    /// The packet of the public subkey.
    pub packet: Vec<u8>,
    pub signatures: OwnSignatures,
}

/// A bound subkey as mathematical values.
pub struct SubkeyView {
    pub packet: Seq<u8>,
    pub signatures: SignaturesView,
}

impl View for SubkeyPart {
    type V = SubkeyView;

    open spec fn view(&self) -> SubkeyView {
        SubkeyView { packet: self.packet@, signatures: self.signatures@ }
    }
}

/// What of a certificate is revoked.
#[derive(Debug)]
pub struct Revocation {
    pub primary: bool,
    /// For each User ID, whether it is revoked.
    pub user_ids: Vec<bool>,
}

/// The revocation state as mathematical values.
pub struct RevocationView {
    pub primary: bool,
    pub user_ids: Seq<bool>,
}

impl View for Revocation {
    type V = RevocationView;

    open spec fn view(&self) -> RevocationView {
        RevocationView { primary: self.primary, user_ids: self.user_ids@ }
    }
}

/// Why packets could not be made into a certificate.
#[derive(Debug)]
pub enum RebuildError {
    /// The packets are no certificate.
    Rebuild(String),
    /// The certificate could not be written.
    Serialize(String),
}

/// A rebuild error as mathematical values.
pub enum RebuildErrorView {
    Rebuild(Seq<char>),
    Serialize(Seq<char>),
}

impl View for RebuildError {
    type V = RebuildErrorView;

    open spec fn view(&self) -> RebuildErrorView {
        match *self {
            RebuildError::Rebuild(m) => RebuildErrorView::Rebuild(m@),
            RebuildError::Serialize(m) => RebuildErrorView::Serialize(m@),
        }
    }
}

/// The views of a list of User IDs.
pub open spec fn user_id_views(v: Seq<UserId>) -> Seq<UserIdView> {
    Seq::new(v.len(), |i: int| v[i]@)
}

/// The views of a list of bound subkeys.
pub open spec fn subkey_views(v: Seq<SubkeyPart>) -> Seq<SubkeyView> {
    Seq::new(v.len(), |i: int| v[i]@)
}

/// What is published of a certificate: its primary key, one of its User IDs and
/// its subkeys, each with its own signatures.
pub struct SelectionView {
    pub primary: PrimaryView,
    pub revocations: Seq<Seq<u8>>,
    pub user_id: UserIdView,
    pub signatures: SignaturesView,
    pub subkeys: Seq<SubkeyView>,
}

// ---------------------------------------------------------------------
// Calls to the OpenPGP library
// ---------------------------------------------------------------------

/// The fingerprint of the certificate in these bytes, or the message of the
/// parser where they are none.
pub uninterp spec fn cert_fingerprint(bytes: Seq<u8>) -> Result<Seq<char>, Seq<char>>;

/// The User IDs of the certificate in these bytes, bound or not.
pub uninterp spec fn cert_user_ids(bytes: Seq<u8>) -> Result<Seq<UserIdView>, Seq<char>>;

/// Whether the certificate in these bytes comes with secret key material.
pub uninterp spec fn cert_is_tsk(bytes: Seq<u8>) -> Result<bool, Seq<char>>;

/// The primary key of the certificate, if the standard policy accepts it at
/// this second since 1970.
pub uninterp spec fn valid_primary(bytes: Seq<u8>, at: int) -> Result<PrimaryView, Seq<char>>;

/// The User IDs that the standard policy accepts at this second.
pub uninterp spec fn valid_user_ids(bytes: Seq<u8>, at: int) -> Result<Seq<UserIdView>, Seq<char>>;

/// This may be read of the self-revocations of the primary key. Where a
/// certificate holds a signature more than once, its copies are merged; which of
/// their unhashed subpackets are kept, in which order, and so whether the
/// signature can be written out, is left open.
pub uninterp spec fn primary_revocations_read_as(
    bytes: Seq<u8>,
    r: Result<Seq<Seq<u8>>, Seq<char>>,
) -> bool;

/// This may be read of the signatures of the valid User ID at a position. It is
/// left open as for the primary key.
pub uninterp spec fn user_id_signatures_read_as(
    bytes: Seq<u8>,
    at: int,
    i: int,
    r: Result<SignaturesView, Seq<char>>,
) -> bool;

/// This may be read of the subkeys that the standard policy accepts at this
/// second. It is left open as for the primary key, and with it whether a subkey
/// is valid: the signature by which it accepts its primary key is an unhashed
/// subpacket.
pub uninterp spec fn subkeys_read_as(
    bytes: Seq<u8>,
    at: int,
    r: Result<Seq<SubkeyView>, Seq<char>>,
) -> bool;

/// What of the certificate is revoked at this second.
pub uninterp spec fn revocation_at(bytes: Seq<u8>, at: int) -> Result<RevocationView, Seq<char>>;

/// The certificate that a sequence of packets makes, written out.
pub uninterp spec fn rebuilt_cert(packets: Seq<u8>) -> Result<Seq<u8>, RebuildErrorView>;

/// The bytes that a text in standard base64 stands for.
pub uninterp spec fn base64_decoded(text: Seq<char>) -> Result<Seq<u8>, Seq<char>>;

/// The packets of a selection: the primary key and its self-revocations, the
/// User ID with its binding signature and its self-revocations, and each subkey
/// with its binding signature and its self-revocations, in this order.
pub open spec fn minimal_packets(s: SelectionView) -> Seq<Seq<u8>> {
    seq![s.primary.packet] + s.revocations + seq![s.user_id.packet, s.signatures.binding]
        + s.signatures.revocations + subkey_packets(s.subkeys)
}

/// The packets of the subkeys.
pub open spec fn subkey_packets(subkeys: Seq<SubkeyView>) -> Seq<Seq<u8>>
    decreases subkeys.len(),
{
    if subkeys.len() == 0 {
        seq![]
    } else {
        let k = subkeys.last();
        subkey_packets(subkeys.drop_last()) + seq![k.packet, k.signatures.binding]
            + k.signatures.revocations
    }
}

/// Byte strings one after the other.
pub open spec fn joined(packets: Seq<Seq<u8>>) -> Seq<u8>
    decreases packets.len(),
{
    if packets.len() == 0 {
        seq![]
    } else {
        joined(packets.drop_last()) + packets.last()
    }
}

/// The bytes are a certificate with secret key material.
pub open spec fn holds_secret(bytes: Seq<u8>) -> bool {
    cert_is_tsk(bytes) == Ok::<bool, Seq<char>>(true)
}

/// The valid primary key of a certificate, one of its valid User IDs and its
/// valid subkeys may be read so at this second.
pub open spec fn is_selection(material: Seq<u8>, at: int, s: SelectionView) -> bool {
    &&& 0 <= at <= LAST_JUDGED_SECOND
    &&& cert_fingerprint(material) == Ok::<Seq<char>, Seq<char>>(s.primary.fingerprint)
    &&& valid_primary(material, at) == Ok::<PrimaryView, Seq<char>>(s.primary)
    &&& primary_revocations_read_as(material, Ok(s.revocations))
    &&& valid_user_ids(material, at) is Ok
    &&& exists|i: int|
        {
            &&& 0 <= i < valid_user_ids(material, at)->Ok_0.len()
            &&& s.user_id == valid_user_ids(material, at)->Ok_0[i]
            &&& #[trigger] user_id_signatures_read_as(material, at, i, Ok(s.signatures))
        }
    &&& subkeys_read_as(material, at, Ok(s.subkeys))
}

/// The bytes are a certificate with the fingerprint of the selection, with its
/// User ID as the only one, and without secret key material.
pub open spec fn holds_selection(bytes: Seq<u8>, s: SelectionView) -> bool {
    &&& cert_fingerprint(bytes) == Ok::<Seq<char>, Seq<char>>(s.primary.fingerprint)
    &&& cert_user_ids(bytes) == Ok::<Seq<UserIdView>, Seq<char>>(seq![s.user_id])
    &&& !holds_secret(bytes)
}

/// The number that octets stand for, the most significant first.
pub open spec fn big_endian(octets: Seq<u8>) -> int
    decreases octets.len(),
{
    if octets.len() == 0 {
        0
    } else {
        big_endian(octets.drop_last()) * 256 + octets.last()
    }
}

/// What follows the header of a packet in the new format.
pub open spec fn packet_body(packet: Seq<u8>) -> Seq<u8> {
    if packet.len() < 2 {
        seq![]
    } else if packet[1] < 192 {
        packet.skip(2)
    } else if packet[1] < 255 {
        packet.skip(3)
    } else {
        packet.skip(6)
    }
}

/// How many octets the unhashed subpackets of a signature take. Their number
/// follows the hashed subpackets, and has two octets in version 4 and four in
/// version 6; version 3 has no subpackets.
pub open spec fn unhashed_len(body: Seq<u8>) -> int {
    if body.len() > 0 && body[0] == 4 {
        let hashed = big_endian(body.subrange(4, 6));
        big_endian(body.subrange(6 + hashed, 8 + hashed))
    } else if body.len() > 0 && body[0] == 6 {
        let hashed = big_endian(body.subrange(4, 8));
        big_endian(body.subrange(8 + hashed, 12 + hashed))
    } else {
        0
    }
}

/// The signature is one that counts when it is read again. Copies of a signature
/// are merged into one with at most 65535 octets of unhashed subpackets. If that
/// leaves no room for the 39 octets that it takes at most to name the signer, the
/// name may be lost, and the signature then passes for that of another key. A
/// body of 196618 octets or more is not taken for a signature.
pub open spec fn is_lasting(packet: Seq<u8>) -> bool {
    let body = packet_body(packet);
    &&& !(65496 < unhashed_len(body) <= 65535)
    &&& body.len() < 196618
}

/// All of the signatures last.
pub open spec fn all_lasting(packets: Seq<Seq<u8>>) -> bool {
    forall|i: int| 0 <= i < packets.len() ==> is_lasting(#[trigger] packets[i])
}

/// All signatures of the selection last.
pub open spec fn has_lasting_signatures(s: SelectionView) -> bool {
    &&& all_lasting(s.revocations)
    &&& is_lasting(s.signatures.binding)
    &&& all_lasting(s.signatures.revocations)
    &&& forall|i: int|
        0 <= i < s.subkeys.len() ==> is_lasting((#[trigger] s.subkeys[i]).signatures.binding)
            && all_lasting(s.subkeys[i].signatures.revocations)
}

/// However a certificate is read at this second, what is valid of it is the
/// selection, signature by signature. When the primary key expires is not said:
/// without the other User IDs and without direct key signatures it is read from
/// the signature that binds the User ID.
pub open spec fn reads_back(bytes: Seq<u8>, at: int, s: SelectionView) -> bool {
    &&& valid_primary(bytes, at) is Ok
    &&& valid_primary(bytes, at)->Ok_0.fingerprint == s.primary.fingerprint
    &&& valid_primary(bytes, at)->Ok_0.packet == s.primary.packet
    &&& valid_user_ids(bytes, at) == Ok::<Seq<UserIdView>, Seq<char>>(seq![s.user_id])
    &&& forall|r: Result<Seq<Seq<u8>>, Seq<char>>| #[trigger]
        primary_revocations_read_as(bytes, r) ==> r == Ok::<Seq<Seq<u8>>, Seq<char>>(s.revocations)
    &&& forall|r: Result<SignaturesView, Seq<char>>| #[trigger]
        user_id_signatures_read_as(bytes, at, 0, r) ==> r == Ok::<SignaturesView, Seq<char>>(
            s.signatures,
        )
    &&& forall|r: Result<Seq<SubkeyView>, Seq<char>>| #[trigger]
        subkeys_read_as(bytes, at, r) ==> r == Ok::<Seq<SubkeyView>, Seq<char>>(s.subkeys)
}

/// If the packets are those of a selection, the bytes are the certificate that
/// they make, and it holds the selection and reads back as the selection.
pub open spec fn keeps_selection(packets: Seq<u8>, bytes: Seq<u8>) -> bool {
    forall|material: Seq<u8>, at: int, s: SelectionView| #[trigger]
        is_selection(material, at, s) && packets == joined(minimal_packets(s)) ==> {
            &&& rebuilt_cert(packets) == Ok::<Seq<u8>, RebuildErrorView>(bytes)
            &&& holds_selection(bytes, s)
            &&& has_lasting_signatures(s) ==> reads_back(bytes, at, s)
        }
}

/// A header line of ASCII armor.
pub open spec fn is_armor_header(line: Seq<char>) -> bool {
    &&& !line.contains('\n')
    &&& exists|k: int| 0 <= k < line.len() - 1 && #[trigger] line[k] == ':' && line[k + 1] == ' '
}

/// Lines, each with its end.
pub open spec fn lines_text(lines: Seq<Seq<char>>) -> Seq<char>
    decreases lines.len(),
{
    if lines.len() == 0 {
        seq![]
    } else {
        lines_text(lines.drop_last()) + lines.last() + seq!['\n']
    }
}

/// Data in base64, folded into lines that are not empty.
pub open spec fn is_folded_base64(body: Seq<char>, data: Seq<u8>) -> bool {
    &&& body.filter(|c: char| c != '\n') == base64_text(data)
    &&& body.len() > 0 && body.last() == '\n'
    &&& forall|i: int|
        0 <= i < body.len() - 1 ==> !(#[trigger] body[i] == '\n' && body[i + 1] == '\n')
}

/// The line with the checksum of ASCII armor, which may be left out.
pub open spec fn is_armor_checksum(line: Seq<char>) -> bool {
    line.len() == 0 || {
        &&& line.len() == 6
        &&& line[0] == '='
        &&& forall|i: int| 1 <= i < 5 ==> is_base64_char(#[trigger] line[i]) && line[i] != '='
        &&& line[5] == '\n'
    }
}

/// The text is the ASCII armor of a public key: the line that begins it, header
/// lines, an empty line, the data in base64, a checksum or none, and the line
/// that ends it.
pub open spec fn is_armor_of(text: Seq<char>, data: Seq<u8>) -> bool {
    exists|headers: Seq<Seq<char>>, body: Seq<char>, checksum: Seq<char>|
        {
            &&& forall|i: int| 0 <= i < headers.len() ==> is_armor_header(#[trigger] headers[i])
            &&& #[trigger] is_folded_base64(body, data)
            &&& #[trigger] is_armor_checksum(checksum)
            &&& text == "-----BEGIN PGP PUBLIC KEY BLOCK-----\n"@ + #[trigger] lines_text(headers)
                + seq!['\n'] + body + checksum + "-----END PGP PUBLIC KEY BLOCK-----"@
        }
}

/// The data starts with the header of a packet with a public key, with a length
/// of one, two or five octets in the new format, or of one or two octets in the
/// old one, and with the size of a key: more than six and less than 2^20 octets.
pub open spec fn starts_with_key(data: Seq<u8>) -> bool {
    &&& data.len() > 6
    &&& {
        ||| data[0] == 0xc6 && 6 < data[1] < 224
        ||| data[0] == 0xc6 && data[1] == 255 && data[2] == 0 && data[3] < 16 && 6 < data[3] * 65536
            + data[4] * 256 + data[5]
        ||| data[0] == 0x98 && 6 < data[1]
        ||| data[0] == 0x99 && 6 < data[1] * 256 + data[2]
    }
}

/// If the bytes are the ASCII armor of a binary certificate, this is what is
/// read of that certificate.
pub open spec fn opens_armor(bytes: Seq<u8>, read: Result<Seq<char>, Seq<char>>) -> bool {
    forall|text: Seq<char>, data: Seq<u8>| #[trigger]
        is_armor_of(text, data) && bytes == encode_utf8(text) && starts_with_key(data)
            && cert_fingerprint(data) is Ok ==> read == cert_fingerprint(data)
}

/// The bytes are a text of base64.
pub open spec fn is_bare_base64(bytes: Seq<u8>) -> bool {
    exists|text: Seq<char>| #[trigger] all_base64(text) && bytes == encode_utf8(text)
}

/// Calls `sequoia_openpgp::Cert::from_bytes`, which takes armored or binary
/// material, and the fingerprint of what it parsed, in hexadecimal. The result
/// is a function of the bytes. A text of base64 without the lines around it is
/// no armor, and no packet starts with such a character; of the armor of a
/// binary certificate, that certificate is read. What is read of other bytes is
/// not said.
#[verifier::external_body]
fn read_fingerprint(bytes: &[u8]) -> (r: Result<String, String>)
    ensures
        match r {
            Ok(fingerprint) => cert_fingerprint(bytes@) == Ok::<Seq<char>, Seq<char>>(fingerprint@)
                && !is_bare_base64(bytes@) && opens_armor(bytes@, Ok(fingerprint@)),
            Err(e) => cert_fingerprint(bytes@) == Err::<Seq<char>, Seq<char>>(e@) && opens_armor(
                bytes@,
                Err(e@),
            ),
        },
{
    let cert = PgpCert::from_bytes(bytes).map_err(|e| e.to_string())?;
    Ok(cert.fingerprint().to_hex())
}

/// Calls `sequoia_openpgp::Cert::userids`: every User ID in the certificate,
/// with its packet and the mail address that `UserID::email` finds in it.
#[verifier::external_body]
fn read_user_ids(bytes: &[u8]) -> (r: Result<Vec<UserId>, String>)
    ensures
        match r {
            Ok(ids) => cert_user_ids(bytes@) == Ok::<Seq<UserIdView>, Seq<char>>(
                user_id_views(ids@),
            ),
            Err(e) => cert_user_ids(bytes@) == Err::<Seq<UserIdView>, Seq<char>>(e@),
        },
{
    let read = || -> PgpResult<Vec<UserId>> {
        let cert = PgpCert::from_bytes(bytes)?;
        cert.userids().map(|u| Ok(UserId {
            packet: Packet::from(u.userid().clone()).to_vec()?,
            email: u.userid().email().unwrap_or(None).map(String::from),
        })).collect()
    };
    read().map_err(|e| e.to_string())
}

/// Calls `sequoia_openpgp::Cert::is_tsk`: whether the certificate comes with
/// secret key material. There is an error exactly where the bytes are no
/// certificate, with the message of the parser.
#[verifier::external_body]
fn read_is_tsk(bytes: &[u8]) -> (r: Result<bool, String>)
    ensures
        match r {
            Ok(secret) => cert_is_tsk(bytes@) == Ok::<bool, Seq<char>>(secret),
            Err(e) => cert_is_tsk(bytes@) == Err::<bool, Seq<char>>(e@) && cert_fingerprint(bytes@)
                == Err::<Seq<char>, Seq<char>>(e@),
        },
{
    let cert = PgpCert::from_bytes(bytes).map_err(|e| e.to_string())?;
    Ok(cert.is_tsk())
}

/// Calls `sequoia_openpgp::Cert::with_policy` with `StandardPolicy::at` this
/// second, and reads the primary key of the result: its fingerprint, the packet
/// of its public part, and its expiration time. The fingerprint is that of the
/// certificate; an expiration time is the sum of two 32-bit numbers of seconds.
#[verifier::external_body]
fn read_valid_primary(bytes: &[u8], at: u64) -> (r: Result<PrimaryPart, String>)
    requires
        at <= LAST_JUDGED_SECOND,
    ensures
        match r {
            Ok(part) => valid_primary(bytes@, at as int) == Ok::<PrimaryView, Seq<char>>(part@)
                && cert_fingerprint(bytes@) == Ok::<Seq<char>, Seq<char>>(part.fingerprint@) && (
            part.expires_at matches Some(e) ==> 0 <= e <= 2 * u32::MAX),
            Err(e) => valid_primary(bytes@, at as int) == Err::<PrimaryView, Seq<char>>(e@),
        },
{
    let read = || -> PgpResult<PrimaryPart> {
        let time = UNIX_EPOCH + Duration::from_secs(at);
        let policy = StandardPolicy::at(time);
        let cert = PgpCert::from_bytes(bytes)?;
        let key = cert.with_policy(&policy, time)?.primary_key();
        Ok(PrimaryPart {
            fingerprint: cert.fingerprint().to_hex(),
            packet: Packet::from(key.key().clone()).to_vec()?,
            expires_at: key.key_expiration_time().and_then(|t| t.duration_since(UNIX_EPOCH).ok()).map(|d| d.as_secs() as i64),
        })
    };
    read().map_err(|e| e.to_string())
}

/// Calls `sequoia_openpgp::Cert::with_policy` with `StandardPolicy::at` this
/// second, and reads `ValidCert::userids`: for each User ID its packet and mail
/// address. There is an error only where the primary key is not valid, with the
/// same message.
#[verifier::external_body]
fn read_valid_user_ids(bytes: &[u8], at: u64) -> (r: Result<Vec<UserId>, String>)
    requires
        at <= LAST_JUDGED_SECOND,
    ensures
        match r {
            Ok(ids) => valid_user_ids(bytes@, at as int) == Ok::<Seq<UserIdView>, Seq<char>>(
                user_id_views(ids@),
            ),
            Err(e) => valid_user_ids(bytes@, at as int) == Err::<Seq<UserIdView>, Seq<char>>(e@)
                && valid_primary(bytes@, at as int) == Err::<PrimaryView, Seq<char>>(e@),
        },
{
    let read = || -> PgpResult<Vec<UserId>> {
        let time = UNIX_EPOCH + Duration::from_secs(at);
        let policy = StandardPolicy::at(time);
        let cert = PgpCert::from_bytes(bytes)?;
        cert.with_policy(&policy, time)?.userids().map(|u| Ok(UserId {
            packet: Packet::from(u.userid().clone()).to_vec()?,
            email: u.userid().email().unwrap_or(None).map(String::from),
        })).collect()
    };
    read().map_err(|e| e.to_string())
}

/// Calls `self_revocations` of the primary key of a `sequoia_openpgp::Cert`, and
/// writes out each of them. What is read is left open as far as
/// `primary_revocations_read_as` says.
#[verifier::external_body]
fn read_primary_revocations(bytes: &[u8]) -> (r: Result<Vec<Vec<u8>>, String>)
    ensures
        primary_revocations_read_as(bytes@, revocations_result(r)),
{
    let read = || -> PgpResult<Vec<Vec<u8>>> {
        let cert = PgpCert::from_bytes(bytes)?;
        Result::from_iter(cert.primary_key().self_revocations().map(|s| Packet::from(s.clone()).to_vec()))
    };
    read().map_err(|e| e.to_string())
}

/// Calls `sequoia_openpgp::Cert::with_policy` with `StandardPolicy::at` this
/// second, and writes out the binding signature and all self-revocations of one
/// User ID of `ValidCert::userids`. What is read is left open as far as
/// `user_id_signatures_read_as` says.
#[verifier::external_body]
fn read_user_id_signatures(bytes: &[u8], at: u64, i: usize) -> (r: Result<OwnSignatures, String>)
    requires
        at <= LAST_JUDGED_SECOND,
        valid_user_ids(bytes@, at as int) is Ok,
        i < valid_user_ids(bytes@, at as int)->Ok_0.len(),
    ensures
        user_id_signatures_read_as(bytes@, at as int, i as int, signatures_result(r)),
{
    let read = || -> PgpResult<OwnSignatures> {
        let time = UNIX_EPOCH + Duration::from_secs(at);
        let policy = StandardPolicy::at(time);
        let cert = PgpCert::from_bytes(bytes)?;
        let u = cert.with_policy(&policy, time)?.userids().nth(i).expect("there is such a User ID");
        Ok(OwnSignatures {
            binding: Packet::from(u.binding_signature().clone()).to_vec()?,
            revocations: Result::from_iter(u.bundle().self_revocations().map(|s| Packet::from(s.clone()).to_vec()))?,
        })
    };
    read().map_err(|e| e.to_string())
}

/// Calls `sequoia_openpgp::Cert::with_policy` with `StandardPolicy::at` this
/// second, and reads `ValidCert::keys` without the primary key: for each subkey
/// the packet of its public part, the packet of its binding signature, and all
/// of its self-revocations. What is read is left open as far as
/// `subkeys_read_as` says.
#[verifier::external_body]
fn read_valid_subkeys(bytes: &[u8], at: u64) -> (r: Result<Vec<SubkeyPart>, String>)
    requires
        at <= LAST_JUDGED_SECOND,
    ensures
        subkeys_read_as(bytes@, at as int, subkeys_result(r)),
{
    let read = || -> PgpResult<Vec<SubkeyPart>> {
        let time = UNIX_EPOCH + Duration::from_secs(at);
        let policy = StandardPolicy::at(time);
        let cert = PgpCert::from_bytes(bytes)?;
        cert.with_policy(&policy, time)?.keys().subkeys().map(|k| Ok(SubkeyPart {
            packet: Packet::from(k.key().clone()).to_vec()?,
            signatures: OwnSignatures {
                binding: Packet::from(k.binding_signature().clone()).to_vec()?,
                revocations: Result::from_iter(k.self_revocations().map(|s| Packet::from(s.clone()).to_vec()))?,
            },
        })).collect()
    };
    read().map_err(|e| e.to_string())
}

/// Calls `revocation_status` of `sequoia_openpgp::Cert` and of each of its User
/// IDs, with `StandardPolicy::at` this second: `true` stands for
/// `RevocationStatus::Revoked`.
#[verifier::external_body]
fn read_revocation(bytes: &[u8], at: u64) -> (r: Result<Revocation, String>)
    requires
        at <= LAST_JUDGED_SECOND,
    ensures
        match r {
            Ok(state) => revocation_at(bytes@, at as int) == Ok::<RevocationView, Seq<char>>(state@),
            Err(e) => revocation_at(bytes@, at as int) == Err::<RevocationView, Seq<char>>(e@),
        },
{
    let time = UNIX_EPOCH + Duration::from_secs(at);
    let policy = StandardPolicy::at(time);
    let cert = PgpCert::from_bytes(bytes).map_err(|e| e.to_string())?;
    Ok(Revocation {
        primary: matches!(cert.revocation_status(&policy, time), RevocationStatus::Revoked(_)),
        user_ids: cert.userids().map(|u| matches!(u.revocation_status(&policy, time), RevocationStatus::Revoked(_))).collect(),
    })
}

/// Calls `sequoia_openpgp::Cert::from_packets` on the packets in these bytes,
/// and `to_vec` on the certificate. Where the packets are those of a selection,
/// what is written is a function of them: the certificate of the primary key in
/// it, with one User ID, the one in it, and without secret key material. If its
/// signatures last, they verify again, are valid again at the second of the
/// selection, and are read back as they are: none of them is there twice.
#[verifier::external_body]
fn rebuild_cert(packets: &[u8]) -> (r: Result<Vec<u8>, RebuildError>)
    ensures
        match r {
            Ok(bytes) => keeps_selection(packets@, bytes@),
            Err(e) => rebuilt_cert(packets@) == Err::<Seq<u8>, RebuildErrorView>(e@),
        },
{
    let pile = PacketPile::from_bytes(packets).map_err(|e| RebuildError::Rebuild(e.to_string()))?;
    let cert = PgpCert::from_packets(pile.into_children()).map_err(|e| RebuildError::Rebuild(e.to_string()))?;
    cert.to_vec().map_err(|e| RebuildError::Serialize(e.to_string()))
}

/// This was made of a text in standard base64: the data that it stands for, and
/// nothing where it stands for none.
pub open spec fn is_decoding(text: Seq<char>, decoded: Result<Seq<u8>, Seq<char>>) -> bool {
    match decoded {
        Ok(bytes) => base64_text(bytes) == text && forall|data: Seq<u8>| #[trigger]
            base64_text(data) == text ==> data == bytes,
        Err(_) => forall|data: Seq<u8>| #[trigger] base64_text(data) != text,
    }
}

/// Calls `base64::engine::general_purpose::STANDARD.decode`: the data of which
/// the text is the base64, with padding and without stray bits; an error where
/// there is none. The error is a function of the text.
#[verifier::external_body]
fn decode_base64(text: &str) -> (r: Result<Vec<u8>, String>)
    ensures
        match r {
            Ok(bytes) => base64_decoded(text@) == Ok::<Seq<u8>, Seq<char>>(bytes@) && is_decoding(
                text@,
                Ok(bytes@),
            ),
            Err(e) => base64_decoded(text@) == Err::<Seq<u8>, Seq<char>>(e@) && is_decoding(
                text@,
                Err(e@),
            ),
        },
{
    base64::engine::general_purpose::STANDARD.decode(text).map_err(|e| e.to_string())
}

// ---------------------------------------------------------------------
// Certificates
// ---------------------------------------------------------------------

/// Bytes that parse as a certificate.
#[derive(Debug)]
pub struct Cert {
    material: Vec<u8>,
    fingerprint: String,
}

impl View for Cert {
    type V = Seq<u8>;

    closed spec fn view(&self) -> Seq<u8> {
        self.material@
    }
}

impl Cert {
    #[verifier::type_invariant]
    spec fn parsed(self) -> bool {
        cert_fingerprint(self.material@) == Ok::<Seq<char>, Seq<char>>(self.fingerprint@)
    }

    /// The User IDs of the certificate, bound or not.
    pub fn userids(&self) -> (r: Result<Vec<UserId>, KeyError>)
        ensures
            match r {
                Ok(ids) => cert_user_ids(self@) == Ok::<Seq<UserIdView>, Seq<char>>(
                    user_id_views(ids@),
                ),
                Err(e) => e is ParseFailed && cert_user_ids(self@) == Err::<
                    Seq<UserIdView>,
                    Seq<char>,
                >(e->ParseFailed_0@),
            },
    {
        match read_user_ids(self.material.as_slice()) {
            Ok(ids) => Ok(ids),
            Err(e) => Err(KeyError::ParseFailed(e)),
        }
    }

    /// Whether the certificate comes with secret key material.
    pub fn is_tsk(&self) -> (r: bool)
        ensures
            cert_is_tsk(self@) == Ok::<bool, Seq<char>>(r),
    {
        proof {
            use_type_invariant(self);
        }
        match read_is_tsk(self.material.as_slice()) {
            Ok(secret) => secret,
            Err(_) => false,
        }
    }
}

/// Parses an uploaded key, armored or binary.
pub fn parse_cert(bytes: &[u8]) -> (r: Result<Cert, KeyError>)
    ensures
        match r {
            Ok(cert) => cert@ == bytes@ && cert_fingerprint(bytes@) is Ok,
            Err(e) => e is ParseFailed && cert_fingerprint(bytes@) == Err::<Seq<char>, Seq<char>>(
                e->ParseFailed_0@,
            ),
        },
        is_bare_base64(bytes@) ==> r is Err,
        opens_armor(bytes@, cert_fingerprint(bytes@)),
{
    match read_fingerprint(bytes) {
        Ok(fingerprint) => Ok(Cert { material: slice_to_vec(bytes), fingerprint }),
        Err(e) => Err(KeyError::ParseFailed(e)),
    }
}

/// The fingerprint of the primary key, in hexadecimal.
pub fn fingerprint_hex(cert: &Cert) -> (r: String)
    ensures
        cert_fingerprint(cert@) == Ok::<Seq<char>, Seq<char>>(r@),
{
    proof {
        use_type_invariant(cert);
    }
    cert.fingerprint.clone()
}

/// What is parsed of a text that was submitted as a key: the text itself if it
/// is a key, else what it stands for in base64; or why there is none.
pub open spec fn submitted_material(text: Seq<char>) -> Result<Seq<u8>, Seq<char>> {
    let plain = encode_utf8(trimmed(text));
    if cert_fingerprint(plain) is Ok {
        Ok(plain)
    } else {
        decoded_outcome(base64_decoded(trimmed(text)))
    }
}

/// What is parsed of a text that is no key itself, given its decoding.
pub open spec fn decoded_outcome(decoded: Result<Seq<u8>, Seq<char>>) -> Result<
    Seq<u8>,
    Seq<char>,
> {
    match decoded {
        Err(e) => Err("key is neither valid OpenPGP armor nor valid base64: "@ + e),
        Ok(bytes) => match cert_fingerprint(bytes) {
            Ok(_) => Ok(bytes),
            Err(e) => Err(e),
        },
    }
}

/// Parses the decoding of a text that is no key itself.
pub fn parse_decoded(decoded: Result<Vec<u8>, String>) -> (r: Result<Cert, KeyError>)
    ensures
        match r {
            Ok(cert) => decoded is Ok && cert@ == decoded->Ok_0@ && cert_fingerprint(cert@) is Ok,
            Err(e) => match decoded {
                Err(m) => e@ == KeyErrorView::ParseFailed(
                    "key is neither valid OpenPGP armor nor valid base64: "@ + m@,
                ),
                Ok(bytes) => e is ParseFailed && cert_fingerprint(bytes@) == Err::<
                    Seq<char>,
                    Seq<char>,
                >(e->ParseFailed_0@),
            },
        },
{
    match decoded {
        Ok(bytes) => parse_cert(bytes.as_slice()),
        Err(m) => Err(
            KeyError::ParseFailed(
                "key is neither valid OpenPGP armor nor valid base64: ".to_owned().concat(m.as_str()),
            ),
        ),
    }
}

/// The text, white space around it apart, is binary key material in base64 or
/// in ASCII armor.
pub open spec fn carries_key(text: Seq<char>, data: Seq<u8>) -> bool {
    ||| trimmed(text) == base64_text(data)
    ||| is_armor_of(trimmed(text), data) && starts_with_key(data)
}

/// Parses key material that was submitted as a text: armored, or binary
/// material in base64. A key that was written as such a text is read back.
pub fn parse_key_material(input: &str) -> (r: Result<Cert, KeyError>)
    ensures
        match r {
            Ok(cert) => submitted_material(input@) == Ok::<Seq<u8>, Seq<char>>(cert@)
                && cert_fingerprint(cert@) is Ok,
            Err(e) => e is ParseFailed && submitted_material(input@) == Err::<Seq<u8>, Seq<char>>(
                e->ParseFailed_0@,
            ),
        },
        forall|data: Seq<u8>| #[trigger]
            carries_key(input@, data) && cert_fingerprint(data) is Ok ==> r is Ok
                && cert_fingerprint(r->Ok_0@) == cert_fingerprint(data),
        forall|data: Seq<u8>| #[trigger]
            base64_text(data) == trimmed(input@) ==> submitted_material(input@) == (
            match cert_fingerprint(data) {
                Ok(_) => Ok::<Seq<u8>, Seq<char>>(data),
                Err(e) => Err(e),
            }),
{
    let text: &str = input.trim();
    proof {
        assert forall|data: Seq<u8>| #[trigger] base64_text(data) == text@ implies is_bare_base64(
            encode_utf8(text@),
        ) by {
            base64_text_is_base64(data);
            assert(all_base64(text@));
        }
    }
    match parse_cert(text.as_bytes()) {
        Ok(cert) => Ok(cert),
        Err(_) => {
            let decoded: Result<Vec<u8>, String> = decode_base64(text);
            parse_decoded(decoded)
        },
    }
}

/// White space around submitted key material does not count.
pub proof fn white_space_around_a_key_is_ignored(
    before: Seq<char>,
    text: Seq<char>,
    after: Seq<char>,
)
    requires
        all_white(before),
        all_white(after),
    ensures
        submitted_material(before + text + after) == submitted_material(text),
        forall|data: Seq<u8>| #[trigger]
            carries_key(before + text + after, data) == carries_key(text, data),
{
    trimming_ignores_white_space_around(before, text, after);
}

/// Binary key material in base64 or in ASCII armor, with white space around it,
/// is a text that carries that material.
pub proof fn written_key_is_carried(
    before: Seq<char>,
    text: Seq<char>,
    after: Seq<char>,
    data: Seq<u8>,
)
    requires
        all_white(before),
        all_white(after),
        text == base64_text(data) || is_armor_of(text, data) && starts_with_key(data),
    ensures
        carries_key(before + text + after, data),
{
    trimming_ignores_white_space_around(before, text, after);
    if text == base64_text(data) {
        base64_text_is_base64(data);
        base64_needs_no_trimming(text);
    } else {
        reveal_strlit("-----BEGIN PGP PUBLIC KEY BLOCK-----\n");
        reveal_strlit("-----END PGP PUBLIC KEY BLOCK-----");
        assert(text.first() == '-');
        assert(text.last() == '-');
        assert(trimmed(text) == text);
    }
}

// ---------------------------------------------------------------------
// Validation
// ---------------------------------------------------------------------

/// The second since 1970 at which certificates are judged. A time before 1970
/// counts as the start of 1970, one past the year 9999 as its last second.
pub open spec fn judged_at(now: int) -> int {
    if now < 0 {
        0
    } else if now > LAST_JUDGED_SECOND {
        LAST_JUDGED_SECOND as int
    } else {
        now
    }
}

fn judging_second(now: Timestamp) -> (r: u64)
    ensures
        r == judged_at(now.unix()),
        r <= LAST_JUDGED_SECOND,
{
    let secs: i64 = now.unix_secs();
    if secs < 0 {
        0
    } else if secs as u64 > LAST_JUDGED_SECOND {
        LAST_JUDGED_SECOND
    } else {
        secs as u64
    }
}

/// The mail address, if there is one, is this address up to the case of ASCII
/// letters.
pub open spec fn email_is(email: Option<Seq<char>>, address: Seq<char>) -> bool {
    match email {
        Some(email) => same_ignoring_case(email, address),
        None => false,
    }
}

/// A User ID is for an address if its mail address is.
pub open spec fn is_for_address(id: UserIdView, address: Seq<char>) -> bool {
    email_is(id.email, address)
}

/// Whether a User ID with this mail address is for an address.
pub fn userid_matches(email: &Option<String>, address: &str) -> (r: bool)
    ensures
        r == email_is(opt_text(*email), address@),
        r == (email is Some && ascii_lowered(email->0@) == ascii_lowered(address@)),
{
    match email {
        Some(email) => eq_ignore_ascii_case(email.as_str(), address),
        None => false,
    }
}

/// The position of the first User ID for an address, or the number of User IDs
/// if there is none.
pub open spec fn first_match(ids: Seq<UserIdView>, address: Seq<char>) -> int
    decreases ids.len(),
{
    if ids.len() == 0 || is_for_address(ids[0], address) {
        0
    } else {
        1 + first_match(ids.drop_first(), address)
    }
}

proof fn first_match_is_first(ids: Seq<UserIdView>, address: Seq<char>)
    ensures
        0 <= first_match(ids, address) <= ids.len(),
        first_match(ids, address) < ids.len() ==> is_for_address(
            ids[first_match(ids, address)],
            address,
        ),
        forall|i: int|
            0 <= i < first_match(ids, address) ==> !is_for_address(#[trigger] ids[i], address),
    decreases ids.len(),
{
    if ids.len() > 0 && !is_for_address(ids[0], address) {
        let rest = ids.drop_first();
        first_match_is_first(rest, address);
        assert forall|i: int| 0 <= i < first_match(ids, address) implies !is_for_address(
            #[trigger] ids[i],
            address,
        ) by {
            if i > 0 {
                assert(rest[i - 1] == ids[i]);
            }
        }
    }
}

/// Finds the first User ID for an address.
pub fn find_user_id(ids: &Vec<UserId>, address: &str) -> (r: Option<usize>)
    ensures
        match r {
            Some(i) => i < ids@.len() && i == first_match(user_id_views(ids@), address@),
            None => first_match(user_id_views(ids@), address@) == ids@.len(),
        },
{
    let ghost views = user_id_views(ids@);
    proof {
        first_match_is_first(views, address@);
    }
    let mut i: usize = 0;
    while i < ids.len()
        invariant
            i <= ids@.len(),
            views == user_id_views(ids@),
            i <= first_match(views, address@) <= views.len(),
            first_match(views, address@) < views.len() ==> is_for_address(
                views[first_match(views, address@)],
                address@,
            ),
            forall|j: int|
                0 <= j < first_match(views, address@) ==> !is_for_address(
                    #[trigger] views[j],
                    address@,
                ),
        decreases ids@.len() - i,
    {
        let hit: bool = userid_matches(&ids[i].email, address);
        assert(views[i as int] == ids@[i as int]@);
        if hit {
            return Some(i);
        }
        i = i + 1;
    }
    None
}

/// The message for a key that has expired.
pub open spec fn expired_message(expiry: int) -> Seq<char> {
    "the key expired at "@ + rfc3339_of(expiry)
}

/// Whether a certificate is accepted for an address, given its primary key and
/// its User IDs as the policy sees them: the primary key has to be valid and
/// not expired, and some valid User ID has to be for the address.
pub open spec fn validation_outcome(
    primary: Result<PrimaryView, Seq<char>>,
    ids: Result<Seq<UserIdView>, Seq<char>>,
    address: Seq<char>,
    now: int,
) -> Result<(), KeyErrorView> {
    match primary {
        Err(e) => Err(KeyErrorView::InvalidPrimaryKey(e)),
        Ok(key) => if key.expires_at is Some && key.expires_at->0 <= now {
            Err(KeyErrorView::Expired(expired_message(key.expires_at->0 as int)))
        } else {
            match ids {
                Err(e) => Err(KeyErrorView::InvalidPrimaryKey(e)),
                Ok(list) => if first_match(list, address) < list.len() {
                    Ok(())
                } else {
                    Err(KeyErrorView::NoMatchingUserId(address))
                },
            }
        },
    }
}

/// The result of reading a primary key as mathematical values.
pub open spec fn primary_result(r: Result<PrimaryPart, String>) -> Result<PrimaryView, Seq<char>> {
    match r {
        Ok(p) => Ok(p@),
        Err(e) => Err(e@),
    }
}

/// The result of reading User IDs as mathematical values.
pub open spec fn user_ids_result(r: Result<Vec<UserId>, String>) -> Result<
    Seq<UserIdView>,
    Seq<char>,
> {
    match r {
        Ok(v) => Ok(user_id_views(v@)),
        Err(e) => Err(e@),
    }
}

/// The outcome of a check as mathematical values.
pub open spec fn check_view(r: Result<(), KeyError>) -> Result<(), KeyErrorView> {
    match r {
        Ok(_) => Ok(()),
        Err(e) => Err(e@),
    }
}

/// Decides whether a certificate is accepted for an address, given what the
/// policy sees of it. An expiration time that no `Timestamp` can hold is none
/// that a certificate can have.
pub fn check_for_address(
    primary: &Result<PrimaryPart, String>,
    ids: &Result<Vec<UserId>, String>,
    address: &str,
    now: Timestamp,
) -> (r: Result<(), KeyError>)
    requires
        primary matches Ok(p) ==> (p.expires_at matches Some(e) ==> 0 <= e <= MAX_UNIX_SECS),
    ensures
        check_view(r) == validation_outcome(
            primary_result(*primary),
            user_ids_result(*ids),
            address@,
            now.unix(),
        ),
{
    let key: &PrimaryPart = match primary {
        Ok(key) => key,
        Err(e) => {
            return Err(KeyError::InvalidPrimaryKey(e.clone()));
        },
    };
    if let Some(secs) = key.expires_at {
        if secs <= now.unix_secs() {
            if let Some(expiry) = Timestamp::from_unix(secs) {
                let text: String = rfc3339_secs(expiry);
                return Err(KeyError::Expired("the key expired at ".to_owned().concat(text.as_str())));
            }
        }
    }
    match ids {
        Ok(list) => match find_user_id(list, address) {
            Some(_) => Ok(()),
            None => Err(KeyError::NoMatchingUserId(address.to_owned())),
        },
        Err(e) => Err(KeyError::InvalidPrimaryKey(e.clone())),
    }
}

/// Checks that at time `now` the primary key of `cert` is valid and not
/// expired, and that `cert` has a valid User ID for `address`.
pub fn validate_for_address(cert: &Cert, address: &str, now: Timestamp) -> (r: Result<
    (),
    KeyError,
>)
    ensures
        check_view(r) == validation_outcome(
            valid_primary(cert@, judged_at(now.unix())),
            valid_user_ids(cert@, judged_at(now.unix())),
            address@,
            now.unix(),
        ),
        valid_primary(cert@, judged_at(now.unix())) is Ok ==> valid_user_ids(
            cert@,
            judged_at(now.unix()),
        ) is Ok,
{
    let at: u64 = judging_second(now);
    let primary: Result<PrimaryPart, String> = read_valid_primary(cert.material.as_slice(), at);
    let ids: Result<Vec<UserId>, String> = read_valid_user_ids(cert.material.as_slice(), at);
    check_for_address(&primary, &ids, address, now)
}

/// When the primary key of a certificate expires, given what the policy sees
/// of it.
pub open spec fn expiration_outcome(primary: Result<PrimaryView, Seq<char>>) -> Result<
    Option<int>,
    KeyErrorView,
> {
    match primary {
        Ok(key) => match key.expires_at {
            Some(secs) => Ok(Some(secs as int)),
            None => Ok(None),
        },
        Err(e) => Err(KeyErrorView::InvalidPrimaryKey(e)),
    }
}

/// An optional time as a number of seconds since 1970.
pub open spec fn expiration_view(r: Result<Option<Timestamp>, KeyError>) -> Result<
    Option<int>,
    KeyErrorView,
> {
    match r {
        Ok(Some(t)) => Ok(Some(t.unix())),
        Ok(None) => Ok(None),
        Err(e) => Err(e@),
    }
}

/// When the primary key of `cert` expires, as the policy sees it at time `now`;
/// `None` for a key that does not expire.
pub fn expiration_time(cert: &Cert, now: Timestamp) -> (r: Result<Option<Timestamp>, KeyError>)
    ensures
        expiration_view(r) == expiration_outcome(valid_primary(cert@, judged_at(now.unix()))),
        r matches Ok(Some(t)) ==> has_four_digit_year(t.unix()),
{
    match read_valid_primary(cert.material.as_slice(), judging_second(now)) {
        Ok(key) => match key.expires_at {
            Some(secs) => Ok(Timestamp::from_unix(secs)),
            None => Ok(None),
        },
        Err(e) => Err(KeyError::InvalidPrimaryKey(e)),
    }
}

/// Whether a certificate counts as revoked, given its state: its primary key is
/// revoked, or one of its User IDs. What cannot be read counts as revoked.
pub open spec fn revoked_outcome(state: Result<RevocationView, Seq<char>>) -> bool {
    match state {
        Ok(r) => r.primary || r.user_ids.contains(true),
        Err(_) => true,
    }
}

/// The result of reading the revocation state as mathematical values.
pub open spec fn revocation_result(r: Result<Revocation, String>) -> Result<
    RevocationView,
    Seq<char>,
> {
    match r {
        Ok(s) => Ok(s@),
        Err(e) => Err(e@),
    }
}

/// Decides whether a certificate counts as revoked, given its state.
pub fn counts_as_revoked(state: &Result<Revocation, String>) -> (r: bool)
    ensures
        r == revoked_outcome(revocation_result(*state)),
{
    match state {
        Ok(s) => {
            if s.primary {
                return true;
            }
            let mut i: usize = 0;
            while i < s.user_ids.len()
                invariant
                    i <= s.user_ids@.len(),
                    revocation_result(*state) == Ok::<RevocationView, Seq<char>>(s@),
                    forall|j: int| 0 <= j < i ==> !(#[trigger] s.user_ids@[j]),
                decreases s.user_ids@.len() - i,
            {
                if s.user_ids[i] {
                    assert(s@.user_ids[i as int] == true);
                    return true;
                }
                i = i + 1;
            }
            false
        },
        Err(_) => true,
    }
}

/// Whether a minimized key is revoked at time `now`: its primary key, or its
/// User ID.
pub fn is_revoked(minimized: &[u8], now: Timestamp) -> (r: bool)
    ensures
        r == revoked_outcome(revocation_at(minimized@, judged_at(now.unix()))),
{
    let state: Result<Revocation, String> = read_revocation(minimized, judging_second(now));
    counts_as_revoked(&state)
}

// ---------------------------------------------------------------------
// Minimization
// ---------------------------------------------------------------------

fn push_packet(out: &mut Vec<u8>, packet: &Vec<u8>, Ghost(list): Ghost<Seq<Seq<u8>>>)
    requires
        old(out)@ == joined(list),
    ensures
        final(out)@ == joined(list.push(packet@)),
{
    let mut copy: Vec<u8> = slice_to_vec(packet.as_slice());
    out.append(&mut copy);
    assert(list.push(packet@).drop_last() == list);
}

fn push_packets(out: &mut Vec<u8>, packets: &Vec<Vec<u8>>, Ghost(list): Ghost<Seq<Seq<u8>>>)
    requires
        old(out)@ == joined(list),
    ensures
        final(out)@ == joined(list + byte_lists(packets@)),
{
    let ghost more = byte_lists(packets@);
    let mut i: usize = 0;
    assert(list + more.take(0) == list);
    while i < packets.len()
        invariant
            i <= packets@.len(),
            more == byte_lists(packets@),
            out@ == joined(list + more.take(i as int)),
        decreases packets@.len() - i,
    {
        push_packet(out, &packets[i], Ghost(list + more.take(i as int)));
        i = i + 1;
        assert((list + more.take(i - 1)).push(more[i - 1]) == list + more.take(i as int));
    }
    assert(more.take(i as int) == more);
}

fn push_signatures(
    out: &mut Vec<u8>,
    signatures: &OwnSignatures,
    Ghost(list): Ghost<Seq<Seq<u8>>>,
)
    requires
        old(out)@ == joined(list),
    ensures
        final(out)@ == joined(
            list + seq![signatures@.binding] + signatures@.revocations,
        ),
{
    push_packet(out, &signatures.binding, Ghost(list));
    assert(list.push(signatures.binding@) == list + seq![signatures@.binding]);
    push_packets(out, &signatures.revocations, Ghost(list.push(signatures.binding@)));
}

/// Writes the packets of a primary key, one User ID and the subkeys, in the
/// order of a certificate.
pub fn select_packets(
    primary: &PrimaryPart,
    revocations: &Vec<Vec<u8>>,
    user_id: &UserId,
    signatures: &OwnSignatures,
    subkeys: &Vec<SubkeyPart>,
) -> (r: Vec<u8>)
    ensures
        r@ == joined(
            minimal_packets(
                (SelectionView {
                    primary: primary@,
                    revocations: byte_lists(revocations@),
                    user_id: user_id@,
                    signatures: signatures@,
                    subkeys: subkey_views(subkeys@),
                }),
            ),
        ),
{
    let mut out: Vec<u8> = Vec::new();
    let ghost mut list: Seq<Seq<u8>> = seq![];
    push_packet(&mut out, &primary.packet, Ghost(list));
    proof {
        list = list.push(primary.packet@);
    }
    push_packets(&mut out, revocations, Ghost(list));
    proof {
        list = list + byte_lists(revocations@);
    }
    push_packet(&mut out, &user_id.packet, Ghost(list));
    proof {
        list = list.push(user_id.packet@);
    }
    push_signatures(&mut out, signatures, Ghost(list));
    proof {
        list = list + seq![signatures@.binding] + signatures@.revocations;
        assert(list == seq![primary@.packet] + byte_lists(revocations@) + seq![
            user_id@.packet,
            signatures@.binding,
        ] + signatures@.revocations);
    }
    let ghost head = list;
    let ghost views = subkey_views(subkeys@);
    let mut i: usize = 0;
    assert(head + subkey_packets(views.take(0)) == head);
    while i < subkeys.len()
        invariant
            i <= subkeys@.len(),
            views == subkey_views(subkeys@),
            list == head + subkey_packets(views.take(i as int)),
            out@ == joined(list),
        decreases subkeys@.len() - i,
    {
        push_packet(&mut out, &subkeys[i].packet, Ghost(list));
        proof {
            list = list.push(subkeys@[i as int].packet@);
        }
        push_signatures(&mut out, &subkeys[i].signatures, Ghost(list));
        proof {
            let k = views[i as int];
            list = list + seq![k.signatures.binding] + k.signatures.revocations;
            assert(views.take(i + 1).drop_last() == views.take(i as int));
            assert(views.take(i + 1).last() == k);
            assert(list == head + (subkey_packets(views.take(i as int)) + seq![
                k.packet,
                k.signatures.binding,
            ] + k.signatures.revocations));
        }
        i = i + 1;
    }
    assert(views.take(i as int) == views);
    out
}

/// Why nothing is published of a certificate for an address, given what the
/// policy sees of it; `None` if something is.
pub open spec fn refusal(
    primary: Result<PrimaryView, Seq<char>>,
    ids: Result<Seq<UserIdView>, Seq<char>>,
    address: Seq<char>,
) -> Option<KeyErrorView> {
    match (primary, ids) {
        (Err(e), _) => Some(KeyErrorView::InvalidPrimaryKey(e)),
        (_, Err(e)) => Some(KeyErrorView::InvalidPrimaryKey(e)),
        (Ok(_), Ok(list)) => if first_match(list, address) >= list.len() {
            Some(KeyErrorView::NoMatchingUserId(address))
        } else {
            None
        },
    }
}

/// Selects what to publish for an address, given what the policy sees of the
/// certificate: the primary key, and the first User ID for the address with its
/// position.
pub fn select_user_id<'a>(
    primary: &'a Result<PrimaryPart, String>,
    ids: &'a Result<Vec<UserId>, String>,
    address: &str,
) -> (r: Result<(&'a PrimaryPart, &'a UserId, usize), KeyError>)
    ensures
        match r {
            Ok((key, id, i)) => {
                &&& refusal(primary_result(*primary), user_ids_result(*ids), address@) is None
                &&& primary_result(*primary) == Ok::<PrimaryView, Seq<char>>(key@)
                &&& i == first_match(user_ids_result(*ids)->Ok_0, address@)
                &&& id@ == user_ids_result(*ids)->Ok_0[i as int]
            },
            Err(e) => refusal(primary_result(*primary), user_ids_result(*ids), address@) == Some(
                e@,
            ),
        },
{
    let key: &PrimaryPart = match primary {
        Ok(key) => key,
        Err(e) => {
            return Err(KeyError::InvalidPrimaryKey(e.clone()));
        },
    };
    match ids {
        Ok(list) => match find_user_id(list, address) {
            Some(i) => Ok((key, &list[i], i)),
            None => Err(KeyError::NoMatchingUserId(address.to_owned())),
        },
        Err(e) => Err(KeyError::InvalidPrimaryKey(e.clone())),
    }
}

/// The result of reading self-revocations as mathematical values.
pub open spec fn revocations_result(r: Result<Vec<Vec<u8>>, String>) -> Result<
    Seq<Seq<u8>>,
    Seq<char>,
> {
    match r {
        Ok(v) => Ok(byte_lists(v@)),
        Err(e) => Err(e@),
    }
}

/// The result of reading signatures as mathematical values.
pub open spec fn signatures_result(r: Result<OwnSignatures, String>) -> Result<
    SignaturesView,
    Seq<char>,
> {
    match r {
        Ok(v) => Ok(v@),
        Err(e) => Err(e@),
    }
}

/// The result of reading subkeys as mathematical values.
pub open spec fn subkeys_result(r: Result<Vec<SubkeyPart>, String>) -> Result<
    Seq<SubkeyView>,
    Seq<char>,
> {
    match r {
        Ok(v) => Ok(subkey_views(v@)),
        Err(e) => Err(e@),
    }
}

/// What was read of the signatures of a certificate, of one of its User IDs and
/// of its subkeys.
pub struct ReadingView {
    pub revocations: Result<Seq<Seq<u8>>, Seq<char>>,
    pub signatures: Result<SignaturesView, Seq<char>>,
    pub subkeys: Result<Seq<SubkeyView>, Seq<char>>,
}

/// The error for a signature that cannot be written.
pub open spec fn unwritten(e: Seq<char>) -> KeyErrorView {
    KeyErrorView::ParseFailed("failed to serialize minimized cert: "@ + e)
}

/// What is selected, given the primary key, the User ID and what was read of
/// their signatures and of the subkeys.
pub open spec fn selected(
    primary: PrimaryView,
    user_id: UserIdView,
    reading: ReadingView,
) -> Result<SelectionView, KeyErrorView> {
    match (reading.revocations, reading.signatures, reading.subkeys) {
        (Err(e), _, _) => Err(unwritten(e)),
        (_, Err(e), _) => Err(unwritten(e)),
        (_, _, Err(e)) => Err(unwritten(e)),
        (Ok(revocations), Ok(signatures), Ok(subkeys)) => Ok(
            SelectionView { primary, revocations, user_id, signatures, subkeys },
        ),
    }
}

/// The packets of what was selected.
pub open spec fn selected_packets(selection: Result<SelectionView, KeyErrorView>) -> Result<
    Seq<u8>,
    KeyErrorView,
> {
    match selection {
        Ok(s) => Ok(joined(minimal_packets(s))),
        Err(e) => Err(e),
    }
}

/// The outcome of making bytes as mathematical values.
pub open spec fn bytes_view(r: Result<Vec<u8>, KeyError>) -> Result<Seq<u8>, KeyErrorView> {
    match r {
        Ok(b) => Ok(b@),
        Err(e) => Err(e@),
    }
}

/// Writes the packets to publish, given the primary key, the User ID and what
/// was read of their signatures and of the subkeys.
pub fn select_for_publication(
    primary: &PrimaryPart,
    user_id: &UserId,
    revocations: &Result<Vec<Vec<u8>>, String>,
    signatures: &Result<OwnSignatures, String>,
    subkeys: &Result<Vec<SubkeyPart>, String>,
) -> (r: Result<Vec<u8>, KeyError>)
    ensures
        bytes_view(r) == selected_packets(
            selected(
                primary@,
                user_id@,
                (ReadingView {
                    revocations: revocations_result(*revocations),
                    signatures: signatures_result(*signatures),
                    subkeys: subkeys_result(*subkeys),
                }),
            ),
        ),
{
    match (revocations, signatures, subkeys) {
        (Ok(revocations), Ok(signatures), Ok(subkeys)) => Ok(
            select_packets(primary, revocations, user_id, signatures, subkeys),
        ),
        (Err(e), _, _) => Err(
            KeyError::ParseFailed("failed to serialize minimized cert: ".to_owned().concat(e.as_str())),
        ),
        (_, Err(e), _) => Err(
            KeyError::ParseFailed("failed to serialize minimized cert: ".to_owned().concat(e.as_str())),
        ),
        (_, _, Err(e)) => Err(
            KeyError::ParseFailed("failed to serialize minimized cert: ".to_owned().concat(e.as_str())),
        ),
    }
}

/// What is published of the packets, given the certificate that they make.
pub open spec fn rebuild_outcome(rebuilt: Result<Seq<u8>, RebuildErrorView>) -> Result<
    Seq<u8>,
    KeyErrorView,
> {
    match rebuilt {
        Ok(bytes) => Ok(bytes),
        Err(RebuildErrorView::Rebuild(e)) => Err(
            KeyErrorView::ParseFailed("failed to rebuild minimized cert: "@ + e),
        ),
        Err(RebuildErrorView::Serialize(e)) => Err(
            KeyErrorView::ParseFailed("failed to serialize minimized cert: "@ + e),
        ),
    }
}

/// This may be read of the signatures of a certificate, of the first of its
/// valid User IDs for an address, and of its subkeys.
pub open spec fn may_read(
    material: Seq<u8>,
    at: int,
    address: Seq<char>,
    reading: ReadingView,
) -> bool {
    &&& primary_revocations_read_as(material, reading.revocations)
    &&& user_id_signatures_read_as(
        material,
        at,
        first_match(valid_user_ids(material, at)->Ok_0, address),
        reading.signatures,
    )
    &&& subkeys_read_as(material, at, reading.subkeys)
}

/// What is selected of a certificate for an address, given what was read.
pub open spec fn selection_from(
    material: Seq<u8>,
    at: int,
    address: Seq<char>,
    reading: ReadingView,
) -> Result<SelectionView, KeyErrorView> {
    let ids = valid_user_ids(material, at)->Ok_0;
    selected(valid_primary(material, at)->Ok_0, ids[first_match(ids, address)], reading)
}

/// This is what comes of writing out a selection that was made at this second:
/// a certificate that holds the selection and, if its signatures last, reads
/// back as the selection; or an error.
pub open spec fn is_written(s: SelectionView, at: int, r: Result<Seq<u8>, KeyErrorView>) -> bool {
    &&& r == rebuild_outcome(rebuilt_cert(joined(minimal_packets(s))))
    &&& r matches Ok(bytes) ==> holds_selection(bytes, s) && (has_lasting_signatures(s)
        ==> reads_back(bytes, at, s))
}

/// This may come of minimizing a certificate for an address at a time.
pub open spec fn may_minimize_to(
    material: Seq<u8>,
    address: Seq<char>,
    now: int,
    r: Result<Seq<u8>, KeyErrorView>,
) -> bool {
    let at = judged_at(now);
    match refusal(valid_primary(material, at), valid_user_ids(material, at), address) {
        Some(e) => r == Err::<Seq<u8>, KeyErrorView>(e),
        None => exists|reading: ReadingView| #[trigger]
            may_read(material, at, address, reading) && (match selection_from(
                material,
                at,
                address,
                reading,
            ) {
                Ok(s) => is_written(s, at, r),
                Err(e) => r == Err::<Seq<u8>, KeyErrorView>(e),
            }),
    }
}

/// The bytes are a certificate with this fingerprint and with a single User ID,
/// which is for the address, and without secret key material.
pub open spec fn is_minimized_for(bytes: Seq<u8>, fingerprint: Seq<char>, address: Seq<char>) -> bool {
    &&& cert_fingerprint(bytes) == Ok::<Seq<char>, Seq<char>>(fingerprint)
    &&& cert_user_ids(bytes) is Ok
    &&& cert_user_ids(bytes)->Ok_0.len() == 1
    &&& is_for_address(cert_user_ids(bytes)->Ok_0[0], address)
    &&& !holds_secret(bytes)
}

/// Produces the minimized export of `cert` for `address`, as the policy sees
/// it at time `now`: the primary key, the first valid User ID for the address,
/// and the valid subkeys, with their binding signatures and self-revocations.
/// No other User ID, no certification by another key and no secret key material
/// is in it.
pub fn minimize_for_address(cert: &Cert, address: &str, now: Timestamp) -> (r: Result<
    Vec<u8>,
    KeyError,
>)
    ensures
        may_minimize_to(cert@, address@, now.unix(), bytes_view(r)),
        r matches Ok(bytes) ==> cert_fingerprint(cert@) is Ok && is_minimized_for(
            bytes@,
            cert_fingerprint(cert@)->Ok_0,
            address@,
        ),
{
    let at: u64 = judging_second(now);
    let primary: Result<PrimaryPart, String> = read_valid_primary(cert.material.as_slice(), at);
    let ids: Result<Vec<UserId>, String> = read_valid_user_ids(cert.material.as_slice(), at);
    let (key, id, i): (&PrimaryPart, &UserId, usize) = select_user_id(&primary, &ids, address)?;
    proof {
        first_match_is_first(user_ids_result(ids)->Ok_0, address@);
    }
    let revocations: Result<Vec<Vec<u8>>, String> = read_primary_revocations(
        cert.material.as_slice(),
    );
    let signatures: Result<OwnSignatures, String> = read_user_id_signatures(
        cert.material.as_slice(),
        at,
        i,
    );
    let subkeys: Result<Vec<SubkeyPart>, String> = read_valid_subkeys(cert.material.as_slice(), at);
    let ghost reading = ReadingView {
        revocations: revocations_result(revocations),
        signatures: signatures_result(signatures),
        subkeys: subkeys_result(subkeys),
    };
    assert(may_read(cert@, at as int, address@, reading));
    let packets: Vec<u8> = select_for_publication(key, id, &revocations, &signatures, &subkeys)?;
    let ghost s = selected(key@, id@, reading)->Ok_0;
    proof {
        assert(user_id_signatures_read_as(cert@, at as int, i as int, Ok(s.signatures)));
        assert(is_selection(cert@, at as int, s));
    }
    match rebuild_cert(packets.as_slice()) {
        Ok(bytes) => {
            assert(is_written(s, at as int, Ok(bytes@)));
            Ok(bytes)
        },
        Err(RebuildError::Rebuild(e)) => {
            let message: String = "failed to rebuild minimized cert: ".to_owned().concat(e.as_str());
            assert(is_written(s, at as int, Err(KeyErrorView::ParseFailed(message@))));
            Err(KeyError::ParseFailed(message))
        },
        Err(RebuildError::Serialize(e)) => {
            let message: String = "failed to serialize minimized cert: ".to_owned().concat(
                e.as_str(),
            );
            assert(is_written(s, at as int, Err(KeyErrorView::ParseFailed(message@))));
            Err(KeyError::ParseFailed(message))
        },
    }
}

/// Where a certificate has no valid User ID for the address, nothing is
/// published of it.
pub proof fn nothing_is_published_for_another_address(
    material: Seq<u8>,
    address: Seq<char>,
    now: int,
    r: Result<Seq<u8>, KeyErrorView>,
)
    requires
        may_minimize_to(material, address, now, r),
        valid_primary(material, judged_at(now)) is Ok,
        valid_user_ids(material, judged_at(now)) is Ok,
        forall|i: int|
            0 <= i < valid_user_ids(material, judged_at(now))->Ok_0.len() ==> !is_for_address(
                #[trigger] valid_user_ids(material, judged_at(now))->Ok_0[i],
                address,
            ),
    ensures
        r == Err::<Seq<u8>, KeyErrorView>(KeyErrorView::NoMatchingUserId(address)),
{
    first_match_is_first(valid_user_ids(material, judged_at(now))->Ok_0, address);
}

/// However a certificate is read, what is selected of it for an address has
/// lasting signatures.
pub open spec fn selects_lasting_signatures(
    material: Seq<u8>,
    at: int,
    address: Seq<char>,
) -> bool {
    forall|reading: ReadingView| #[trigger]
        may_read(material, at, address, reading) ==> (selection_from(
            material,
            at,
            address,
            reading,
        ) matches Ok(s) ==> has_lasting_signatures(s))
}

/// What was read for a minimized key.
proof fn reading_behind(material: Seq<u8>, address: Seq<char>, now: int, bytes: Seq<u8>) -> (r:
    ReadingView)
    requires
        may_minimize_to(material, address, now, Ok(bytes)),
    ensures
        may_read(material, judged_at(now), address, r),
        selection_from(material, judged_at(now), address, r) matches Ok(s) && is_written(
            s,
            judged_at(now),
            Ok(bytes),
        ) && is_for_address(s.user_id, address),
{
    let at = judged_at(now);
    first_match_is_first(valid_user_ids(material, at)->Ok_0, address);
    choose|reading: ReadingView| #[trigger]
        may_read(material, at, address, reading) && (match selection_from(
            material,
            at,
            address,
            reading,
        ) {
            Ok(s) => is_written(s, at, Ok(bytes)),
            Err(e) => Ok::<Seq<u8>, KeyErrorView>(bytes) == Err::<Seq<u8>, KeyErrorView>(e),
        })
}

/// A minimized key is still valid for its address. At the time of its making the
/// same primary key is valid, the first valid User ID for the address is now the
/// only one, and the key is accepted for the address, unless the signature that
/// binds the User ID lets it have expired.
pub proof fn minimized_key_is_valid(
    material: Seq<u8>,
    address: Seq<char>,
    now: int,
    bytes: Seq<u8>,
)
    requires
        may_minimize_to(material, address, now, Ok(bytes)),
        selects_lasting_signatures(material, judged_at(now), address),
    ensures
        valid_primary(material, judged_at(now)) is Ok,
        valid_primary(bytes, judged_at(now)) is Ok,
        valid_primary(bytes, judged_at(now))->Ok_0.fingerprint == valid_primary(
            material,
            judged_at(now),
        )->Ok_0.fingerprint,
        valid_primary(bytes, judged_at(now))->Ok_0.packet == valid_primary(
            material,
            judged_at(now),
        )->Ok_0.packet,
        valid_user_ids(material, judged_at(now)) matches Ok(ids) && valid_user_ids(
            bytes,
            judged_at(now),
        ) == Ok::<Seq<UserIdView>, Seq<char>>(seq![ids[first_match(ids, address)]]),
        validation_outcome(
            valid_primary(bytes, judged_at(now)),
            valid_user_ids(bytes, judged_at(now)),
            address,
            now,
        ) == (match valid_primary(bytes, judged_at(now))->Ok_0.expires_at {
            Some(expiry) if expiry <= now => Err::<(), KeyErrorView>(
                KeyErrorView::Expired(expired_message(expiry as int)),
            ),
            _ => Ok(()),
        }),
{
    let reading = reading_behind(material, address, now, bytes);
    let s = selection_from(material, judged_at(now), address, reading)->Ok_0;
    assert(first_match(seq![s.user_id], address) == 0);
}

/// However a minimized key is read, its subkeys and its signatures are those of
/// one reading of the certificate: the self-revocations of the primary key, the
/// binding signature and the self-revocations of the User ID, and the valid
/// subkeys with theirs.
pub proof fn signatures_are_read_back(
    material: Seq<u8>,
    address: Seq<char>,
    now: int,
    bytes: Seq<u8>,
)
    requires
        may_minimize_to(material, address, now, Ok(bytes)),
        selects_lasting_signatures(material, judged_at(now), address),
    ensures
        exists|first: ReadingView| #[trigger]
            may_read(material, judged_at(now), address, first) && forall|again: ReadingView|
                #[trigger]
                may_read(bytes, judged_at(now), address, again) ==> again == first,
{
    let at = judged_at(now);
    let first = reading_behind(material, address, now, bytes);
    minimized_key_is_valid(material, address, now, bytes);
    let s = selection_from(material, at, address, first)->Ok_0;
    assert(first_match(seq![s.user_id], address) == 0);
    assert forall|again: ReadingView| #[trigger] may_read(bytes, at, address, again) implies again
        == first by {
        assert(again.revocations == first.revocations);
        assert(again.signatures == first.signatures);
        assert(again.subkeys == first.subkeys);
    }
}

/// Minimizing a minimized key again, for the same address at the same time,
/// gives the same bytes.
pub proof fn minimizing_again_changes_nothing(
    material: Seq<u8>,
    address: Seq<char>,
    now: int,
    bytes: Seq<u8>,
    again: Result<Seq<u8>, KeyErrorView>,
)
    requires
        may_minimize_to(material, address, now, Ok(bytes)),
        selects_lasting_signatures(material, judged_at(now), address),
        may_minimize_to(bytes, address, now, again),
    ensures
        again == Ok::<Seq<u8>, KeyErrorView>(bytes),
{
    let at = judged_at(now);
    let first = reading_behind(material, address, now, bytes);
    let s = selection_from(material, at, address, first)->Ok_0;
    minimized_key_is_valid(material, address, now, bytes);
    assert(first_match(seq![s.user_id], address) == 0);
    let reading = choose|reading: ReadingView| #[trigger]
        may_read(bytes, at, address, reading) && (match selection_from(bytes, at, address, reading) {
            Ok(t) => is_written(t, at, again),
            Err(e) => again == Err::<Seq<u8>, KeyErrorView>(e),
        });
    assert(reading.revocations == Ok::<Seq<Seq<u8>>, Seq<char>>(s.revocations));
    assert(reading.signatures == Ok::<SignaturesView, Seq<char>>(s.signatures));
    assert(reading.subkeys == Ok::<Seq<SubkeyView>, Seq<char>>(s.subkeys));
    let t = selection_from(bytes, at, address, reading)->Ok_0;
    assert(minimal_packets(t) == minimal_packets(s));
}

// ---------------------------------------------------------------------
// Laws on what is accepted
// ---------------------------------------------------------------------

/// A User ID is for an address only with all of the address: its mail address has
/// the same length and, the case of ASCII letters apart, the same character at
/// every place, in the local part and in the domain.
pub proof fn user_id_is_for_the_whole_address(id: UserIdView, address: Seq<char>)
    ensures
        is_for_address(id, address) == email_is(id.email, address),
        email_is(id.email, address) <==> id.email is Some && id.email->0.len() == address.len()
            && forall|i: int|
            0 <= i < address.len() ==> {
                ||| (#[trigger] id.email->0[i]) == address[i]
                ||| 65 <= id.email->0[i] as int <= 90 && address[i] as int == id.email->0[i] as int
                    + 32
                ||| 65 <= address[i] as int <= 90 && id.email->0[i] as int == address[i] as int
                    + 32
            },
        email_is(id.email, address) <==> id.email is Some && ascii_lowered(id.email->0)
            == ascii_lowered(address),
{
    if id.email is Some {
        same_ignoring_case_at_every_place(id.email->0, address);
    }
}

/// The User ID that is chosen for an address is the first of all with that address;
/// where there is none, no User ID has it.
pub proof fn first_user_id_with_the_address_is_chosen(ids: Seq<UserIdView>, address: Seq<char>)
    ensures
        0 <= first_match(ids, address) <= ids.len(),
        forall|i: int|
            0 <= i < first_match(ids, address) ==> !((#[trigger] ids[i]).email is Some
                && ascii_lowered(ids[i].email->0) == ascii_lowered(address)),
        first_match(ids, address) < ids.len() ==> {
            let email = ids[first_match(ids, address)].email;
            email is Some && ascii_lowered(email->0) == ascii_lowered(address)
        },
{
    first_match_is_first(ids, address);
    assert forall|i: int| 0 <= i < first_match(ids, address) implies !((
    #[trigger] ids[i]).email is Some && ascii_lowered(ids[i].email->0) == ascii_lowered(
        address,
    )) by {
        assert(!is_for_address(ids[i], address));
    }
}

/// A key that is accepted for an address has a valid primary key that has not
/// expired, and a valid User ID whose mail address is the address up to case; both
/// addresses then are published at one place.
pub proof fn accepted_key_is_for_the_address(
    primary: Result<PrimaryView, Seq<char>>,
    ids: Result<Seq<UserIdView>, Seq<char>>,
    address: Seq<char>,
    now: int,
) -> (i: int)
    requires
        validation_outcome(primary, ids, address, now) is Ok,
    ensures
        primary is Ok,
        primary->Ok_0.expires_at is Some ==> now < primary->Ok_0.expires_at->0,
        ids is Ok,
        0 <= i < ids->Ok_0.len(),
        ids->Ok_0[i].email is Some,
        ids->Ok_0[i].email->0.len() == address.len(),
        ascii_lowered(ids->Ok_0[i].email->0) == ascii_lowered(address),
        directory_entry(ids->Ok_0[i].email->0) == directory_entry(address),
{
    let list = ids->Ok_0;
    first_user_id_with_the_address_is_chosen(list, address);
    let i = first_match(list, address);
    directory_entry_ignores_case(list[i].email->0, address);
    user_id_is_for_the_whole_address(list[i], address);
    i
}

/// A key with a valid primary key that has not expired is accepted for the mail
/// address of every one of its valid User IDs, in any case of the letters.
pub proof fn key_is_accepted_for_each_of_its_addresses(
    primary: PrimaryView,
    ids: Seq<UserIdView>,
    i: int,
    address: Seq<char>,
    now: int,
)
    requires
        primary.expires_at is Some ==> now < primary.expires_at->0,
        0 <= i < ids.len(),
        ids[i].email is Some,
        ascii_lowered(ids[i].email->0) == ascii_lowered(address),
    ensures
        validation_outcome(Ok(primary), Ok(ids), address, now) == Ok::<(), KeyErrorView>(()),
        refusal(Ok(primary), Ok(ids), address) is None,
{
    first_user_id_with_the_address_is_chosen(ids, address);
}

/// A key is refused for the first of these that holds: its primary key is not
/// valid, it has expired, or none of its valid User IDs has the address.
pub proof fn refused_keys_are_told_apart(
    primary: PrimaryView,
    ids: Seq<UserIdView>,
    e: Seq<char>,
    any: Result<Seq<UserIdView>, Seq<char>>,
    address: Seq<char>,
    now: int,
)
    ensures
        validation_outcome(Err(e), any, address, now) == Err::<(), KeyErrorView>(
            KeyErrorView::InvalidPrimaryKey(e),
        ),
        primary.expires_at is Some && primary.expires_at->0 <= now ==> validation_outcome(
            Ok(primary),
            any,
            address,
            now,
        ) == Err::<(), KeyErrorView>(
            KeyErrorView::Expired("the key expired at "@ + rfc3339_of(primary.expires_at->0 as int)),
        ),
        !(primary.expires_at is Some && primary.expires_at->0 <= now) ==> validation_outcome(
            Ok(primary),
            Err(e),
            address,
            now,
        ) == Err::<(), KeyErrorView>(KeyErrorView::InvalidPrimaryKey(e)),
        !(primary.expires_at is Some && primary.expires_at->0 <= now) && (forall|i: int|
            0 <= i < ids.len() ==> !((#[trigger] ids[i]).email is Some && ascii_lowered(
                ids[i].email->0,
            ) == ascii_lowered(address))) ==> validation_outcome(
            Ok(primary),
            Ok(ids),
            address,
            now,
        ) == Err::<(), KeyErrorView>(KeyErrorView::NoMatchingUserId(address)),
{
    first_user_id_with_the_address_is_chosen(ids, address);
}

/// Nothing is published of a key without a valid primary key, and of one without a
/// valid User ID with the address; of any other, something is.
pub proof fn unpublished_keys_are_told_apart(
    primary: PrimaryView,
    ids: Seq<UserIdView>,
    e: Seq<char>,
    any: Result<Seq<UserIdView>, Seq<char>>,
    address: Seq<char>,
)
    ensures
        refusal(Err(e), any, address) == Some(KeyErrorView::InvalidPrimaryKey(e)),
        refusal(Ok(primary), Err(e), address) == Some(KeyErrorView::InvalidPrimaryKey(e)),
        (forall|i: int|
            0 <= i < ids.len() ==> !((#[trigger] ids[i]).email is Some && ascii_lowered(
                ids[i].email->0,
            ) == ascii_lowered(address))) ==> refusal(Ok(primary), Ok(ids), address) == Some(
            KeyErrorView::NoMatchingUserId(address),
        ),
        (exists|i: int|
            0 <= i < ids.len() && (#[trigger] ids[i]).email is Some && ascii_lowered(
                ids[i].email->0,
            ) == ascii_lowered(address)) ==> refusal(Ok(primary), Ok(ids), address) is None,
{
    first_user_id_with_the_address_is_chosen(ids, address);
}

/// A certificate is judged at the present second, from the start of 1970 to the end
/// of the year 9999.
pub proof fn certificates_are_judged_at_present(now: int)
    ensures
        0 <= now <= 253402300799 ==> judged_at(now) == now,
        now < 0 ==> judged_at(now) == 0,
        now > 253402300799 ==> judged_at(now) == 253402300799,
{
}

/// A key expires when its primary key says so, to the second, or not at all.
pub proof fn expiry_is_that_of_the_primary_key(primary: PrimaryView, e: Seq<char>)
    ensures
        primary.expires_at is Some ==> expiration_outcome(Ok(primary)) == Ok::<
            Option<int>,
            KeyErrorView,
        >(Some(primary.expires_at->0 as int)),
        primary.expires_at is None ==> expiration_outcome(Ok(primary)) == Ok::<
            Option<int>,
            KeyErrorView,
        >(None),
        expiration_outcome(Err(e)) == Err::<Option<int>, KeyErrorView>(
            KeyErrorView::InvalidPrimaryKey(e),
        ),
{
}

/// A key counts as revoked if its primary key is, or any of its User IDs, wherever
/// it stands, and if that cannot be read.
pub proof fn any_revocation_counts(state: RevocationView, e: Seq<char>)
    ensures
        revoked_outcome(Ok(state)) <==> state.primary || exists|i: int|
            0 <= i < state.user_ids.len() && #[trigger] state.user_ids[i],
        revoked_outcome(Err(e)),
{
    if exists|i: int| 0 <= i < state.user_ids.len() && #[trigger] state.user_ids[i] {
        let i = choose|i: int| 0 <= i < state.user_ids.len() && #[trigger] state.user_ids[i];
        assert(state.user_ids[i] == true);
        assert(state.user_ids.contains(true));
    }
}

/// Of a submitted text, what stands between the white space is parsed: itself if it
/// is a key, else what it stands for in base64.
pub proof fn submitted_text_is_armor_or_base64(text: Seq<char>)
    ensures
        cert_fingerprint(encode_utf8(trimmed(text))) is Ok ==> submitted_material(text) == Ok::<
            Seq<u8>,
            Seq<char>,
        >(encode_utf8(trimmed(text))),
        cert_fingerprint(encode_utf8(trimmed(text))) is Err ==> {
            match base64_decoded(trimmed(text)) {
                Ok(bytes) => match cert_fingerprint(bytes) {
                    Ok(_) => submitted_material(text) == Ok::<Seq<u8>, Seq<char>>(bytes),
                    Err(e) => submitted_material(text) == Err::<Seq<u8>, Seq<char>>(e),
                },
                Err(e) => submitted_material(text) == Err::<Seq<u8>, Seq<char>>(
                    "key is neither valid OpenPGP armor nor valid base64: "@ + e,
                ),
            }
        },
{
}

// ---------------------------------------------------------------------
// Laws on what is published
// ---------------------------------------------------------------------

/// The packets of a selection are all there, in this order and with nothing between
/// them: the primary key, its self-revocations, the User ID, its binding signature,
/// its self-revocations; and then every subkey with its binding signature and its
/// self-revocations, each where the one before it ends.
pub proof fn every_packet_of_a_selection_is_there(s: SelectionView) -> (starts: Seq<int>)
    ensures
        starts.len() == s.subkeys.len() + 1,
        starts[0] == 1 + s.revocations.len() + 2 + s.signatures.revocations.len(),
        starts[s.subkeys.len() as int] == minimal_packets(s).len(),
        minimal_packets(s).subrange(0, starts[0]) == seq![s.primary.packet] + s.revocations + seq![
            s.user_id.packet,
            s.signatures.binding,
        ] + s.signatures.revocations,
        forall|i: int|
            0 <= i < s.subkeys.len() ==> starts[i + 1] == starts[i] + 2 + (
            #[trigger] s.subkeys[i]).signatures.revocations.len(),
        forall|i: int|
            0 <= i <= s.subkeys.len() ==> 0 <= #[trigger] starts[i] <= minimal_packets(s).len(),
        forall|i: int|
            0 <= i < s.subkeys.len() ==> minimal_packets(s).subrange(starts[i], starts[i + 1])
                == seq![(#[trigger] s.subkeys[i]).packet, s.subkeys[i].signatures.binding]
                + s.subkeys[i].signatures.revocations,
{
    let all = minimal_packets(s);
    let tail = subkey_packets(s.subkeys);
    let head = seq![s.primary.packet] + s.revocations + seq![
        s.user_id.packet,
        s.signatures.binding,
    ] + s.signatures.revocations;
    assert(all == head + tail);
    assert(all.subrange(0, head.len() as int) == head);
    let inner = every_subkey_has_its_packets(s.subkeys);
    let starts = Seq::new(inner.len(), |i: int| inner[i] + head.len());
    assert forall|i: int| 0 <= i < s.subkeys.len() implies starts[i + 1] == starts[i] + 2 + (
    #[trigger] s.subkeys[i]).signatures.revocations.len() by {
        assert(holds_subkey(tail, inner, i, s.subkeys[i]));
    }
    assert forall|i: int| 0 <= i <= s.subkeys.len() implies 0 <= #[trigger] starts[i]
        <= all.len() by {
        if i < s.subkeys.len() {
            assert(holds_subkey(tail, inner, i, s.subkeys[i]));
        }
    }
    assert forall|i: int| 0 <= i < s.subkeys.len() implies all.subrange(starts[i], starts[i + 1])
        == seq![(#[trigger] s.subkeys[i]).packet, s.subkeys[i].signatures.binding]
        + s.subkeys[i].signatures.revocations by {
        assert(holds_subkey(tail, inner, i, s.subkeys[i]));
        assert(all.subrange(starts[i], starts[i + 1]) == tail.subrange(inner[i], inner[i + 1]));
    }
    starts
}

/// From its start to that of the next, the packets are those of this subkey.
spec fn holds_subkey(packets: Seq<Seq<u8>>, starts: Seq<int>, i: int, k: SubkeyView) -> bool {
    &&& 0 <= starts[i]
    &&& starts[i + 1] == starts[i] + 2 + k.signatures.revocations.len()
    &&& starts[i + 1] <= packets.len()
    &&& packets.subrange(starts[i], starts[i + 1]) == seq![k.packet, k.signatures.binding]
        + k.signatures.revocations
}

/// Every subkey has its packets where those of the one before it end.
proof fn every_subkey_has_its_packets(subkeys: Seq<SubkeyView>) -> (starts: Seq<int>)
    ensures
        starts.len() == subkeys.len() + 1,
        starts[0] == 0,
        starts[subkeys.len() as int] == subkey_packets(subkeys).len(),
        forall|i: int|
            0 <= i < subkeys.len() ==> #[trigger] holds_subkey(
                subkey_packets(subkeys),
                starts,
                i,
                subkeys[i],
            ),
    decreases subkeys.len(),
{
    let n = subkeys.len() as int;
    if n == 0 {
        seq![0int]
    } else {
        let all = subkey_packets(subkeys);
        let fewer = subkeys.drop_last();
        let k = subkeys[n - 1];
        let before = every_subkey_has_its_packets(fewer);
        let head = subkey_packets(fewer);
        assert(all == head + seq![k.packet, k.signatures.binding] + k.signatures.revocations);
        let starts = before.push(before[n - 1] + 2 + k.signatures.revocations.len());
        assert forall|i: int| 0 <= i < n implies #[trigger] holds_subkey(
            all,
            starts,
            i,
            subkeys[i],
        ) by {
            if i < n - 1 {
                assert(holds_subkey(head, before, i, fewer[i]));
                assert(all.subrange(before[i], before[i + 1]) == head.subrange(
                    before[i],
                    before[i + 1],
                ));
            } else {
                assert(all.subrange(starts[i], starts[i + 1]) == seq![
                    k.packet,
                    k.signatures.binding,
                ] + k.signatures.revocations);
            }
        }
        starts
    }
}

/// Packets are written one after the other, without anything between them.
pub proof fn packets_are_written_one_after_the_other(a: Seq<Seq<u8>>, b: Seq<Seq<u8>>, p: Seq<u8>)
    ensures
        joined(Seq::<Seq<u8>>::empty()).len() == 0,
        joined(seq![p]) == p,
        joined(a + b) == joined(a) + joined(b),
    decreases b.len(),
{
    assert(seq![p].drop_last() == Seq::<Seq<u8>>::empty());
    assert(joined(Seq::<Seq<u8>>::empty()) == Seq::<u8>::empty());
    assert(joined(seq![p]) == p);
    if b.len() == 0 {
        assert(a + b == a);
        assert(joined(a + b) == joined(a) + joined(b));
    } else {
        packets_are_written_one_after_the_other(a, b.drop_last(), p);
        assert((a + b).drop_last() == a + b.drop_last());
        assert((a + b).last() == b.last());
        assert(joined(a + b) == joined(a) + joined(b));
    }
}

/// The selection has what was read, all of it; where something could not be read,
/// the first of these says why.
pub proof fn selection_has_all_that_was_read(
    primary: PrimaryView,
    user_id: UserIdView,
    revocations: Seq<Seq<u8>>,
    signatures: SignaturesView,
    subkeys: Seq<SubkeyView>,
    e: Seq<char>,
    any: ReadingView,
)
    ensures
        selected(
            primary,
            user_id,
            ReadingView {
                revocations: Ok(revocations),
                signatures: Ok(signatures),
                subkeys: Ok(subkeys),
            },
        ) == Ok::<SelectionView, KeyErrorView>(
            SelectionView { primary, revocations, user_id, signatures, subkeys },
        ),
        selected(primary, user_id, ReadingView { revocations: Err(e), ..any }) == Err::<
            SelectionView,
            KeyErrorView,
        >(KeyErrorView::ParseFailed("failed to serialize minimized cert: "@ + e)),
        selected(
            primary,
            user_id,
            ReadingView { revocations: Ok(revocations), signatures: Err(e), ..any },
        ) == Err::<SelectionView, KeyErrorView>(
            KeyErrorView::ParseFailed("failed to serialize minimized cert: "@ + e),
        ),
        selected(
            primary,
            user_id,
            ReadingView {
                revocations: Ok(revocations),
                signatures: Ok(signatures),
                subkeys: Err(e),
            },
        ) == Err::<SelectionView, KeyErrorView>(
            KeyErrorView::ParseFailed("failed to serialize minimized cert: "@ + e),
        ),
{
}

/// What is written of a selection is its packets; what is published is the
/// certificate that they make, as it was written.
pub proof fn certificate_is_published_as_written(
    s: SelectionView,
    error: KeyErrorView,
    bytes: Seq<u8>,
    e: Seq<char>,
)
    ensures
        selected_packets(Ok(s)) == Ok::<Seq<u8>, KeyErrorView>(joined(minimal_packets(s))),
        selected_packets(Err(error)) == Err::<Seq<u8>, KeyErrorView>(error),
        rebuild_outcome(Ok(bytes)) == Ok::<Seq<u8>, KeyErrorView>(bytes),
        rebuild_outcome(Err(RebuildErrorView::Rebuild(e))) == Err::<Seq<u8>, KeyErrorView>(
            KeyErrorView::ParseFailed("failed to rebuild minimized cert: "@ + e),
        ),
        rebuild_outcome(Err(RebuildErrorView::Serialize(e))) == Err::<Seq<u8>, KeyErrorView>(
            KeyErrorView::ParseFailed("failed to serialize minimized cert: "@ + e),
        ),
{
}

/// A minimized key is made of the valid primary key, the first valid User ID with
/// the address, and all that was read of the self-revocations, of the signatures of
/// that User ID and of the subkeys. It has that User ID as the only one, the same
/// fingerprint, and no secret key material.
pub proof fn minimized_key_is_made_of_what_was_read(
    material: Seq<u8>,
    address: Seq<char>,
    now: int,
    bytes: Seq<u8>,
) -> (r: (int, SelectionView))
    requires
        0 <= now <= 253402300799,
        may_minimize_to(material, address, now, Ok(bytes)),
    ensures
        valid_primary(material, now) == Ok::<PrimaryView, Seq<char>>(r.1.primary),
        valid_user_ids(material, now) is Ok,
        0 <= r.0 < valid_user_ids(material, now)->Ok_0.len(),
        r.1.user_id == valid_user_ids(material, now)->Ok_0[r.0],
        r.1.user_id.email is Some,
        ascii_lowered(r.1.user_id.email->0) == ascii_lowered(address),
        directory_entry(r.1.user_id.email->0) == directory_entry(address),
        forall|j: int|
            0 <= j < r.0 ==> !((#[trigger] valid_user_ids(material, now)->Ok_0[j]).email is Some
                && ascii_lowered(valid_user_ids(material, now)->Ok_0[j].email->0) == ascii_lowered(
                address,
            )),
        primary_revocations_read_as(material, Ok(r.1.revocations)),
        user_id_signatures_read_as(material, now, r.0, Ok(r.1.signatures)),
        subkeys_read_as(material, now, Ok(r.1.subkeys)),
        rebuilt_cert(joined(minimal_packets(r.1))) == Ok::<Seq<u8>, RebuildErrorView>(bytes),
        cert_fingerprint(bytes) == Ok::<Seq<char>, Seq<char>>(r.1.primary.fingerprint),
        cert_user_ids(bytes) == Ok::<Seq<UserIdView>, Seq<char>>(seq![r.1.user_id]),
        cert_is_tsk(bytes) != Ok::<bool, Seq<char>>(true),
{
    let reading = reading_behind(material, address, now, bytes);
    let ids = valid_user_ids(material, now)->Ok_0;
    let i = first_match(ids, address);
    let s = selection_from(material, now, address, reading)->Ok_0;
    first_user_id_with_the_address_is_chosen(ids, address);
    directory_entry_ignores_case(s.user_id.email->0, address);
    assert forall|j: int| 0 <= j < i implies !((
    #[trigger] valid_user_ids(material, now)->Ok_0[j]).email is Some && ascii_lowered(
        valid_user_ids(material, now)->Ok_0[j].email->0,
    ) == ascii_lowered(address)) by {
        assert(!is_for_address(ids[j], address));
    }
    assert(rebuilt_cert(joined(minimal_packets(s))) is Ok);
    (i, s)
}

/// Minimizing a key that has a valid primary key and a valid User ID with the
/// address fails only where its signatures or its subkeys cannot be written, or
/// where the library does not make a certificate of the packets; and it is the error
/// of the library that is passed on.
pub proof fn minimizing_fails_only_with_the_library(
    material: Seq<u8>,
    address: Seq<char>,
    now: int,
    i: int,
    error: KeyErrorView,
) -> (r: (Seq<char>, Seq<u8>))
    requires
        0 <= now <= 253402300799,
        may_minimize_to(material, address, now, Err(error)),
        valid_primary(material, now) is Ok,
        valid_user_ids(material, now) is Ok,
        0 <= i < valid_user_ids(material, now)->Ok_0.len(),
        valid_user_ids(material, now)->Ok_0[i].email is Some,
        ascii_lowered(valid_user_ids(material, now)->Ok_0[i].email->0) == ascii_lowered(address),
    ensures
        ({
            ||| error == KeyErrorView::ParseFailed("failed to serialize minimized cert: "@ + r.0) && {
                ||| primary_revocations_read_as(material, Err(r.0))
                ||| exists|j: int| #[trigger] user_id_signatures_read_as(material, now, j, Err(r.0))
                ||| subkeys_read_as(material, now, Err(r.0))
                ||| rebuilt_cert(r.1) == Err::<Seq<u8>, RebuildErrorView>(
                    RebuildErrorView::Serialize(r.0),
                )
            }
            ||| error == KeyErrorView::ParseFailed("failed to rebuild minimized cert: "@ + r.0)
                && rebuilt_cert(r.1) == Err::<Seq<u8>, RebuildErrorView>(
                RebuildErrorView::Rebuild(r.0),
            )
        }),
{
    let ids = valid_user_ids(material, now)->Ok_0;
    first_user_id_with_the_address_is_chosen(ids, address);
    assert(first_match(ids, address) <= i);
    let r = Err::<Seq<u8>, KeyErrorView>(error);
    let reading = choose|reading: ReadingView| #[trigger]
        may_read(material, now, address, reading) && (match selection_from(
            material,
            now,
            address,
            reading,
        ) {
            Ok(s) => is_written(s, now, r),
            Err(e) => r == Err::<Seq<u8>, KeyErrorView>(e),
        });
    match (reading.revocations, reading.signatures, reading.subkeys) {
        (Err(e), _, _) => (e, seq![]),
        (_, Err(e), _) => {
            assert(user_id_signatures_read_as(material, now, first_match(ids, address), Err(e)));
            (e, seq![])
        },
        (_, _, Err(e)) => (e, seq![]),
        _ => {
            let s = selection_from(material, now, address, reading)->Ok_0;
            let packets = joined(minimal_packets(s));
            match rebuilt_cert(packets) {
                Err(RebuildErrorView::Rebuild(e)) => (e, packets),
                Err(RebuildErrorView::Serialize(e)) => (e, packets),
                Ok(_) => (seq![], packets),
            }
        },
    }
}

/// A key that is minimized for an address has one User ID, with that address up to
/// case, and no secret key material.
pub proof fn minimized_key_has_one_user_id(
    bytes: Seq<u8>,
    fingerprint: Seq<char>,
    address: Seq<char>,
)
    requires
        is_minimized_for(bytes, fingerprint, address),
    ensures
        cert_fingerprint(bytes) == Ok::<Seq<char>, Seq<char>>(fingerprint),
        cert_user_ids(bytes) is Ok,
        cert_user_ids(bytes)->Ok_0.len() == 1,
        cert_user_ids(bytes)->Ok_0[0].email is Some,
        ascii_lowered(cert_user_ids(bytes)->Ok_0[0].email->0) == ascii_lowered(address),
        directory_entry(cert_user_ids(bytes)->Ok_0[0].email->0) == directory_entry(address),
        cert_is_tsk(bytes) != Ok::<bool, Seq<char>>(true),
{
    user_id_is_for_the_whole_address(cert_user_ids(bytes)->Ok_0[0], address);
    directory_entry_ignores_case(cert_user_ids(bytes)->Ok_0[0].email->0, address);
}

// ---------------------------------------------------------------------
// Laws on views and messages
// ---------------------------------------------------------------------

/// The views hold every field as it is.
pub proof fn views_keep_every_field(
    id: UserId,
    primary: PrimaryPart,
    signatures: OwnSignatures,
    subkey: SubkeyPart,
    state: Revocation,
)
    ensures
        id@.packet == id.packet@,
        id@.email is Some <==> id.email is Some,
        id.email is Some ==> id@.email->0 == id.email->0@,
        primary@.fingerprint == primary.fingerprint@,
        primary@.packet == primary.packet@,
        primary@.expires_at == primary.expires_at,
        signatures@.binding == signatures.binding@,
        signatures@.revocations.len() == signatures.revocations@.len(),
        forall|i: int|
            0 <= i < signatures.revocations@.len() ==> #[trigger] signatures@.revocations[i]
                == signatures.revocations@[i]@,
        subkey@.packet == subkey.packet@,
        subkey@.signatures == subkey.signatures@,
        state@.primary == state.primary,
        state@.user_ids == state.user_ids@,
{
}

/// Every User ID and every subkey of a list is looked at.
pub proof fn lists_are_looked_at_in_full(ids: Seq<UserId>, subkeys: Seq<SubkeyPart>)
    ensures
        user_id_views(ids).len() == ids.len(),
        forall|i: int| 0 <= i < ids.len() ==> #[trigger] user_id_views(ids)[i] == ids[i]@,
        subkey_views(subkeys).len() == subkeys.len(),
        forall|i: int|
            0 <= i < subkeys.len() ==> #[trigger] subkey_views(subkeys)[i] == subkeys[i]@,
{
}

/// What was read is taken as it is, and so is an error.
pub proof fn results_are_taken_as_they_are(
    primary: PrimaryPart,
    ids: Vec<UserId>,
    state: Revocation,
    revocations: Vec<Vec<u8>>,
    signatures: OwnSignatures,
    subkeys: Vec<SubkeyPart>,
    e: String,
)
    ensures
        primary_result(Ok(primary)) == Ok::<PrimaryView, Seq<char>>(primary@),
        primary_result(Err(e)) == Err::<PrimaryView, Seq<char>>(e@),
        user_ids_result(Ok(ids)) == Ok::<Seq<UserIdView>, Seq<char>>(user_id_views(ids@)),
        user_ids_result(Err(e)) == Err::<Seq<UserIdView>, Seq<char>>(e@),
        revocation_result(Ok(state)) == Ok::<RevocationView, Seq<char>>(state@),
        revocation_result(Err(e)) == Err::<RevocationView, Seq<char>>(e@),
        revocations_result(Ok(revocations)) == Ok::<Seq<Seq<u8>>, Seq<char>>(
            byte_lists(revocations@),
        ),
        revocations_result(Err(e)) == Err::<Seq<Seq<u8>>, Seq<char>>(e@),
        signatures_result(Ok(signatures)) == Ok::<SignaturesView, Seq<char>>(signatures@),
        signatures_result(Err(e)) == Err::<SignaturesView, Seq<char>>(e@),
        subkeys_result(Ok(subkeys)) == Ok::<Seq<SubkeyView>, Seq<char>>(subkey_views(subkeys@)),
        subkeys_result(Err(e)) == Err::<Seq<SubkeyView>, Seq<char>>(e@),
{
}

/// What comes out is taken as it is, and so is an error.
pub proof fn outcomes_are_taken_as_they_are(bytes: Vec<u8>, time: Timestamp, e: KeyError)
    ensures
        check_view(Ok(())) == Ok::<(), KeyErrorView>(()),
        check_view(Err(e)) == Err::<(), KeyErrorView>(e@),
        bytes_view(Ok(bytes)) == Ok::<Seq<u8>, KeyErrorView>(bytes@),
        bytes_view(Err(e)) == Err::<Seq<u8>, KeyErrorView>(e@),
        expiration_view(Ok(Some(time))) == Ok::<Option<int>, KeyErrorView>(Some(time.unix())),
        expiration_view(Ok(None)) == Ok::<Option<int>, KeyErrorView>(None),
        expiration_view(Err(e)) == Err::<Option<int>, KeyErrorView>(e@),
{
}

/// An error keeps its kind and its text, and says for a reader what is wrong.
pub proof fn errors_keep_their_kind_and_text(m: String)
    ensures
        KeyError::ParseFailed(m)@ == KeyErrorView::ParseFailed(m@),
        KeyError::InvalidPrimaryKey(m)@ == KeyErrorView::InvalidPrimaryKey(m@),
        KeyError::NoMatchingUserId(m)@ == KeyErrorView::NoMatchingUserId(m@),
        KeyError::Expired(m)@ == KeyErrorView::Expired(m@),
        RebuildError::Rebuild(m)@ == RebuildErrorView::Rebuild(m@),
        RebuildError::Serialize(m)@ == RebuildErrorView::Serialize(m@),
        KeyError::ParseFailed(m).message() == "failed to parse key material: "@ + m@,
        KeyError::InvalidPrimaryKey(m).message()
            == "key has no valid, non-expired self-signature on its primary key: "@ + m@,
        KeyError::NoMatchingUserId(m).message() == "key has no valid User ID matching "@ + m@,
        KeyError::Expired(m).message() == "key has expired: "@ + m@,
{
}

} // verus!
