//! Hashing of mail addresses for the Web Key Directory: the local part is
//! lower-cased in ASCII, digested with SHA-1, and the digest is written in
//! Z-Base-32.

use sha1::{Digest, Sha1};
use vstd::arithmetic::power2::{lemma2_to64, pow2};
use vstd::prelude::*;
use vstd::string::*;
use vstd::utf8::*;

use crate::text::{
    ascii_lower, ascii_lowered, chars_of, join3, same_ignoring_case, string_of, to_ascii_lowercase,
};

verus! {

/// Zooko's base32 alphabet.
pub const ZBASE32_ALPHABET: [char; 32] = [
    'y', 'b', 'n', 'd', 'r', 'f', 'g', '8', 'e', 'j', 'k', 'm', 'c', 'p', 'q', 'x',
    'o', 't', '1', 'u', 'w', 'i', 's', 'z', 'a', '3', '4', '5', 'h', '7', '6', '9',
];

/// Bit `k` of a byte string, counted from the most significant bit of the
/// first byte; past the end every bit is zero.
pub open spec fn bit_at(data: Seq<u8>, k: int) -> bool {
    0 <= k < 8 * data.len() && (data[k / 8] >> ((7 - k % 8) as u8)) & 1u8 == 1u8
}

/// The number that the five bits from position `k` on spell.
pub open spec fn quintet(data: Seq<u8>, k: int) -> int {
    (if bit_at(data, k) { 16int } else { 0 })
        + (if bit_at(data, k + 1) { 8int } else { 0 })
        + (if bit_at(data, k + 2) { 4int } else { 0 })
        + (if bit_at(data, k + 3) { 2int } else { 0 })
        + (if bit_at(data, k + 4) { 1int } else { 0 })
}

/// How many characters the encoding of `n` bytes has: one for each five bits,
/// the last of them filled up with zeros.
pub open spec fn zbase32_len(n: nat) -> nat {
    (8 * n + 4) / 5
}

/// The Z-Base-32 encoding of a byte string, without padding.
pub open spec fn zbase32(data: Seq<u8>) -> Seq<char> {
    Seq::new(zbase32_len(data.len()), |i: int| ZBASE32_ALPHABET@[quintet(data, 5 * i)])
}

/// Bit `j` of `x`, counted from the least significant one.
spec fn low_bit(x: u32, j: int) -> bool {
    (x >> (j as u32)) & 1u32 == 1u32
}

/// The lowest `n` bits of the buffer are the last `n` of the first `end` bits
/// of the data.
spec fn holds_tail(buffer: u32, n: u32, data: Seq<u8>, end: int) -> bool {
    forall|j: int| 0 <= j < n ==> #[trigger] low_bit(buffer, j) == bit_at(data, end - 1 - j)
}

proof fn shift_in_byte(buffer: u32, n: u32, data: Seq<u8>, i: int)
    requires
        n <= 4,
        0 <= i < data.len(),
        holds_tail(buffer, n, data, 8 * i),
    ensures
        holds_tail((buffer << 8u32) | (data[i] as u32), (n + 8) as u32, data, 8 * i + 8),
{
    let byte: u8 = data[i];
    let next: u32 = (buffer << 8u32) | (byte as u32);
    assert forall|j: int| 0 <= j < n + 8 implies #[trigger] low_bit(next, j) == bit_at(
        data,
        8 * i + 8 - 1 - j,
    ) by {
        let s: u32 = j as u32;
        if j < 8 {
            let t: u8 = j as u8;
            assert(((((buffer << 8u32) | (byte as u32)) >> s) & 1u32 == 1u32) == ((byte >> t) & 1u8
                == 1u8)) by (bit_vector)
                requires
                    s < 8,
                    t as u32 == s,
            ;
            let k: int = 8 * i + 7 - j;
            assert(k / 8 == i);
            assert(7 - k % 8 == j);
        } else {
            let r: u32 = (j - 8) as u32;
            assert(((((buffer << 8u32) | (byte as u32)) >> s) & 1u32 == 1u32) == ((buffer >> r)
                & 1u32 == 1u32)) by (bit_vector)
                requires
                    8 <= s < 12,
                    r + 8 == s,
            ;
            assert(low_bit(buffer, j - 8) == bit_at(data, 8 * i - 1 - (j - 8)));
        }
    }
}

proof fn take_quintet(buffer: u32, n: u32, data: Seq<u8>, end: int)
    requires
        n <= 7,
        holds_tail(buffer, (n + 5) as u32, data, end),
    ensures
        (buffer >> n) & 0x1fu32 == quintet(data, end - n - 5),
        (buffer >> n) & 0x1fu32 < 32,
        holds_tail(buffer, n, data, end),
{
    let idx: u32 = (buffer >> n) & 0x1fu32;
    let b0: u32 = (buffer >> n) & 1u32;
    let b1: u32 = (buffer >> ((n + 1) as u32)) & 1u32;
    let b2: u32 = (buffer >> ((n + 2) as u32)) & 1u32;
    let b3: u32 = (buffer >> ((n + 3) as u32)) & 1u32;
    let b4: u32 = (buffer >> ((n + 4) as u32)) & 1u32;
    let n1: u32 = (n + 1) as u32;
    let n2: u32 = (n + 2) as u32;
    let n3: u32 = (n + 3) as u32;
    let n4: u32 = (n + 4) as u32;
    assert(((buffer >> n) & 0x1fu32) == ((buffer >> n) & 1u32) + 2 * ((buffer >> n1) & 1u32) + 4 * ((
    buffer >> n2) & 1u32) + 8 * ((buffer >> n3) & 1u32) + 16 * ((buffer >> n4) & 1u32)
        && ((buffer >> n) & 1u32) <= 1 && ((buffer >> n1) & 1u32) <= 1 && ((buffer >> n2) & 1u32) <= 1
        && ((buffer >> n3) & 1u32) <= 1 && ((buffer >> n4) & 1u32) <= 1) by (bit_vector)
        requires
            n <= 7,
            n1 == n + 1,
            n2 == n + 2,
            n3 == n + 3,
            n4 == n + 4,
    ;
    assert(low_bit(buffer, n as int) == bit_at(data, end - 1 - n));
    assert(low_bit(buffer, n + 1) == bit_at(data, end - 2 - n));
    assert(low_bit(buffer, n + 2) == bit_at(data, end - 3 - n));
    assert(low_bit(buffer, n + 3) == bit_at(data, end - 4 - n));
    assert(low_bit(buffer, n + 4) == bit_at(data, end - 5 - n));
}

/// The last, incomplete group of bits, filled up with zeros.
proof fn take_rest(buffer: u32, n: u32, data: Seq<u8>)
    requires
        1 <= n <= 4,
        holds_tail(buffer, n, data, 8 * data.len() as int),
        n <= 8 * data.len(),
    ensures
        (buffer << ((5 - n) as u32)) & 0x1fu32 == quintet(data, 8 * data.len() - n),
        (buffer << ((5 - n) as u32)) & 0x1fu32 < 32,
{
    let m: u32 = (5 - n) as u32;
    let shifted: u32 = buffer << m;
    let end: int = 8 * data.len() + m;
    assert forall|j: int| 0 <= j < 5 implies #[trigger] low_bit(shifted, j) == bit_at(
        data,
        end - 1 - j,
    ) by {
        let s: u32 = j as u32;
        if j < m {
            assert(((buffer << m) >> s) & 1u32 == 0u32) by (bit_vector)
                requires
                    s < m <= 4,
            ;
        } else {
            let r: u32 = (j - m) as u32;
            assert(((buffer << m) >> s) & 1u32 == (buffer >> r) & 1u32) by (bit_vector)
                requires
                    r + m == s,
                    s < 5,
            ;
            assert(low_bit(buffer, j - m) == bit_at(data, 8 * data.len() - 1 - (j - m)));
        }
    }
    assert(holds_tail(shifted, (0u32 + 5) as u32, data, end));
    take_quintet(shifted, 0u32, data, end);
    assert(shifted >> 0u32 == shifted) by (bit_vector);
}

/// Z-Base-32 encodes `data`, five bits at a time, most significant bit first,
/// without padding.
pub fn zbase32_encode(data: &[u8]) -> (r: String)
    ensures
        r@ == zbase32(data@),
{
    let mut out: String = String::new();
    let mut buffer: u32 = 0;
    let mut bits_in_buffer: u32 = 0;
    let mut i: usize = 0;
    while i < data.len()
        invariant
            i <= data.len(),
            bits_in_buffer <= 4,
            5 * out@.len() + bits_in_buffer == 8 * i,
            holds_tail(buffer, bits_in_buffer, data@, 8 * i),
            out@ =~= Seq::new(out@.len(), |g: int| ZBASE32_ALPHABET@[quintet(data@, 5 * g)]),
        decreases data.len() - i,
    {
        proof {
            shift_in_byte(buffer, bits_in_buffer, data@, i as int);
        }
        buffer = (buffer << 8) | data[i] as u32;
        bits_in_buffer = bits_in_buffer + 8;
        i = i + 1;
        while bits_in_buffer >= 5
            invariant
                i <= data.len(),
                bits_in_buffer <= 12,
                5 * out@.len() + bits_in_buffer == 8 * i,
                holds_tail(buffer, bits_in_buffer, data@, 8 * i),
                out@ =~= Seq::new(out@.len(), |g: int| ZBASE32_ALPHABET@[quintet(data@, 5 * g)]),
            decreases bits_in_buffer,
        {
            bits_in_buffer = bits_in_buffer - 5;
            proof {
                take_quintet(buffer, bits_in_buffer, data@, 8 * i);
            }
            let idx: u32 = (buffer >> bits_in_buffer) & 0x1f;
            out.push(ZBASE32_ALPHABET[idx as usize]);
        }
    }
    if bits_in_buffer > 0 {
        proof {
            take_rest(buffer, bits_in_buffer, data@);
        }
        let idx: u32 = (buffer << (5 - bits_in_buffer)) & 0x1f;
        out.push(ZBASE32_ALPHABET[idx as usize]);
    }
    assert(out@ =~= zbase32(data@));
    out
}

/// Why a text is no mail address. Each variant holds the text.
#[derive(Debug)]
pub enum AddressError {
    /// There is no `@` in it.
    MissingAt(String),
    /// A side of the first `@` is empty, or there is a second `@`.
    Malformed(String),
}

impl AddressError {
    /// The message for this error.
    pub open spec fn message(self) -> Seq<char> {
        match self {
            AddressError::MissingAt(a) => "address '"@ + a@ + "' is missing '@'"@,
            AddressError::Malformed(a) => "address '"@ + a@ + "' is not a valid email address"@,
        }
    }

    /// Writes the error out for a reader.
    pub fn to_string(&self) -> (r: String)
        ensures
            r@ == self.message(),
    {
        match self {
            AddressError::MissingAt(a) => join3("address '", a.as_str(), "' is missing '@'"),
            AddressError::Malformed(a) => join3(
                "address '",
                a.as_str(),
                "' is not a valid email address",
            ),
        }
    }
}

/// The position of the first `@`, or the length of the text if there is none.
pub open spec fn at_index(s: Seq<char>) -> int
    decreases s.len(),
{
    if s.len() == 0 || s[0] == '@' {
        0
    } else {
        1 + at_index(s.drop_first())
    }
}

/// The local part and the domain of a mail address, as they are written;
/// `None` for a text that is no address.
pub open spec fn address_parts(s: Seq<char>) -> Option<(Seq<char>, Seq<char>)> {
    let at = at_index(s);
    if 0 < at < s.len() - 1 && !s.skip(at + 1).contains('@') {
        Some((s.take(at), s.skip(at + 1)))
    } else {
        None
    }
}

proof fn at_index_is_first(s: Seq<char>)
    ensures
        0 <= at_index(s) <= s.len(),
        at_index(s) < s.len() ==> s[at_index(s)] == '@',
        forall|i: int| 0 <= i < at_index(s) ==> s[i] != '@',
        s.contains('@') <==> at_index(s) < s.len(),
    decreases s.len(),
{
    if s.len() > 0 && s[0] != '@' {
        let rest = s.drop_first();
        at_index_is_first(rest);
        assert forall|i: int| 0 <= i < at_index(s) implies s[i] != '@' by {
            if i > 0 {
                assert(rest[i - 1] == s[i]);
            }
        }
        if s.contains('@') {
            let k = choose|k: int| 0 <= k < s.len() && s[k] == '@';
            assert(rest[k - 1] == '@');
        }
    }
}

/// Splits `address` into its local part and its domain, lower-casing the
/// domain in ASCII.
pub fn split_address(address: &str) -> (r: Result<(String, String), AddressError>)
    ensures
        match r {
            Ok((local, domain)) => match address_parts(address@) {
                Some((l, d)) => local@ == l && domain@ == ascii_lowered(d),
                None => false,
            },
            Err(AddressError::MissingAt(a)) => a@ == address@ && !address@.contains('@')
                && address_parts(address@) is None,
            Err(AddressError::Malformed(a)) => a@ == address@ && address@.contains('@')
                && address_parts(address@) is None,
        },
{
    proof {
        at_index_is_first(address@);
    }
    let chars: Vec<char> = chars_of(address);
    let mut at: usize = 0;
    while at < chars.len() && chars[at] != '@'
        invariant
            chars@ == address@,
            at <= chars.len(),
            forall|i: int| 0 <= i < at ==> chars@[i] != '@',
        decreases chars.len() - at,
    {
        at = at + 1;
    }
    proof {
        let first = at_index(address@);
        assert(at == first);
    }
    if at == chars.len() {
        return Err(AddressError::MissingAt(address.to_owned()));
    }
    let mut local: Vec<char> = Vec::new();
    let mut i: usize = 0;
    while i < at
        invariant
            i <= at < chars.len(),
            local@ == chars@.take(i as int),
        decreases at - i,
    {
        local.push(chars[i]);
        i = i + 1;
        assert(chars@.take(i as int) == chars@.take(i - 1).push(chars@[i - 1]));
    }
    let mut domain: Vec<char> = Vec::new();
    let mut second: bool = false;
    let ghost rest = chars@.skip(at + 1);
    i = at + 1;
    while i < chars.len()
        invariant
            at < chars.len(),
            at + 1 <= i <= chars.len(),
            rest == chars@.skip(at + 1),
            domain@ == rest.take(i - (at + 1)),
            second == domain@.contains('@'),
        decreases chars.len() - i,
    {
        let ghost before = domain@;
        if chars[i] == '@' {
            second = true;
        }
        domain.push(chars[i]);
        proof {
            assert(domain@ == before.push(chars@[i as int]));
            assert(rest.take(i + 1 - (at + 1)) == before.push(rest[i - (at + 1)]));
            assert(domain@.last() == chars@[i as int]);
            if before.contains('@') {
                let k = choose|k: int| 0 <= k < before.len() && before[k] == '@';
                assert(domain@[k] == '@');
            }
            if domain@.contains('@') && chars@[i as int] != '@' {
                let k = choose|k: int| 0 <= k < domain@.len() && domain@[k] == '@';
                assert(before[k] == '@');
            }
        }
        i = i + 1;
    }
    assert(domain@ == rest);
    if at == 0 || domain.len() == 0 || second {
        return Err(AddressError::Malformed(address.to_owned()));
    }
    let written: String = string_of(&domain);
    Ok((string_of(&local), to_ascii_lowercase(written.as_str())))
}

/// The SHA-1 digest of a byte string.
pub uninterp spec fn sha1_digest(data: Seq<u8>) -> Seq<u8>;

/// Calls `sha1::Sha1::digest`: the result is the SHA-1 digest of the argument,
/// and has twenty bytes. What the digest is of given bytes is not said.
#[verifier::external_body]
fn sha1_of(data: &[u8]) -> (r: Vec<u8>)
    ensures
        r@ == sha1_digest(data@),
        r@.len() == 20,
{
    Sha1::digest(data).to_vec()
}

/// The directory hash of a local part.
pub open spec fn local_part_hash(local: Seq<char>) -> Seq<char> {
    zbase32(sha1_digest(encode_utf8(ascii_lowered(local))))
}

/// Where the key of an address is published: the hash of its local part and
/// its domain in lower case.
pub open spec fn directory_entry(address: Seq<char>) -> Option<(Seq<char>, Seq<char>)> {
    match address_parts(address) {
        Some((local, domain)) => Some((local_part_hash(local), ascii_lowered(domain))),
        None => None,
    }
}

/// Computes the directory hash of the local part of a mail address. Only the
/// ASCII letters of the local part are folded to lower case.
pub fn wkd_hash_local_part(local_part: &str) -> (r: String)
    ensures
        r@ == zbase32(sha1_digest(encode_utf8(ascii_lowered(local_part@)))),
        r@ == local_part_hash(local_part@),
        r@.len() == 32,
{
    let lowered: String = to_ascii_lowercase(local_part);
    let digest: Vec<u8> = sha1_of(lowered.as_str().as_bytes());
    zbase32_encode(digest.as_slice())
}

/// Computes the directory hash for a full mail address, and returns it with
/// the domain in lower case.
pub fn wkd_hash_for_address(address: &str) -> (r: Result<(String, String), AddressError>)
    ensures
        match r {
            Ok((hash, domain)) => directory_entry(address@) == Some((hash@, domain@)) && hash@.len()
                == 32,
            Err(AddressError::MissingAt(a)) => a@ == address@ && !address@.contains('@')
                && address_parts(address@) is None,
            Err(AddressError::Malformed(a)) => a@ == address@ && address@.contains('@')
                && address_parts(address@) is None,
        },
{
    match split_address(address) {
        Ok((local, domain)) => Ok((wkd_hash_local_part(local.as_str()), domain)),
        Err(e) => Err(e),
    }
}

/// An address is the join of its two parts, each without an `@` and not empty;
/// and every text of that shape is an address with those parts.
pub proof fn address_parts_exact(s: Seq<char>, local: Seq<char>, domain: Seq<char>)
    ensures
        address_parts(s) == Some((local, domain)) <==> {
            &&& s == local + seq!['@'] + domain
            &&& local.len() > 0
            &&& domain.len() > 0
            &&& !local.contains('@')
            &&& !domain.contains('@')
        },
{
    at_index_is_first(s);
    if address_parts(s) == Some((local, domain)) {
        let at = at_index(s);
        assert(s == s.take(at) + seq!['@'] + s.skip(at + 1));
        assert(!s.take(at).contains('@'));
    }
    if s == local + seq!['@'] + domain && local.len() > 0 && domain.len() > 0 && !local.contains(
        '@',
    ) && !domain.contains('@') {
        assert(s[local.len() as int] == '@');
        assert(forall|i: int| 0 <= i < local.len() ==> s[i] == local[i]);
        assert(forall|i: int| 0 <= i < local.len() ==> local.contains(#[trigger] local[i]));
        assert(at_index(s) == local.len());
        assert(s.take(local.len() as int) == local);
        assert(s.skip((local.len() + 1) as int) == domain);
    }
}

/// Two addresses that differ in the case of ASCII letters at most are
/// published under the same hash and the same domain.
pub proof fn directory_entry_ignores_case(a: Seq<char>, b: Seq<char>)
    requires
        same_ignoring_case(a, b),
    ensures
        directory_entry(a) == directory_entry(b),
{
    assert(a.len() == ascii_lowered(a).len());
    assert(b.len() == ascii_lowered(b).len());
    assert forall|i: int| 0 <= i < a.len() implies ascii_lower(#[trigger] a[i]) == ascii_lower(
        b[i],
    ) by {
        assert(ascii_lowered(a)[i] == ascii_lowered(b)[i]);
    }
    at_index_is_first(a);
    at_index_is_first(b);
    let at = at_index(a);
    if at < at_index(b) {
        assert(a[at] == '@' && b[at] != '@');
    }
    if at_index(b) < at {
        assert(a[at_index(b)] != '@' && b[at_index(b)] == '@');
    }
    if at < a.len() {
        let da = a.skip(at + 1);
        let db = b.skip(at + 1);
        assert forall|i: int| 0 <= i < da.len() implies (#[trigger] da[i] == '@' <==> db[i] == '@') by {
            assert(da[i] == a[i + at + 1] && db[i] == b[i + at + 1]);
        }
        if da.contains('@') {
            let k = choose|k: int| 0 <= k < da.len() && da[k] == '@';
            assert(db[k] == '@');
        }
        if db.contains('@') {
            let k = choose|k: int| 0 <= k < db.len() && db[k] == '@';
            assert(da[k] == '@');
        }
        assert(ascii_lowered(da) =~= ascii_lowered(db));
        assert(ascii_lowered(a.take(at)) =~= ascii_lowered(b.take(at)));
    }
}

/// Different byte strings have different encodings.
pub proof fn zbase32_is_injective(a: Seq<u8>, b: Seq<u8>)
    requires
        zbase32(a) == zbase32(b),
    ensures
        a == b,
{
    assert(zbase32_len(a.len()) == zbase32(a).len() && zbase32_len(b.len()) == zbase32(b).len());
    assert(a.len() == b.len());
    assert forall|k: int| 0 <= k < 8 * a.len() implies bit_at(a, k) == bit_at(b, k) by {
        let g = k / 5;
        assert(0 <= g < zbase32_len(a.len()));
        assert(zbase32(a)[g] == ZBASE32_ALPHABET@[quintet(a, 5 * g)]);
        assert(zbase32(b)[g] == ZBASE32_ALPHABET@[quintet(b, 5 * g)]);
        let x = quintet(a, 5 * g);
        let y = quintet(b, 5 * g);
        assert(0 <= x < 32 && 0 <= y < 32);
        alphabet_is_injective(x, y);
        assert(k == 5 * g || k == 5 * g + 1 || k == 5 * g + 2 || k == 5 * g + 3 || k == 5 * g + 4);
    }
    assert forall|i: int| 0 <= i < a.len() implies a[i] == b[i] by {
        let x: u8 = a[i];
        let y: u8 = b[i];
        assert forall|t: int| 0 <= t < 8 implies ((#[trigger] (x >> (t as u8))) & 1u8 == 1u8) == ((y
            >> (t as u8)) & 1u8 == 1u8) by {
            let k = 8 * i + 7 - t;
            assert(k / 8 == i && 7 - k % 8 == t);
            assert(bit_at(a, k) == bit_at(b, k));
        }
        assert((x >> (0int as u8)) & 1u8 == 1u8 <==> (y >> (0int as u8)) & 1u8 == 1u8);
        assert((x >> (1int as u8)) & 1u8 == 1u8 <==> (y >> (1int as u8)) & 1u8 == 1u8);
        assert((x >> (2int as u8)) & 1u8 == 1u8 <==> (y >> (2int as u8)) & 1u8 == 1u8);
        assert((x >> (3int as u8)) & 1u8 == 1u8 <==> (y >> (3int as u8)) & 1u8 == 1u8);
        assert((x >> (4int as u8)) & 1u8 == 1u8 <==> (y >> (4int as u8)) & 1u8 == 1u8);
        assert((x >> (5int as u8)) & 1u8 == 1u8 <==> (y >> (5int as u8)) & 1u8 == 1u8);
        assert((x >> (6int as u8)) & 1u8 == 1u8 <==> (y >> (6int as u8)) & 1u8 == 1u8);
        assert((x >> (7int as u8)) & 1u8 == 1u8 <==> (y >> (7int as u8)) & 1u8 == 1u8);
        assert(x == y) by (bit_vector)
            requires
                ((x >> 0u8) & 1u8 == 1u8) == ((y >> 0u8) & 1u8 == 1u8),
                ((x >> 1u8) & 1u8 == 1u8) == ((y >> 1u8) & 1u8 == 1u8),
                ((x >> 2u8) & 1u8 == 1u8) == ((y >> 2u8) & 1u8 == 1u8),
                ((x >> 3u8) & 1u8 == 1u8) == ((y >> 3u8) & 1u8 == 1u8),
                ((x >> 4u8) & 1u8 == 1u8) == ((y >> 4u8) & 1u8 == 1u8),
                ((x >> 5u8) & 1u8 == 1u8) == ((y >> 5u8) & 1u8 == 1u8),
                ((x >> 6u8) & 1u8 == 1u8) == ((y >> 6u8) & 1u8 == 1u8),
                ((x >> 7u8) & 1u8 == 1u8) == ((y >> 7u8) & 1u8 == 1u8),
        ;
    }
    assert(a =~= b);
}

proof fn alphabet_is_injective(x: int, y: int)
    requires
        0 <= x < 32,
        0 <= y < 32,
        ZBASE32_ALPHABET@[x] == ZBASE32_ALPHABET@[y],
    ensures
        x == y,
{
}

/// All of a local part goes into its hash: what is digested is the encoding of
/// a text of the same length, with the same characters at the same places, the
/// ASCII upper-case letters in lower case.
pub proof fn every_character_of_a_local_part_is_hashed(local: Seq<char>) -> (text: Seq<char>)
    ensures
        text.len() == local.len(),
        forall|i: int|
            0 <= i < local.len() ==> (#[trigger] text[i]) as int == local[i] as int + (if 65
                <= local[i] as int <= 90 {
                32int
            } else {
                0
            }),
        local_part_hash(local) == zbase32(sha1_digest(encode_utf8(text))),
{
    ascii_lowered(local)
}

/// The key of `local@domain` is published under the hash of the local part and
/// under the domain, both in lower case.
pub proof fn both_sides_of_an_address_are_published(local: Seq<char>, domain: Seq<char>)
    requires
        local.len() > 0,
        domain.len() > 0,
        !local.contains('@'),
        !domain.contains('@'),
    ensures
        directory_entry(local + seq!['@'] + domain) == Some(
            (zbase32(sha1_digest(encode_utf8(ascii_lowered(local)))), ascii_lowered(domain)),
        ),
{
    address_parts_exact(local + seq!['@'] + domain, local, domain);
}

/// A text is published only if it has a local part, one `@` and a domain.
pub proof fn only_addresses_are_published(s: Seq<char>) -> (parts: (Seq<char>, Seq<char>))
    requires
        directory_entry(s) is Some,
    ensures
        s == parts.0 + seq!['@'] + parts.1,
        parts.0.len() > 0,
        parts.1.len() > 0,
        !parts.0.contains('@'),
        !parts.1.contains('@'),
{
    let parts = address_parts(s)->0;
    address_parts_exact(s, parts.0, parts.1);
    parts
}

/// Bit `t` of a byte, by division.
proof fn bit_by_division(x: u8, t: int)
    requires
        0 <= t < 8,
    ensures
        ((x >> (t as u8)) & 1u8 == 1u8) <==> (x as int / pow2(t as nat) as int) % 2 == 1,
{
    lemma2_to64();
    assert((x >> 0u8) & 1u8 == (x / 1) % 2 && (x >> 1u8) & 1u8 == (x / 2) % 2 && (x >> 2u8) & 1u8
        == (x / 4) % 2 && (x >> 3u8) & 1u8 == (x / 8) % 2 && (x >> 4u8) & 1u8 == (x / 16) % 2
        && (x >> 5u8) & 1u8 == (x / 32) % 2 && (x >> 6u8) & 1u8 == (x / 64) % 2 && (x >> 7u8) & 1u8
        == (x / 128) % 2) by (bit_vector);
}

/// The encoding has one character for each five bits that have begun.
pub proof fn zbase32_covers_the_data(data: Seq<u8>)
    ensures
        5 * zbase32(data).len() - 4 <= 8 * data.len() <= 5 * zbase32(data).len(),
{
}

/// Each character of the encoding stands at the place of the alphabet that has
/// the next five bits, most significant first: bit `j` of the place of character
/// `i` is bit `5 * i + j` of the data, or zero past their end.
pub proof fn zbase32_spells_the_bits(data: Seq<u8>, i: int) -> (place: int)
    requires
        0 <= 5 * i < 8 * data.len(),
    ensures
        0 <= place < 32,
        zbase32(data)[i] == "ybndrfg8ejkmcpqxot1uwisza345h769"@[place],
        forall|j: int|
            0 <= j < 5 ==> (place / #[trigger] pow2((4 - j) as nat) as int) % 2 == (if 5 * i + j < 8
                * data.len() {
                (data[(5 * i + j) / 8] as int / pow2((7 - (5 * i + j) % 8) as nat) as int) % 2
            } else {
                0
            }),
{
    reveal_strlit("ybndrfg8ejkmcpqxot1uwisza345h769");
    lemma2_to64();
    let place = quintet(data, 5 * i);
    assert(ZBASE32_ALPHABET@ =~= "ybndrfg8ejkmcpqxot1uwisza345h769"@);
    assert forall|j: int| 0 <= j < 5 implies (place / #[trigger] pow2((4 - j) as nat) as int) % 2
        == (if 5 * i + j < 8 * data.len() {
        (data[(5 * i + j) / 8] as int / pow2((7 - (5 * i + j) % 8) as nat) as int) % 2
    } else {
        0
    }) by {
        let k = 5 * i + j;
        assert((place / pow2((4 - j) as nat) as int) % 2 == (if bit_at(data, k) {
            1int
        } else {
            0
        })) by {
            assert(j == 0 || j == 1 || j == 2 || j == 3 || j == 4);
            assert(pow2(0) == 1 && pow2(1) == 2 && pow2(2) == 4 && pow2(3) == 8 && pow2(4) == 16);
            let (b0, b1, b2, b3, b4) = (
                if bit_at(data, 5 * i) {
                    1int
                } else {
                    0
                },
                if bit_at(data, 5 * i + 1) {
                    1int
                } else {
                    0
                },
                if bit_at(data, 5 * i + 2) {
                    1int
                } else {
                    0
                },
                if bit_at(data, 5 * i + 3) {
                    1int
                } else {
                    0
                },
                if bit_at(data, 5 * i + 4) {
                    1int
                } else {
                    0
                },
            );
            assert(place == 16 * b0 + 8 * b1 + 4 * b2 + 2 * b3 + b4);
            assert(place / 16 == b0);
            assert(place / 8 == 2 * b0 + b1);
            assert(place / 4 == 4 * b0 + 2 * b1 + b2);
            assert(place / 2 == 8 * b0 + 4 * b1 + 2 * b2 + b3);
        }
        if k < 8 * data.len() {
            bit_by_division(data[k / 8], 7 - k % 8);
        }
    }
    place
}

/// An error about an address names the text that it is about, and says what is
/// wrong with it.
pub proof fn address_errors_name_the_text(address: String)
    ensures
        AddressError::MissingAt(address).message() == "address '"@ + address@
            + "' is missing '@'"@,
        AddressError::Malformed(address).message() == "address '"@ + address@
            + "' is not a valid email address"@,
{
}

} // verus!
