//! The service configuration and the configuration of the user directory.

use vstd::prelude::*;
use vstd::string::*;

use crate::text::{
    any_ignoring_case, ascii_lowered, chars_of, contains_ignoring_case, join3, same_ignoring_case,
    string_of, texts,
};

verus! {

/// The name of the header that carries the authenticated identity, where none
/// is configured.
pub fn default_sso_header_name() -> (r: String)
    ensures
        r@ == "Remote-User"@,
{
    "Remote-User".to_owned()
}

/// The permission bits of a socket, where none are configured.
pub fn default_socket_mode() -> (r: String)
    ensures
        r@ == "0660"@,
{
    "0660".to_owned()
}

/// The attribute that holds the uid, where none is configured.
pub fn default_uid_attr() -> (r: String)
    ensures
        r@ == "uid"@,
{
    "uid".to_owned()
}

/// The attribute that holds the main address, where none is configured.
pub fn default_mail_attr() -> (r: String)
    ensures
        r@ == "mail"@,
{
    "mail".to_owned()
}

/// How long an LDAP lookup may take, in seconds, where nothing is configured.
pub fn default_timeout_secs() -> (r: u64)
    ensures
        r == 10,
{
    10
}

/// A Unix domain socket and its permission bits, in octal digits.
#[derive(Debug, Clone)]
pub struct SocketConfig {
    pub path: String,
    pub mode: String,
}

/// The text without any leading `0o`.
pub open spec fn without_octal_prefix(s: Seq<char>) -> Seq<char>
    decreases s.len(),
{
    if s.len() >= 2 && s[0] == '0' && s[1] == 'o' {
        without_octal_prefix(s.skip(2))
    } else {
        s
    }
}

/// All characters are octal digits.
pub open spec fn all_octal(s: Seq<char>) -> bool {
    forall|i: int| 0 <= i < s.len() ==> '0' <= #[trigger] s[i] <= '7'
}

/// The number that octal digits stand for.
pub open spec fn octal_number(s: Seq<char>) -> int
    decreases s.len(),
{
    if s.len() == 0 {
        0
    } else {
        octal_number(s.drop_last()) * 8 + (s.last() as int - '0' as int)
    }
}

/// What follows a plus sign, if one stands in front.
pub open spec fn without_plus(s: Seq<char>) -> Seq<char> {
    if s.len() > 0 && s[0] == '+' {
        s.drop_first()
    } else {
        s
    }
}

/// The number that a text stands for in octal: a plus sign may stand in front,
/// one digit at least has to follow and nothing but digits, and the number has
/// to fit.
pub open spec fn octal_value(s: Seq<char>) -> Option<int> {
    let digits = without_plus(s);
    if digits.len() > 0 && all_octal(digits) && octal_number(digits) <= u32::MAX {
        Some(octal_number(digits))
    } else {
        None
    }
}

/// Some digits at the front stand for a number that does not fit.
pub open spec fn octal_overflows(digits: Seq<char>) -> bool {
    exists|k: int|
        0 <= k <= digits.len() && all_octal(#[trigger] digits.take(k)) && octal_number(
            digits.take(k),
        ) > u32::MAX
}

/// What is wrong with a text that is no octal number.
pub open spec fn octal_error(s: Seq<char>) -> Seq<char> {
    if s.len() == 0 {
        "cannot parse integer from empty string"@
    } else if octal_overflows(without_plus(s)) {
        "number too large to fit in target type"@
    } else {
        "invalid digit found in string"@
    }
}

/// More digits make no smaller number.
proof fn octal_number_grows(digits: Seq<char>, k: int)
    requires
        all_octal(digits),
        0 <= k <= digits.len(),
    ensures
        0 <= octal_number(digits.take(k)) <= octal_number(digits),
    decreases digits.len(), digits.len() - k,
{
    if k < digits.len() {
        let fewer = digits.drop_last();
        assert(fewer.take(k) == digits.take(k));
        octal_number_grows(fewer, k);
    } else {
        assert(digits.take(k) == digits);
        if k > 0 {
            octal_number_grows(digits.drop_last(), 0);
        }
    }
}

/// Reads an octal number.
fn parse_octal(s: &str) -> (r: Result<u32, String>)
    ensures
        match r {
            Ok(n) => octal_value(s@) == Some(n as int),
            Err(e) => octal_value(s@) is None && e@ == octal_error(s@),
        },
{
    let chars: Vec<char> = chars_of(s);
    if chars.len() == 0 {
        return Err("cannot parse integer from empty string".to_owned());
    }
    let start: usize = if chars[0] == '+' {
        1
    } else {
        0
    };
    let ghost digits = without_plus(s@);
    assert(digits == chars@.skip(start as int));
    let mut n: u32 = 0;
    let mut i: usize = start;
    assert(digits.take(0).len() == 0);
    while i < chars.len()
        invariant
            start <= i <= chars@.len(),
            s@ == chars@,
            s@.len() > 0,
            digits == without_plus(s@),
            digits == chars@.skip(start as int),
            all_octal(digits.take(i - start)),
            n == octal_number(digits.take(i - start)),
        decreases chars@.len() - i,
    {
        let c: char = chars[i];
        let ghost k = i - start;
        assert(digits[k] == c);
        if c < '0' || '7' < c {
            proof {
                assert(!all_octal(digits));
                assert forall|m: int|
                    0 <= m <= digits.len() && all_octal(#[trigger] digits.take(m)) implies octal_number(
                    digits.take(m),
                ) <= u32::MAX by {
                    if m > k {
                        assert(digits.take(m)[k] == c);
                    } else {
                        octal_number_grows(digits.take(k), m);
                        assert(digits.take(k).take(m) == digits.take(m));
                    }
                }
            }
            return Err("invalid digit found in string".to_owned());
        }
        let wide: u64 = n as u64 * 8 + (c as u64 - '0' as u64);
        proof {
            let more = digits.take(k + 1);
            assert(more.drop_last() == digits.take(k));
            assert forall|m: int| 0 <= m < more.len() implies '0' <= #[trigger] more[m] <= '7' by {
                if m < k {
                    assert(more[m] == digits.take(k)[m]);
                }
            }
            assert(octal_number(more) == wide);
            if wide > u32::MAX && all_octal(digits) {
                octal_number_grows(digits, k + 1);
            }
        }
        if wide > u32::MAX as u64 {
            return Err("number too large to fit in target type".to_owned());
        }
        n = wide as u32;
        i = i + 1;
    }
    assert(digits.take(i - start) == digits);
    if i == start {
        return Err("invalid digit found in string".to_owned());
    }
    Ok(n)
}

fn strip_octal_prefix(s: &str) -> (r: String)
    ensures
        r@ == without_octal_prefix(s@),
{
    let chars: Vec<char> = chars_of(s);
    let mut i: usize = 0;
    assert(chars@.skip(0) == chars@);
    while chars.len() - i >= 2 && chars[i] == '0' && chars[i + 1] == 'o'
        invariant
            i <= chars@.len(),
            without_octal_prefix(chars@) == without_octal_prefix(chars@.skip(i as int)),
        decreases chars@.len() - i,
    {
        assert(chars@.skip(i as int).skip(2) == chars@.skip(i + 2));
        i = i + 2;
    }
    let mut rest: Vec<char> = Vec::new();
    let ghost start = i;
    while i < chars.len()
        invariant
            start <= i <= chars@.len(),
            rest@ == chars@.subrange(start as int, i as int),
        decreases chars@.len() - i,
    {
        rest.push(chars[i]);
        i = i + 1;
    }
    assert(rest@ == chars@.skip(start as int));
    string_of(&rest)
}

impl SocketConfig {
    /// The permission bits as a number.
    pub fn mode_bits(&self) -> (r: Result<u32, String>)
        ensures
            match r {
                Ok(bits) => octal_value(without_octal_prefix(self.mode@)) == Some(bits as int),
                Err(e) => octal_value(without_octal_prefix(self.mode@)) is None && e@
                    == "invalid socket mode '"@ + self.mode@ + "': "@ + octal_error(
                    without_octal_prefix(self.mode@),
                ),
            },
    {
        let digits: String = strip_octal_prefix(self.mode.as_str());
        match parse_octal(digits.as_str()) {
            Ok(bits) => Ok(bits),
            Err(e) => Err(
                join3("invalid socket mode '", self.mode.as_str(), "': ").concat(e.as_str()),
            ),
        }
    }
}

/// The main configuration.
#[derive(Debug, Clone)]
pub struct Config {
    pub allowed_domains: Vec<String>,
    pub db_path: String,
    pub sso_header_name: String,
    pub userdb_config: String,
    pub query_socket: SocketConfig,
    pub mgmt_socket: SocketConfig,
    /// Where the built frontend lies, if it is served from here.
    pub frontend_dist_dir: Option<String>,
}

impl Config {
    /// Whether keys of a domain are served, whatever the case of its letters.
    pub fn is_domain_allowed(&self, domain: &str) -> (r: bool)
        ensures
            r == contains_ignoring_case(texts(self.allowed_domains@), domain@),
            r == exists|i: int|
                0 <= i < self.allowed_domains@.len() && ascii_lowered(
                    (#[trigger] self.allowed_domains@[i])@,
                ) == ascii_lowered(domain@),
    {
        proof {
            let list = texts(self.allowed_domains@);
            if contains_ignoring_case(list, domain@) {
                let i = choose|i: int|
                    0 <= i < list.len() && same_ignoring_case(#[trigger] list[i], domain@);
                assert(ascii_lowered(self.allowed_domains@[i]@) == ascii_lowered(domain@));
            }
            if exists|i: int|
                0 <= i < self.allowed_domains@.len() && ascii_lowered(
                    (#[trigger] self.allowed_domains@[i])@,
                ) == ascii_lowered(domain@) {
                let i = choose|i: int|
                    0 <= i < self.allowed_domains@.len() && ascii_lowered(
                        (#[trigger] self.allowed_domains@[i])@,
                    ) == ascii_lowered(domain@);
                assert(same_ignoring_case(list[i], domain@));
            }
        }
        any_ignoring_case(&self.allowed_domains, domain)
    }
}

/// The configuration of the user directory; its backend decides its shape.
#[derive(Debug, Clone)]
pub enum UserDbConfig {
    Flatfile(FlatfileUserDbConfig),
    Ldap(LdapUserDbConfig),
}

/// The users in a file, each with a uid.
#[derive(Debug, Clone)]
pub struct FlatfileUserDbConfig {
    pub users: Vec<(String, FlatfileUserRecord)>,
}

/// What a file holds of a user.
#[derive(Debug, Clone)]
pub struct FlatfileUserRecord {
    pub addresses: Vec<String>,
}

/// Where an LDAP directory is, and which of its attributes are read.
#[derive(Debug, Clone)]
pub struct LdapUserDbConfig {
    pub uri: String,
    pub bind_dn: String,
    pub bind_password: String,
    pub base_dn: String,
    pub uid_attr: String,
    pub mail_attr: String,
    pub alias_attr: String,
    /// How long a lookup may take as a whole.
    pub timeout_secs: u64,
}

// ---------------------------------------------------------------------
// Laws
// ---------------------------------------------------------------------

/// Every leading `0o` is taken off, and nothing else.
pub proof fn octal_prefixes_are_taken_off(s: Seq<char>)
    ensures
        without_octal_prefix(seq!['0', 'o'] + s) == without_octal_prefix(s),
        s.len() < 2 || s[0] != '0' || s[1] != 'o' ==> without_octal_prefix(s) == s,
{
    let more = seq!['0', 'o'] + s;
    assert(more.skip(2) == s);
}

/// Each octal digit counts eight times as much as the one behind it.
pub proof fn octal_digits_count_by_their_place(s: Seq<char>, c: char)
    ensures
        octal_number(Seq::<char>::empty()) == 0,
        octal_number(s.push(c)) == 8 * octal_number(s) + (c as int - 48),
        all_octal(s) <==> forall|i: int| 0 <= i < s.len() ==> 48 <= (#[trigger] s[i]) as int <= 55,
{
    assert(s.push(c).drop_last() == s);
}

/// A text of octal digits, one at least, stands for its number if that fits in 32
/// bits, with a plus sign in front or without; any other text stands for none.
pub proof fn octal_text_stands_for_its_number(digits: Seq<char>)
    requires
        digits.len() > 0 ==> digits[0] != '+',
    ensures
        octal_value(digits) == octal_value(seq!['+'] + digits),
        octal_value(digits) is Some <==> digits.len() > 0 && (forall|i: int|
            0 <= i < digits.len() ==> 48 <= (#[trigger] digits[i]) as int <= 55) && octal_number(
            digits,
        ) < 0x1_0000_0000,
        octal_value(digits) is Some ==> octal_value(digits)->0 == octal_number(digits),
        octal_value(seq!['+', '+'] + digits) is None,
{
    assert((seq!['+'] + digits).drop_first() == digits);
    let twice = (seq!['+', '+'] + digits).drop_first();
    assert(twice[0] == '+');
    assert(!all_octal(twice));
}

/// What is wrong with a text that stands for no number: that it is empty, that some
/// digits at its front are too large a number, or that it holds something else.
pub proof fn octal_errors_are_told_apart(s: Seq<char>)
    requires
        s.len() > 0,
        s[0] != '+',
    ensures
        octal_error(Seq::<char>::empty()) == "cannot parse integer from empty string"@,
        octal_error(s) == octal_error(seq!['+'] + s),
        octal_error(s) == (if exists|k: int|
            0 <= k <= s.len() && all_octal(#[trigger] s.take(k)) && octal_number(s.take(k))
                >= 0x1_0000_0000 {
            "number too large to fit in target type"@
        } else {
            "invalid digit found in string"@
        }),
{
    assert((seq!['+'] + s).drop_first() == s);
}

} // verus!
