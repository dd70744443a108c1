//! A user directory that is asked over LDAP, read-only. What to ask and what to
//! make of the answer stands here; the connection is the caller's.

use vstd::prelude::*;
use vstd::string::*;

use crate::config::LdapUserDbConfig;
use crate::text::{
    ascii_lowered, decimal, eq_ignore_ascii_case, join3, same_ignoring_case, texts, u64_text,
};

verus! {

/// The user directory of the backend `ldap`.
pub struct LdapUserDb {
    uri: String,
    bind_dn: String,
    bind_password: String,
    base_dn: String,
    uid_attr: String,
    mail_attr: String,
    alias_attr: String,
    timeout_secs: u64,
}

/// The settings of a directory as mathematical values.
pub struct LdapView {
    pub uri: Seq<char>,
    pub bind_dn: Seq<char>,
    pub bind_password: Seq<char>,
    pub base_dn: Seq<char>,
    pub uid_attr: Seq<char>,
    pub mail_attr: Seq<char>,
    pub alias_attr: Seq<char>,
    pub timeout_secs: int,
}

impl View for LdapUserDb {
    type V = LdapView;

    closed spec fn view(&self) -> LdapView {
        LdapView {
            uri: self.uri@,
            bind_dn: self.bind_dn@,
            bind_password: self.bind_password@,
            base_dn: self.base_dn@,
            uid_attr: self.uid_attr@,
            mail_attr: self.mail_attr@,
            alias_attr: self.alias_attr@,
            timeout_secs: self.timeout_secs as int,
        }
    }
}

/// The settings that a configuration gives.
pub open spec fn settings(cfg: LdapUserDbConfig) -> LdapView {
    LdapView {
        uri: cfg.uri@,
        bind_dn: cfg.bind_dn@,
        bind_password: cfg.bind_password@,
        base_dn: cfg.base_dn@,
        uid_attr: cfg.uid_attr@,
        mail_attr: cfg.mail_attr@,
        alias_attr: cfg.alias_attr@,
        timeout_secs: cfg.timeout_secs as int,
    }
}

/// The message for a timeout of zero.
pub open spec fn zero_timeout_message() -> Seq<char> {
    "ldap.timeout_secs must be greater than zero (0 would make every lookup time out immediately)"@
}

// ---------------------------------------------------------------------
// What is asked
// ---------------------------------------------------------------------

/// The hexadecimal digit for a number below sixteen, in lower case.
pub open spec fn hex_digit(n: int) -> char {
    if n < 10 {
        (48 + n) as char
    } else {
        (87 + n) as char
    }
}

/// The characters that mean something in a search filter.
pub open spec fn is_filter_special(c: char) -> bool {
    c == '\\' || c == '*' || c == '(' || c == ')' || c == '\0'
}

/// A character as it is written in a search filter.
pub open spec fn ldap_escaped_char(c: char) -> Seq<char> {
    if is_filter_special(c) {
        seq!['\\', hex_digit(c as int / 16), hex_digit(c as int % 16)]
    } else {
        seq![c]
    }
}

/// A text as it is written in a search filter.
pub open spec fn ldap_escaped(s: Seq<char>) -> Seq<char>
    decreases s.len(),
{
    if s.len() == 0 {
        seq![]
    } else {
        ldap_escaped(s.drop_last()) + ldap_escaped_char(s.last())
    }
}

/// Calls `ldap3::ldap_escape`, which replaces a backslash, an asterisk, a round
/// bracket and the null character by a backslash and the two hexadecimal digits
/// of the character, and keeps every other character.
#[verifier::external_body]
fn escape_for_filter(s: &str) -> (r: String)
    ensures
        r@ == ldap_escaped(s@),
{
    ldap3::ldap_escape(s).into_owned()
}

/// Nothing in an escaped text means something in a search filter, except the
/// backslashes that the escapes begin with.
pub proof fn escaped_text_is_inert(s: Seq<char>)
    ensures
        forall|i: int|
            0 <= i < ldap_escaped(s).len() ==> (#[trigger] ldap_escaped(s)[i]) == '\\'
                || !is_filter_special(ldap_escaped(s)[i]),
    decreases s.len(),
{
    if s.len() > 0 {
        let head = ldap_escaped(s.drop_last());
        let tail = ldap_escaped_char(s.last());
        escaped_text_is_inert(s.drop_last());
        assert forall|i: int| 0 <= i < ldap_escaped(s).len() implies (#[trigger] ldap_escaped(s)[i])
            == '\\' || !is_filter_special(ldap_escaped(s)[i]) by {
            if i < head.len() {
                assert(ldap_escaped(s)[i] == head[i]);
            } else {
                assert(ldap_escaped(s)[i] == tail[i - head.len()]);
            }
        }
    }
}

/// The search for one uid, with all that is needed to make it.
pub struct LdapSearch {
    pub uri: String,
    pub bind_dn: String,
    pub bind_password: String,
    pub base_dn: String,
    pub filter: String,
    pub attributes: Vec<String>,
    pub timeout_secs: u64,
}

/// The filter that selects the entries of a uid.
pub open spec fn uid_filter(uid_attr: Seq<char>, uid: Seq<char>) -> Seq<char> {
    "("@ + uid_attr + "="@ + ldap_escaped(uid) + ")"@
}

// ---------------------------------------------------------------------
// What is answered
// ---------------------------------------------------------------------

/// An attribute of an entry, under the name that the server gave it.
pub struct LdapAttribute {
    pub name: String,
    pub values: Vec<String>,
}

/// An entry that a search found.
pub struct LdapEntry {
    pub attributes: Vec<LdapAttribute>,
}

/// The values of the first attribute with a name, whatever the case of its
/// letters.
pub open spec fn attr_values(attrs: Seq<LdapAttribute>, name: Seq<char>) -> Option<Seq<Seq<char>>>
    decreases attrs.len(),
{
    if attrs.len() == 0 {
        None
    } else if same_ignoring_case(attrs[0].name@, name) {
        Some(texts(attrs[0].values@))
    } else {
        attr_values(attrs.drop_first(), name)
    }
}

/// Finds an attribute by name, whatever the case of its letters: the names of
/// attributes are case-insensitive, and a server need not answer with the case
/// it was asked in.
pub fn find_attr_ci<'a>(attrs: &'a Vec<LdapAttribute>, name: &str) -> (r: Option<&'a Vec<String>>)
    ensures
        match r {
            Some(values) => attr_values(attrs@, name@) == Some(texts(values@)),
            None => attr_values(attrs@, name@) is None,
        },
{
    let mut i: usize = 0;
    assert(attrs@.skip(0) == attrs@);
    while i < attrs.len()
        invariant
            i <= attrs@.len(),
            attr_values(attrs@, name@) == attr_values(attrs@.skip(i as int), name@),
        decreases attrs@.len() - i,
    {
        if eq_ignore_ascii_case(attrs[i].name.as_str(), name) {
            return Some(&attrs[i].values);
        }
        assert(attrs@.skip(i as int).drop_first() == attrs@.skip(i + 1));
        i = i + 1;
    }
    None
}

/// Which attribute is found does not depend on the case in which it is asked
/// for.
pub proof fn attribute_case_does_not_matter(
    attrs: Seq<LdapAttribute>,
    a: Seq<char>,
    b: Seq<char>,
)
    requires
        same_ignoring_case(a, b),
    ensures
        attr_values(attrs, a) == attr_values(attrs, b),
    decreases attrs.len(),
{
    if attrs.len() > 0 {
        attribute_case_does_not_matter(attrs.drop_first(), a, b);
    }
}

/// The values of an attribute that may be missing.
pub open spec fn values_or_none(values: Option<Seq<Seq<char>>>) -> Seq<Seq<char>> {
    match values {
        Some(v) => v,
        None => seq![],
    }
}

/// The addresses of the entries: of each entry, in order, the values of the
/// main attribute and then those of the alias attribute.
pub open spec fn addresses_in(
    entries: Seq<LdapEntry>,
    mail_attr: Seq<char>,
    alias_attr: Seq<char>,
) -> Seq<Seq<char>>
    decreases entries.len(),
{
    if entries.len() == 0 {
        seq![]
    } else {
        addresses_in(entries.drop_last(), mail_attr, alias_attr) + values_or_none(
            attr_values(entries.last().attributes@, mail_attr),
        ) + values_or_none(attr_values(entries.last().attributes@, alias_attr))
    }
}

fn append_values(out: &mut Vec<String>, values: Option<&Vec<String>>)
    ensures
        texts(final(out)@) == texts(old(out)@) + (match values {
            Some(v) => texts(v@),
            None => seq![],
        }),
{
    if let Some(v) = values {
        let ghost before = texts(out@);
        let mut i: usize = 0;
        while i < v.len()
            invariant
                i <= v@.len(),
                texts(out@) == before + texts(v@).take(i as int),
            decreases v@.len() - i,
        {
            let ghost last = out@;
            out.push(v[i].clone());
            assert(texts(out@) == texts(last).push(v@[i as int]@));
            i = i + 1;
        }
        assert(texts(v@).take(i as int) == texts(v@));
    }
    assert(texts(out@) == texts(old(out)@) + (match values {
        Some(v) => texts(v@),
        None => seq![],
    }));
}

/// What the entries of a uid say.
pub struct LdapAnswer {
    pub addresses: Vec<String>,
    /// An entry was found, but no address in it: more likely an attribute is
    /// misconfigured than that the user has no address.
    pub suspicious: bool,
}

/// How `{:?}` writes a text.
pub uninterp spec fn quoted_text(s: Seq<char>) -> Seq<char>;

/// Calls `<str as Debug>::fmt` by way of `{:?}`. The result is a function of the
/// text; what it is for a given text is not said.
#[verifier::external_body]
fn quote(s: &str) -> (r: String)
    ensures
        r@ == quoted_text(s@),
{
    format!("{:?}", s)
}

/// A number of seconds with its unit.
pub open spec fn seconds_text(secs: nat) -> Seq<char> {
    decimal(secs) + "s"@
}

impl LdapUserDb {
    #[verifier::type_invariant]
    spec fn has_timeout(self) -> bool {
        self.timeout_secs > 0
    }

    /// A directory with these settings; a timeout of zero is refused.
    pub fn new(cfg: LdapUserDbConfig) -> (r: Result<LdapUserDb, String>)
        ensures
            match r {
                Ok(db) => cfg.timeout_secs > 0 && db@ == settings(cfg),
                Err(e) => cfg.timeout_secs == 0 && e@ == zero_timeout_message(),
            },
    {
        if cfg.timeout_secs == 0 {
            return Err(
                "ldap.timeout_secs must be greater than zero (0 would make every lookup time out immediately)".to_owned(),
            );
        }
        Ok(
            LdapUserDb {
                uri: cfg.uri,
                bind_dn: cfg.bind_dn,
                bind_password: cfg.bind_password,
                base_dn: cfg.base_dn,
                uid_attr: cfg.uid_attr,
                mail_attr: cfg.mail_attr,
                alias_attr: cfg.alias_attr,
                timeout_secs: cfg.timeout_secs,
            },
        )
    }

    /// The search for the addresses of a uid.
    pub fn search_for(&self, uid: &str) -> (r: LdapSearch)
        ensures
            r.uri@ == self@.uri,
            r.bind_dn@ == self@.bind_dn,
            r.bind_password@ == self@.bind_password,
            r.base_dn@ == self@.base_dn,
            r.filter@ == uid_filter(self@.uid_attr, uid@),
            texts(r.attributes@) == seq![self@.mail_attr, self@.alias_attr],
            r.timeout_secs == self@.timeout_secs,
            r.timeout_secs > 0,
    {
        proof {
            use_type_invariant(self);
        }
        let escaped: String = escape_for_filter(uid);
        let mut filter: String = join3("(", self.uid_attr.as_str(), "=");
        filter.append(escaped.as_str());
        filter.append(")");
        let mut attributes: Vec<String> = Vec::new();
        attributes.push(self.mail_attr.clone());
        attributes.push(self.alias_attr.clone());
        assert(texts(attributes@) == seq![self@.mail_attr, self@.alias_attr]);
        LdapSearch {
            uri: self.uri.clone(),
            bind_dn: self.bind_dn.clone(),
            bind_password: self.bind_password.clone(),
            base_dn: self.base_dn.clone(),
            filter,
            attributes,
            timeout_secs: self.timeout_secs,
        }
    }

    /// Collects the addresses from the entries that the search found.
    pub fn collect_addresses(&self, entries: &Vec<LdapEntry>) -> (r: LdapAnswer)
        ensures
            texts(r.addresses@) == addresses_in(entries@, self@.mail_attr, self@.alias_attr),
            r.suspicious == (entries@.len() > 0 && r.addresses@.len() == 0),
    {
        let mut addresses: Vec<String> = Vec::new();
        let mut i: usize = 0;
        assert(texts(addresses@) == Seq::<Seq<char>>::empty());
        while i < entries.len()
            invariant
                i <= entries@.len(),
                texts(addresses@) == addresses_in(
                    entries@.take(i as int),
                    self@.mail_attr,
                    self@.alias_attr,
                ),
            decreases entries@.len() - i,
        {
            append_values(
                &mut addresses,
                find_attr_ci(&entries[i].attributes, self.mail_attr.as_str()),
            );
            append_values(
                &mut addresses,
                find_attr_ci(&entries[i].attributes, self.alias_attr.as_str()),
            );
            i = i + 1;
            assert(entries@.take(i as int).drop_last() == entries@.take(i - 1));
        }
        assert(entries@.take(i as int) == entries@);
        let suspicious: bool = entries.len() > 0 && addresses.len() == 0;
        LdapAnswer { addresses, suspicious }
    }

    /// The error for a search that took too long.
    pub fn timed_out(&self, uid: &str) -> (r: String)
        ensures
            r@ == "LDAP lookup for uid "@ + quoted_text(uid@) + " timed out after "@ + seconds_text(
                self@.timeout_secs as nat,
            ),
    {
        let quoted: String = quote(uid);
        let duration: String = u64_text(self.timeout_secs).concat("s");
        join3("LDAP lookup for uid ", quoted.as_str(), " timed out after ").concat(duration.as_str())
    }
}

// ---------------------------------------------------------------------
// Laws
// ---------------------------------------------------------------------

/// The settings are those of the configuration, every one of them.
pub proof fn settings_are_those_of_the_configuration(cfg: LdapUserDbConfig)
    ensures
        settings(cfg).uri == cfg.uri@,
        settings(cfg).bind_dn == cfg.bind_dn@,
        settings(cfg).bind_password == cfg.bind_password@,
        settings(cfg).base_dn == cfg.base_dn@,
        settings(cfg).uid_attr == cfg.uid_attr@,
        settings(cfg).mail_attr == cfg.mail_attr@,
        settings(cfg).alias_attr == cfg.alias_attr@,
        settings(cfg).timeout_secs == cfg.timeout_secs,
{
}

/// A text is escaped character by character.
pub proof fn escaping_is_character_by_character(a: Seq<char>, b: Seq<char>)
    ensures
        ldap_escaped(a + b) == ldap_escaped(a) + ldap_escaped(b),
        ldap_escaped(Seq::<char>::empty()).len() == 0,
    decreases b.len(),
{
    if b.len() == 0 {
        assert(a + b == a);
        assert(ldap_escaped(a + b) == ldap_escaped(a) + ldap_escaped(b));
    } else {
        escaping_is_character_by_character(a, b.drop_last());
        assert((a + b).drop_last() == a + b.drop_last());
        assert((a + b).last() == b.last());
        assert(ldap_escaped(a + b) == ldap_escaped(a) + ldap_escaped(b));
    }
}

/// The five characters that mean something in a filter are written by their numbers,
/// and every other one as it is.
pub proof fn special_characters_are_escaped(c: char)
    ensures
        ldap_escaped(seq!['\\']) == seq!['\\', '5', 'c'],
        ldap_escaped(seq!['*']) == seq!['\\', '2', 'a'],
        ldap_escaped(seq!['(']) == seq!['\\', '2', '8'],
        ldap_escaped(seq![')']) == seq!['\\', '2', '9'],
        ldap_escaped(seq!['\0']) == seq!['\\', '0', '0'],
        c != '\\' && c != '*' && c != '(' && c != ')' && c != '\0' ==> ldap_escaped(seq![c])
            == seq![c],
{
    let nothing = Seq::<char>::empty();
    assert(ldap_escaped(nothing) == nothing);
    assert(seq!['\\'].drop_last() == nothing);
    assert(seq!['*'].drop_last() == nothing);
    assert(seq!['('].drop_last() == nothing);
    assert(seq![')'].drop_last() == nothing);
    assert(seq!['\0'].drop_last() == nothing);
    assert(seq![c].drop_last() == nothing);
    assert(ldap_escaped(seq!['\\']) == seq!['\\', '5', 'c']);
    assert(ldap_escaped(seq!['*']) == seq!['\\', '2', 'a']);
    assert(ldap_escaped(seq!['(']) == seq!['\\', '2', '8']);
    assert(ldap_escaped(seq![')']) == seq!['\\', '2', '9']);
    assert(ldap_escaped(seq!['\0']) == seq!['\\', '0', '0']);
    if c != '\\' && c != '*' && c != '(' && c != ')' && c != '\0' {
        assert(ldap_escaped(seq![c]) == seq![c]);
    }
}

/// The filter asks for the entries whose uid attribute is the uid.
pub proof fn filter_asks_for_the_uid(uid_attr: Seq<char>, uid: Seq<char>)
    ensures
        uid_filter(uid_attr, uid) == seq!['('] + uid_attr + seq!['='] + ldap_escaped(uid)
            + seq![')'],
{
    reveal_strlit("(");
    reveal_strlit("=");
    reveal_strlit(")");
    assert("("@ == seq!['(']);
    assert("="@ == seq!['=']);
    assert(")"@ == seq![')']);
}

/// An attribute is found wherever it stands: its values are all those of the first one
/// with the name in any case of its letters.
pub proof fn first_attribute_with_the_name_is_found(
    attrs: Seq<LdapAttribute>,
    name: Seq<char>,
    i: int,
)
    requires
        0 <= i < attrs.len(),
        ascii_lowered(attrs[i].name@) == ascii_lowered(name),
        forall|j: int|
            0 <= j < i ==> ascii_lowered((#[trigger] attrs[j]).name@) != ascii_lowered(name),
    ensures
        attr_values(attrs, name) is Some,
        attr_values(attrs, name)->0.len() == attrs[i].values@.len(),
        forall|k: int|
            0 <= k < attrs[i].values@.len() ==> #[trigger] attr_values(attrs, name)->0[k]
                == attrs[i].values@[k]@,
    decreases attrs.len(),
{
    if i > 0 {
        let rest = attrs.drop_first();
        assert(ascii_lowered(attrs[0].name@) != ascii_lowered(name));
        assert forall|j: int| 0 <= j < i - 1 implies ascii_lowered((#[trigger] rest[j]).name@)
            != ascii_lowered(name) by {
            assert(rest[j] == attrs[j + 1]);
        }
        first_attribute_with_the_name_is_found(rest, name, i - 1);
    }
}

/// An attribute that no one has the name of is not found.
pub proof fn missing_attribute_is_not_found(attrs: Seq<LdapAttribute>, name: Seq<char>)
    requires
        forall|j: int|
            0 <= j < attrs.len() ==> ascii_lowered((#[trigger] attrs[j]).name@) != ascii_lowered(
                name,
            ),
    ensures
        attr_values(attrs, name) is None,
    decreases attrs.len(),
{
    if attrs.len() > 0 {
        let rest = attrs.drop_first();
        assert(ascii_lowered(attrs[0].name@) != ascii_lowered(name));
        assert forall|j: int| 0 <= j < rest.len() implies ascii_lowered((#[trigger] rest[j]).name@)
            != ascii_lowered(name) by {
            assert(rest[j] == attrs[j + 1]);
        }
        missing_attribute_is_not_found(rest, name);
    }
}

/// The addresses of all entries count, in their order.
pub proof fn addresses_of_every_entry_count(
    a: Seq<LdapEntry>,
    b: Seq<LdapEntry>,
    mail_attr: Seq<char>,
    alias_attr: Seq<char>,
)
    ensures
        addresses_in(a + b, mail_attr, alias_attr) == addresses_in(a, mail_attr, alias_attr)
            + addresses_in(b, mail_attr, alias_attr),
        addresses_in(Seq::<LdapEntry>::empty(), mail_attr, alias_attr).len() == 0,
    decreases b.len(),
{
    if b.len() == 0 {
        assert(a + b == a);
        assert(addresses_in(a + b, mail_attr, alias_attr) == addresses_in(a, mail_attr, alias_attr)
            + addresses_in(b, mail_attr, alias_attr));
    } else {
        addresses_of_every_entry_count(a, b.drop_last(), mail_attr, alias_attr);
        assert((a + b).drop_last() == a + b.drop_last());
        assert((a + b).last() == b.last());
        assert(addresses_in(a + b, mail_attr, alias_attr) == addresses_in(a, mail_attr, alias_attr)
            + addresses_in(b, mail_attr, alias_attr));
    }
}

/// Of an entry, all values of the main attribute count and, behind them, all values of
/// the alias attribute; a missing attribute has none.
pub proof fn both_attributes_of_an_entry_count(
    entry: LdapEntry,
    mail_attr: Seq<char>,
    alias_attr: Seq<char>,
)
    ensures
        ({
            let mail = attr_values(entry.attributes@, mail_attr);
            let alias = attr_values(entry.attributes@, alias_attr);
            addresses_in(seq![entry], mail_attr, alias_attr) == (match mail {
                Some(values) => values,
                None => seq![],
            }) + (match alias {
                Some(values) => values,
                None => seq![],
            })
        }),
{
    let one = seq![entry];
    assert(one.drop_last() == Seq::<LdapEntry>::empty());
    assert(addresses_in(one.drop_last(), mail_attr, alias_attr) == Seq::<Seq<char>>::empty());
    assert(one.last() == entry);
}

/// A number of seconds is written in digits, with its unit behind it; and the error
/// about a timeout of zero names the setting.
pub proof fn seconds_are_written_with_their_unit(secs: nat)
    ensures
        seconds_text(secs) == decimal(secs) + "s"@,
        zero_timeout_message()
            == "ldap.timeout_secs must be greater than zero (0 would make every lookup time out immediately)"@,
{
}

} // verus!
