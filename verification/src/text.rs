//! Text helpers: ASCII case folding, byte order, decimal numbers, trimming,
//! base64.

use vstd::prelude::*;
use vstd::string::*;
use vstd::utf8::*;

verus! {

/// `String::push` appends the character to the end of the string.
pub assume_specification[ String::push ](s: &mut String, c: char)
    ensures
        final(s)@ == old(s)@.push(c),
;

/// The ASCII lower-case form of a character; every other character is kept.
pub open spec fn ascii_lower(c: char) -> char {
    if 'A' <= c && c <= 'Z' {
        ((c as u8) + 32) as char
    } else {
        c
    }
}

/// The text with each ASCII upper-case letter replaced by its lower-case form.
pub open spec fn ascii_lowered(s: Seq<char>) -> Seq<char> {
    Seq::new(s.len(), |i: int| ascii_lower(s[i]))
}

/// Two texts that differ in the case of ASCII letters at most.
pub open spec fn same_ignoring_case(a: Seq<char>, b: Seq<char>) -> bool {
    ascii_lowered(a) == ascii_lowered(b)
}

/// The characters of each text of a list.
pub open spec fn texts(list: Seq<String>) -> Seq<Seq<char>> {
    Seq::new(list.len(), |i: int| list[i]@)
}

/// The byte strings of a list.
pub open spec fn byte_lists(v: Seq<Vec<u8>>) -> Seq<Seq<u8>> {
    Seq::new(v.len(), |i: int| v[i]@)
}

/// The characters of an optional text.
pub open spec fn opt_text(o: Option<String>) -> Option<Seq<char>> {
    match o {
        Some(s) => Some(s@),
        None => None,
    }
}

/// Some text of the list equals `s` up to ASCII case.
pub open spec fn contains_ignoring_case(list: Seq<Seq<char>>, s: Seq<char>) -> bool {
    exists|i: int| 0 <= i < list.len() && same_ignoring_case(#[trigger] list[i], s)
}

fn lower_char(c: char) -> (r: char)
    ensures
        r == ascii_lower(c),
{
    if 'A' <= c && c <= 'Z' {
        let b: u8 = c as u8;
        (b + 32) as char
    } else {
        c
    }
}

/// The characters of a text, in order.
pub fn chars_of(s: &str) -> (r: Vec<char>)
    ensures
        r@ == s@,
{
    let mut out: Vec<char> = Vec::new();
    for c in it: s.chars()
        invariant
            out@ == s@.take(it.index() as int),
            it.seq() == s@,
    {
        out.push(c);
    }
    out
}

/// The text made of the given characters.
pub fn string_of(chars: &Vec<char>) -> (r: String)
    ensures
        r@ == chars@,
{
    let mut out: String = String::new();
    let mut i: usize = 0;
    while i < chars.len()
        invariant
            i <= chars.len(),
            out@ == chars@.take(i as int),
        decreases chars.len() - i,
    {
        out.push(chars[i]);
        i = i + 1;
        assert(chars@.take(i as int) == chars@.take(i - 1).push(chars@[i - 1]));
    }
    out
}

/// Lower-cases the ASCII letters of a text and keeps everything else.
pub fn to_ascii_lowercase(s: &str) -> (r: String)
    ensures
        r@ == ascii_lowered(s@),
{
    let chars: Vec<char> = chars_of(s);
    let mut out: String = String::new();
    let mut i: usize = 0;
    while i < chars.len()
        invariant
            i <= chars.len(),
            out@ == ascii_lowered(chars@).take(i as int),
        decreases chars.len() - i,
    {
        out.push(lower_char(chars[i]));
        i = i + 1;
        assert(ascii_lowered(chars@).take(i as int) == ascii_lowered(chars@).take(i - 1).push(
            ascii_lower(chars@[i - 1]),
        ));
    }
    out
}

/// Whether two texts are the same.
pub fn same_text(a: &str, b: &str) -> (r: bool)
    ensures
        r == (a@ == b@),
{
    a.to_owned() == b.to_owned()
}

/// Whether two texts differ in the case of ASCII letters at most.
pub fn eq_ignore_ascii_case(a: &str, b: &str) -> (r: bool)
    ensures
        r == same_ignoring_case(a@, b@),
{
    to_ascii_lowercase(a) == to_ascii_lowercase(b)
}

/// Whether some text of the list equals `s` up to ASCII case.
pub fn any_ignoring_case(list: &Vec<String>, s: &str) -> (r: bool)
    ensures
        r == contains_ignoring_case(texts(list@), s@),
{
    let ghost views = texts(list@);
    let mut i: usize = 0;
    while i < list.len()
        invariant
            i <= list.len(),
            views == texts(list@),
            forall|j: int| 0 <= j < i ==> !same_ignoring_case(#[trigger] views[j], s@),
        decreases list.len() - i,
    {
        if eq_ignore_ascii_case(list[i].as_str(), s) {
            assert(same_ignoring_case(views[i as int], s@));
            return true;
        }
        i = i + 1;
    }
    false
}

/// The characters with the Unicode property `White_Space`.
pub open spec fn is_white_space(c: char) -> bool {
    ||| '\u{9}' <= c <= '\u{d}'
    ||| c == ' '
    ||| c == '\u{85}'
    ||| c == '\u{a0}'
    ||| c == '\u{1680}'
    ||| '\u{2000}' <= c <= '\u{200a}'
    ||| c == '\u{2028}'
    ||| c == '\u{2029}'
    ||| c == '\u{202f}'
    ||| c == '\u{205f}'
    ||| c == '\u{3000}'
}

/// The text without its leading and trailing white space.
pub open spec fn trimmed(s: Seq<char>) -> Seq<char>
    decreases s.len(),
{
    if s.len() > 0 && is_white_space(s.first()) {
        trimmed(s.drop_first())
    } else if s.len() > 0 && is_white_space(s.last()) {
        trimmed(s.drop_last())
    } else {
        s
    }
}

/// `str::trim` returns the text with leading and trailing white space removed,
/// white space being what has the Unicode property `White_Space`.
pub assume_specification[ str::trim ](s: &str) -> (r: &str)
    ensures
        r@ == trimmed(s@),
;

/// The text is made of white space only.
pub open spec fn all_white(s: Seq<char>) -> bool {
    forall|i: int| 0 <= i < s.len() ==> is_white_space(#[trigger] s[i])
}

/// White space around a text does not count once it is trimmed.
pub proof fn trimming_ignores_white_space_around(before: Seq<char>, s: Seq<char>, after: Seq<char>)
    requires
        all_white(before),
        all_white(after),
    ensures
        trimmed(before + s + after) == trimmed(s),
    decreases before.len() + s.len() + after.len(),
{
    let whole = before + s + after;
    if before.len() > 0 {
        assert(whole.first() == before[0]);
        assert(whole.drop_first() == before.drop_first() + s + after);
        assert(all_white(before.drop_first()));
        trimming_ignores_white_space_around(before.drop_first(), s, after);
    } else if after.len() == 0 {
        assert(whole == s);
    } else if s.len() == 0 {
        assert(whole.first() == after[0]);
        assert(whole.drop_first() == before + s + after.drop_first());
        assert(all_white(after.drop_first()));
        trimming_ignores_white_space_around(before, s, after.drop_first());
    } else if is_white_space(s.first()) {
        assert(whole.first() == s.first());
        assert(whole.drop_first() == before + s.drop_first() + after);
        trimming_ignores_white_space_around(before, s.drop_first(), after);
    } else {
        assert(whole.first() == s.first());
        assert(whole.last() == after.last());
        assert(is_white_space(after[after.len() - 1]));
        assert(whole.drop_last() == before + s + after.drop_last());
        assert(all_white(after.drop_last()));
        trimming_ignores_white_space_around(before, s, after.drop_last());
    }
}

/// The digit of standard base64 for a number below 64.
pub open spec fn base64_digit(n: int) -> char {
    if n < 26 {
        (65 + n) as char
    } else if n < 52 {
        (71 + n) as char
    } else if n < 62 {
        (n - 4) as char
    } else if n == 62 {
        '+'
    } else {
        '/'
    }
}

/// Data in standard base64: four digits for three bytes, and padding at the end.
pub open spec fn base64_text(data: Seq<u8>) -> Seq<char>
    decreases data.len(),
{
    if data.len() == 0 {
        seq![]
    } else if data.len() == 1 {
        let n = data[0] * 16;
        seq![base64_digit(n / 64), base64_digit(n % 64), '=', '=']
    } else if data.len() == 2 {
        let n = (data[0] * 256 + data[1]) * 4;
        seq![base64_digit(n / 4096), base64_digit(n / 64 % 64), base64_digit(n % 64), '=']
    } else {
        let n = data[0] * 65536 + data[1] * 256 + data[2];
        seq![
            base64_digit(n / 262144),
            base64_digit(n / 4096 % 64),
            base64_digit(n / 64 % 64),
            base64_digit(n % 64),
        ] + base64_text(data.skip(3))
    }
}

/// The characters of standard base64: its digits, and the padding.
pub open spec fn is_base64_char(c: char) -> bool {
    ||| 'A' <= c <= 'Z'
    ||| 'a' <= c <= 'z'
    ||| '0' <= c <= '9'
    ||| c == '+'
    ||| c == '/'
    ||| c == '='
}

/// The text is made of the characters of base64 only.
pub open spec fn all_base64(s: Seq<char>) -> bool {
    forall|i: int| 0 <= i < s.len() ==> is_base64_char(#[trigger] s[i])
}

/// Data in base64 is made of the characters of base64.
pub proof fn base64_text_is_base64(data: Seq<u8>)
    ensures
        all_base64(base64_text(data)),
    decreases data.len(),
{
    if data.len() > 2 {
        base64_text_is_base64(data.skip(3));
    }
}

/// Trimming leaves a text of base64 as it is.
pub proof fn base64_needs_no_trimming(s: Seq<char>)
    requires
        all_base64(s),
    ensures
        trimmed(s) == s,
{
    if s.len() > 0 {
        assert(is_base64_char(s[0]));
        assert(is_base64_char(s[s.len() - 1]));
    }
}

/// Byte strings in the order of a dictionary: the first differing byte
/// decides, and a proper prefix comes first.
pub open spec fn bytes_less(a: Seq<u8>, b: Seq<u8>) -> bool
    decreases a.len(),
{
    if b.len() == 0 {
        false
    } else if a.len() == 0 {
        true
    } else if a[0] != b[0] {
        a[0] < b[0]
    } else {
        bytes_less(a.drop_first(), b.drop_first())
    }
}

/// Texts in the order of their UTF-8 bytes.
pub open spec fn text_less(a: Seq<char>, b: Seq<char>) -> bool {
    bytes_less(encode_utf8(a), encode_utf8(b))
}

/// Compares two byte strings in dictionary order.
pub fn bytes_lt(a: &[u8], b: &[u8]) -> (r: bool)
    ensures
        r == bytes_less(a@, b@),
{
    let mut i: usize = 0;
    assert(a@.skip(0) == a@ && b@.skip(0) == b@);
    while i < a.len() && i < b.len()
        invariant
            i <= a.len(),
            i <= b.len(),
            bytes_less(a@, b@) == bytes_less(a@.skip(i as int), b@.skip(i as int)),
        decreases a.len() - i,
    {
        if a[i] != b[i] {
            return a[i] < b[i];
        }
        i = i + 1;
        assert(a@.skip(i - 1).drop_first() == a@.skip(i as int));
        assert(b@.skip(i - 1).drop_first() == b@.skip(i as int));
    }
    i < b.len()
}

/// Compares two texts in the order of their UTF-8 bytes.
pub fn text_lt(a: &str, b: &str) -> (r: bool)
    ensures
        r == text_less(a@, b@),
{
    bytes_lt(a.as_bytes(), b.as_bytes())
}

/// No byte string comes before itself.
pub proof fn bytes_less_irreflexive(a: Seq<u8>)
    ensures
        !bytes_less(a, a),
    decreases a.len(),
{
    if a.len() > 0 {
        bytes_less_irreflexive(a.drop_first());
    }
}

/// The order of byte strings is transitive.
pub proof fn bytes_less_transitive(a: Seq<u8>, b: Seq<u8>, c: Seq<u8>)
    requires
        bytes_less(a, b),
        bytes_less(b, c),
    ensures
        bytes_less(a, c),
    decreases a.len(),
{
    if a.len() > 0 && b.len() > 0 && c.len() > 0 && a[0] == b[0] && b[0] == c[0] {
        bytes_less_transitive(a.drop_first(), b.drop_first(), c.drop_first());
    }
}

/// Of two different byte strings one comes before the other.
pub proof fn bytes_less_total(a: Seq<u8>, b: Seq<u8>)
    ensures
        bytes_less(a, b) || bytes_less(b, a) || a == b,
    decreases a.len(),
{
    if a.len() > 0 && b.len() > 0 && a[0] == b[0] {
        bytes_less_total(a.drop_first(), b.drop_first());
        if a.drop_first() == b.drop_first() {
            assert(a == seq![a[0]] + a.drop_first());
            assert(b == seq![b[0]] + b.drop_first());
        }
    } else if a.len() == 0 && b.len() == 0 {
        assert(a == b);
    }
}

/// The decimal digit for a number below ten.
pub open spec fn digit(d: int) -> char {
    (48 + d) as char
}

/// A natural number in decimal digits, without leading zeros.
pub open spec fn decimal(n: nat) -> Seq<char>
    decreases n,
{
    if n < 10 {
        seq![digit(n as int)]
    } else {
        decimal(n / 10).push(digit((n % 10) as int))
    }
}

/// An integer in decimal digits, with a minus sign when it is negative.
pub open spec fn signed_decimal(n: int) -> Seq<char> {
    if n < 0 {
        seq!['-'] + decimal((-n) as nat)
    } else {
        decimal(n as nat)
    }
}

fn push_decimal(out: &mut String, n: u64)
    ensures
        final(out)@ == old(out)@ + decimal(n as nat),
    decreases n,
{
    if n >= 10 {
        push_decimal(out, n / 10);
    }
    let d: u8 = 48 + (n % 10) as u8;
    out.push(d as char);
    assert(out@ == old(out)@ + decimal(n as nat));
}

/// An integer in decimal digits.
pub fn i64_text(n: i64) -> (r: String)
    ensures
        r@ == signed_decimal(n as int),
{
    let mut out: String = String::new();
    if n < 0 {
        out.push('-');
        let wide: i128 = -(n as i128);
        push_decimal(&mut out, wide as u64);
    } else {
        push_decimal(&mut out, n as u64);
    }
    assert(out@ == signed_decimal(n as int));
    out
}

/// A natural number in decimal digits.
pub fn u64_text(n: u64) -> (r: String)
    ensures
        r@ == decimal(n as nat),
{
    let mut out: String = String::new();
    push_decimal(&mut out, n);
    assert(out@ == decimal(n as nat));
    out
}

/// The concatenation of three texts.
pub fn join3(a: &str, b: &str, c: &str) -> (r: String)
    ensures
        r@ == a@ + b@ + c@,
{
    let mut out: String = a.to_owned();
    out.append(b);
    out.append(c);
    out
}

// ---------------------------------------------------------------------
// Laws
// ---------------------------------------------------------------------

/// Lower-casing keeps every character at its place: an ASCII upper-case letter
/// moves by the distance of the two alphabets, and nothing else changes.
pub proof fn lowering_moves_upper_case_letters_only(s: Seq<char>)
    ensures
        ascii_lowered(s).len() == s.len(),
        forall|i: int|
            0 <= i < s.len() ==> (#[trigger] ascii_lowered(s)[i]) as int == s[i] as int + (if 65
                <= s[i] as int <= 90 {
                32int
            } else {
                0
            }),
{
}

/// What is in lower case stays as it is.
pub proof fn lower_case_stays_lower_case(s: Seq<char>)
    ensures
        ascii_lowered(ascii_lowered(s)) == ascii_lowered(s),
{
    assert forall|i: int| 0 <= i < s.len() implies ascii_lower(ascii_lower(#[trigger] s[i]))
        == ascii_lower(s[i]) by {}
    assert(ascii_lowered(ascii_lowered(s)) =~= ascii_lowered(s));
}

/// Texts are the same up to case exactly if they have one length and agree at
/// every place, but for an ASCII letter in either case.
pub proof fn same_ignoring_case_at_every_place(a: Seq<char>, b: Seq<char>)
    ensures
        same_ignoring_case(a, b) <==> a.len() == b.len() && forall|i: int|
            0 <= i < a.len() ==> {
                ||| (#[trigger] a[i]) == b[i]
                ||| 65 <= a[i] as int <= 90 && b[i] as int == a[i] as int + 32
                ||| 65 <= b[i] as int <= 90 && a[i] as int == b[i] as int + 32
            },
{
    if same_ignoring_case(a, b) {
        assert(ascii_lowered(a).len() == ascii_lowered(b).len());
        assert forall|i: int| 0 <= i < a.len() implies ({
            ||| (#[trigger] a[i]) == b[i]
            ||| 65 <= a[i] as int <= 90 && b[i] as int == a[i] as int + 32
            ||| 65 <= b[i] as int <= 90 && a[i] as int == b[i] as int + 32
        }) by {
            assert(ascii_lowered(a)[i] == ascii_lowered(b)[i]);
        }
    }
    if a.len() == b.len() && forall|i: int|
        0 <= i < a.len() ==> {
            ||| (#[trigger] a[i]) == b[i]
            ||| 65 <= a[i] as int <= 90 && b[i] as int == a[i] as int + 32
            ||| 65 <= b[i] as int <= 90 && a[i] as int == b[i] as int + 32
        } {
        assert forall|i: int| 0 <= i < a.len() implies ascii_lowered(a)[i] == ascii_lowered(b)[i] by {
            let (x, y) = (a[i], b[i]);
            assert(ascii_lower(x) == ascii_lower(y));
        }
        assert(ascii_lowered(a) =~= ascii_lowered(b));
    }
}

/// A text is in a list up to case exactly if it is so at some place of the list,
/// the first, the last or any other.
pub proof fn any_place_of_a_list_counts(list: Seq<Seq<char>>, s: Seq<char>)
    ensures
        contains_ignoring_case(list, s) <==> exists|i: int|
            0 <= i < list.len() && ascii_lowered(#[trigger] list[i]) == ascii_lowered(s),
{
}

/// The characters of a list of texts, and the bytes of a list of byte strings,
/// are those of each of them.
pub proof fn lists_are_read_in_full(list: Seq<String>, bytes: Seq<Vec<u8>>)
    ensures
        texts(list).len() == list.len(),
        forall|i: int| 0 <= i < list.len() ==> #[trigger] texts(list)[i] == list[i]@,
        byte_lists(bytes).len() == bytes.len(),
        forall|i: int| 0 <= i < bytes.len() ==> #[trigger] byte_lists(bytes)[i] == bytes[i]@,
{
}

/// An optional text is there with its characters, or not there.
pub proof fn optional_text_keeps_its_characters(o: Option<String>)
    ensures
        o is Some <==> opt_text(o) is Some,
        o is Some ==> opt_text(o)->0 == o->0@,
{
}

/// The characters that count as white space, by their numbers.
pub proof fn white_space_by_number(c: char)
    ensures
        is_white_space(c) <==> {
            let n = c as int;
            ||| 9 <= n <= 13
            ||| n == 32 || n == 133 || n == 160 || n == 5760
            ||| 8192 <= n <= 8202
            ||| n == 8232 || n == 8233 || n == 8239 || n == 8287 || n == 12288
        },
{
}

/// What trimming leaves is a stretch of the text: all before it and all behind
/// it is white space, and it neither starts nor ends with any.
pub proof fn trimming_leaves_what_white_space_surrounds(s: Seq<char>) -> (r: (int, int))
    ensures
        0 <= r.0 <= r.1 <= s.len(),
        trimmed(s) == s.subrange(r.0, r.1),
        forall|i: int| 0 <= i < s.len() && !(r.0 <= i < r.1) ==> is_white_space(#[trigger] s[i]),
        r.0 < r.1 ==> !is_white_space(s[r.0]) && !is_white_space(s[r.1 - 1]),
    decreases s.len(),
{
    if s.len() > 0 && is_white_space(s.first()) {
        let rest = s.drop_first();
        let r = trimming_leaves_what_white_space_surrounds(rest);
        assert(rest.subrange(r.0, r.1) == s.subrange(r.0 + 1, r.1 + 1));
        assert forall|i: int|
            0 <= i < s.len() && !(r.0 + 1 <= i < r.1 + 1) implies is_white_space(#[trigger] s[i]) by {
            if i > 0 {
                assert(s[i] == rest[i - 1]);
            }
        }
        (r.0 + 1, r.1 + 1)
    } else if s.len() > 0 && is_white_space(s.last()) {
        let rest = s.drop_last();
        let r = trimming_leaves_what_white_space_surrounds(rest);
        assert(rest.subrange(r.0, r.1) == s.subrange(r.0, r.1));
        assert forall|i: int|
            0 <= i < s.len() && !(r.0 <= i < r.1) implies is_white_space(#[trigger] s[i]) by {
            if i < s.len() - 1 {
                assert(s[i] == rest[i]);
            }
        }
        r
    } else {
        assert(s == s.subrange(0, s.len() as int));
        (0, s.len() as int)
    }
}

/// One byte string comes before another exactly if they agree up to some place
/// where the first has ended, or has the smaller byte.
pub proof fn first_difference_orders_bytes(a: Seq<u8>, b: Seq<u8>)
    ensures
        bytes_less(a, b) <==> exists|k: int|
            0 <= k <= a.len() && k < b.len() && #[trigger] a.take(k) == b.take(k) && (k == a.len()
                || a[k] < b[k]),
    decreases a.len(),
{
    if a.len() > 0 && b.len() > 0 {
        let (x, y) = (a.drop_first(), b.drop_first());
        first_difference_orders_bytes(x, y);
        if bytes_less(a, b) {
            if a[0] == b[0] {
                let k = choose|k: int|
                    0 <= k <= x.len() && k < y.len() && #[trigger] x.take(k) == y.take(k) && (k
                        == x.len() || x[k] < y[k]);
                assert forall|j: int| 0 <= j < k + 1 implies #[trigger] a[j] == b[j] by {
                    if j > 0 {
                        assert(x.take(k)[j - 1] == y.take(k)[j - 1]);
                    }
                }
                assert(a.take(k + 1) == b.take(k + 1));
            } else {
                assert(a.take(0) == b.take(0));
            }
        }
        if exists|k: int|
            0 <= k <= a.len() && k < b.len() && #[trigger] a.take(k) == b.take(k) && (k == a.len()
                || a[k] < b[k]) {
            let k = choose|k: int|
                0 <= k <= a.len() && k < b.len() && #[trigger] a.take(k) == b.take(k) && (k
                    == a.len() || a[k] < b[k]);
            if k > 0 {
                assert(a.take(k)[0] == b.take(k)[0]);
                assert forall|j: int| 0 <= j < k - 1 implies #[trigger] x[j] == y[j] by {
                    assert(a.take(k)[j + 1] == b.take(k)[j + 1]);
                }
                assert(x.take(k - 1) == y.take(k - 1));
            }
        }
    } else if b.len() > 0 {
        assert(a.take(0) == b.take(0));
    }
}

/// Texts are ordered by the bytes of their UTF-8 encoding.
pub proof fn texts_are_ordered_by_their_encoding(a: Seq<char>, b: Seq<char>)
    ensures
        text_less(a, b) == bytes_less(encode_utf8(a), encode_utf8(b)),
{
}

/// The number that decimal digits stand for.
pub open spec fn decimal_value(s: Seq<char>) -> int
    decreases s.len(),
{
    if s.len() == 0 {
        0
    } else {
        decimal_value(s.drop_last()) * 10 + (s.last() as int - 48)
    }
}

/// The digits of a number stand for that number, and none of them is a zero in
/// front of others.
pub proof fn decimal_digits_stand_for_the_number(n: nat)
    ensures
        decimal_value(decimal(n)) == n,
        decimal(n).len() > 0,
        forall|i: int| 0 <= i < decimal(n).len() ==> 48 <= (#[trigger] decimal(n)[i]) as int <= 57,
        decimal(n).len() > 1 ==> decimal(n)[0] as int != 48,
    decreases n,
{
    if n < 10 {
        assert(decimal(n).drop_last() == Seq::<char>::empty());
        assert(decimal_value(Seq::<char>::empty()) == 0);
    } else {
        decimal_digits_stand_for_the_number(n / 10);
        assert(decimal(n).drop_last() == decimal(n / 10));
        if decimal(n / 10).len() == 1 && decimal(n / 10)[0] as int == 48 {
            assert(decimal_value(decimal(n / 10).drop_last()) == 0);
            assert(n / 10 == 0);
        }
    }
}

/// A negative number is written as a minus sign and the digits of its opposite,
/// any other as its digits.
pub proof fn negative_numbers_have_a_minus_sign(n: nat)
    ensures
        signed_decimal(n as int) == decimal(n),
        n > 0 ==> signed_decimal(-n) == seq!['-'] + decimal(n),
{
}

/// A digit of base64 stands in its alphabet at the place of its number.
proof fn base64_digit_by_place(n: int)
    requires
        0 <= n < 64,
    ensures
        base64_digit(n)
            == "ABCDEFGHIJKLMNOPQRSTUVWXYZabcdefghijklmnopqrstuvwxyz0123456789+/"@[n],
{
    reveal_strlit("ABCDEFGHIJKLMNOPQRSTUVWXYZabcdefghijklmnopqrstuvwxyz0123456789+/");
}

/// A number of 24 bits in four groups of six.
proof fn four_groups_of_six_bits(n: int)
    requires
        0 <= n < 16777216,
    ensures
        0 <= n / 262144 < 64,
        0 <= n / 4096 % 64 < 64,
        0 <= n / 64 % 64 < 64,
        0 <= n % 64 < 64,
        (n / 262144) * 262144 + (n / 4096 % 64) * 4096 + (n / 64 % 64) * 64 + n % 64 == n,
{
    let (q, r) = (n / 64, n / 4096);
    assert(q / 64 == r);
    assert(r / 64 == n / 262144);
}

/// In base64, three bytes are four digits whose places in the alphabet make the same
/// number, and what follows them is written behind them.
pub proof fn base64_of_three_bytes(a: u8, b: u8, c: u8, rest: Seq<u8>) -> (p: (int, int, int, int))
    ensures
        0 <= p.0 < 64,
        0 <= p.1 < 64,
        0 <= p.2 < 64,
        0 <= p.3 < 64,
        p.0 * 262144 + p.1 * 4096 + p.2 * 64 + p.3 == a * 65536 + b * 256 + c,
        ({
            let digits = "ABCDEFGHIJKLMNOPQRSTUVWXYZabcdefghijklmnopqrstuvwxyz0123456789+/"@;
            base64_text(seq![a, b, c] + rest) == seq![
                digits[p.0],
                digits[p.1],
                digits[p.2],
                digits[p.3],
            ] + base64_text(rest)
        }),
{
    let n = a * 65536 + b * 256 + c;
    let data = seq![a, b, c] + rest;
    assert(data.skip(3) == rest);
    let p = (n / 262144, n / 4096 % 64, n / 64 % 64, n % 64);
    four_groups_of_six_bits(n);
    assert(base64_text(data) == seq![
        base64_digit(p.0),
        base64_digit(p.1),
        base64_digit(p.2),
        base64_digit(p.3),
    ] + base64_text(rest));
    base64_digit_by_place(p.0);
    base64_digit_by_place(p.1);
    base64_digit_by_place(p.2);
    base64_digit_by_place(p.3);
    p
}

/// In base64, one or two bytes at the end are filled up with zero bits to whole digits,
/// and with padding to four characters; no bytes are no characters.
pub proof fn base64_of_the_last_bytes(a: u8, b: u8) -> (p: (int, int, int, int, int))
    ensures
        base64_text(Seq::<u8>::empty()).len() == 0,
        0 <= p.0 < 64,
        0 <= p.1 < 64,
        0 <= p.2 < 64,
        0 <= p.3 < 64,
        0 <= p.4 < 64,
        p.0 * 64 + p.1 == a * 16,
        p.2 * 4096 + p.3 * 64 + p.4 == (a * 256 + b) * 4,
        ({
            let digits = "ABCDEFGHIJKLMNOPQRSTUVWXYZabcdefghijklmnopqrstuvwxyz0123456789+/"@;
            &&& base64_text(seq![a]) == seq![digits[p.0], digits[p.1], '=', '=']
            &&& base64_text(seq![a, b]) == seq![digits[p.2], digits[p.3], digits[p.4], '=']
        }),
{
    let (n, m) = (a * 16, (a * 256 + b) * 4);
    let p = (n / 64, n % 64, m / 4096, m / 64 % 64, m % 64);
    base64_digit_by_place(p.0);
    base64_digit_by_place(p.1);
    base64_digit_by_place(p.2);
    base64_digit_by_place(p.3);
    base64_digit_by_place(p.4);
    p
}

/// The characters of base64 are the digits of its alphabet and the padding.
pub proof fn base64_characters_are_its_digits(s: Seq<char>)
    ensures
        all_base64(s) <==> forall|i: int|
            0 <= i < s.len() ==> {
                let n = (#[trigger] s[i]) as int;
                65 <= n <= 90 || 97 <= n <= 122 || 48 <= n <= 57 || n == 43 || n == 47 || n == 61
            },
{
    if all_base64(s) {
        assert(forall|i: int| 0 <= i < s.len() ==> is_base64_char(#[trigger] s[i]));
    }
}

} // verus!
