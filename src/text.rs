//! Text helpers: exact comparison of strings, and the outside calls on text:
//! UTF-8 decoding, and the regular expressions that remove control characters
//! and repair keys that lost their closing quote.

use vstd::prelude::*;
use vstd::string::*;
use vstd::utf8::*;

verus! {

/// A character below U+0020: the C0 control characters, newline and carriage return included.
pub open spec fn is_control(c: char) -> bool {
    (c as u32) < 0x20
}

/// `s` with every control character removed.
pub open spec fn strip_controls(s: Seq<char>) -> Seq<char> {
    s.filter(|c: char| !is_control(c))
}

/// Whether `s` begins with `p`.
pub open spec fn has_prefix(s: Seq<char>, p: Seq<char>) -> bool {
    p.len() <= s.len() && s.subrange(0, p.len() as int) == p
}

/// The regular expression that matches a single control character.
pub const CONTROL_CLASS: &'static str = "[\\x00-\\x1F]";

/// The regular expression of a key that lost its closing quote: a quote, a word, a colon.
pub const UNQUOTED_KEY: &'static str = "\"(\\w+):";

/// The repair of such a key: the word between quotes, a colon and a space.
pub const QUOTED_KEY: &'static str = "\"$1\": ";

/// The text with every key that lost its closing quote repaired.
pub uninterp spec fn requoted_keys(s: Seq<char>) -> Seq<char>;

/// Relies on `regex::Regex::new` and `Regex::replace_all`, used with two fixed patterns that
/// compile. The class `[\x00-\x1F]` matches exactly one character in U+0000..=U+001F, so
/// replacing every match with the empty string removes those characters and keeps the rest
/// in order. For the key pattern, the result depends on the text alone.
#[verifier::external_body]
fn regex_replace_all(pattern: &str, haystack: &str, replacement: &str) -> (r: String)
    requires
        (pattern@ == CONTROL_CLASS@ && replacement@ == ""@) || (pattern@ == UNQUOTED_KEY@
            && replacement@ == QUOTED_KEY@),
    ensures
        pattern@ == CONTROL_CLASS@ && replacement@ == ""@ ==> r@ == strip_controls(haystack@),
        pattern@ == UNQUOTED_KEY@ && replacement@ == QUOTED_KEY@ ==> r@ == requoted_keys(
            haystack@,
        ),
{
    regex::Regex::new(pattern).unwrap().replace_all(haystack, replacement).into_owned()
}

/// Repairs every key of a JSON text that lost its closing quote: `"word:` becomes `"word": `.
pub fn requote_keys(s: &str) -> (r: String)
    ensures
        r@ == requoted_keys(s@),
{
    regex_replace_all(UNQUOTED_KEY, s, QUOTED_KEY)
}

/// Relies on `std::str::from_utf8`: it accepts exactly the well-formed UTF-8 byte strings,
/// and the text it yields is the one those bytes encode.
#[verifier::external_body]
fn utf8_to_string(bytes: &[u8]) -> (r: Option<String>)
    ensures
        r is None ==> !valid_utf8(bytes@),
        r matches Some(s) ==> encode_utf8(s@) == bytes@,
{
    match std::str::from_utf8(bytes) {
        Ok(s) => Some(s.to_string()),
        Err(_) => None,
    }
}

/// The text of a raw line: `None` where the bytes are not UTF-8, and otherwise
/// the decoded characters without control characters.
pub open spec fn clean_line(bytes: Seq<u8>) -> Option<Seq<char>> {
    if valid_utf8(bytes) {
        Some(strip_controls(decode_utf8(bytes)))
    } else {
        None
    }
}

/// Decodes a raw line and removes its control characters.
pub fn clean_line_text(bytes: &[u8]) -> (r: Option<String>)
    ensures
        r is None <==> clean_line(bytes@) is None,
        r matches Some(s) ==> clean_line(bytes@) == Some(s@),
{
    match utf8_to_string(bytes) {
        None => None,
        Some(s) => {
            proof {
                encode_utf8_valid_utf8(s@);
                encode_utf8_decode_utf8(s@);
            }
            Some(regex_replace_all(CONTROL_CLASS, s.as_str(), ""))
        },
    }
}

/// Whether two strings hold the same characters.
pub fn same_text(a: &str, b: &str) -> (r: bool)
    ensures
        r == (a@ == b@),
{
    let n = a.unicode_len();
    if n != b.unicode_len() {
        return false;
    }
    let mut i: usize = 0;
    while i < n
        invariant
            n == a@.len(),
            n == b@.len(),
            i <= n,
            forall|k: int| 0 <= k < i ==> a@[k] == b@[k],
        decreases n - i,
    {
        if a.get_char(i) != b.get_char(i) {
            return false;
        }
        i = i + 1;
    }
    assert(a@ =~= b@);
    true
}

/// Whether `s` begins with the characters of `p`.
pub fn starts_with_text(s: &str, p: &str) -> (r: bool)
    ensures
        r == has_prefix(s@, p@),
{
    let n = p.unicode_len();
    if n > s.unicode_len() {
        return false;
    }
    let mut i: usize = 0;
    while i < n
        invariant
            n == p@.len(),
            n <= s@.len(),
            i <= n,
            forall|k: int| 0 <= k < i ==> s@[k] == p@[k],
        decreases n - i,
    {
        if s.get_char(i) != p.get_char(i) {
            assert(s@.subrange(0, n as int)[i as int] != p@[i as int]);
            return false;
        }
        i = i + 1;
    }
    assert(s@.subrange(0, n as int) =~= p@);
    true
}

/// The characters of `s` from position `from` on, as an owned string.
pub fn text_after(s: &str, from: usize) -> (r: String)
    requires
        from <= s@.len(),
    ensures
        r@ == s@.skip(from as int),
{
    let n = s.unicode_len();
    let rest = s.substring_char(from, n);
    assert(s@.subrange(from as int, n as int) =~= s@.skip(from as int));
    rest.to_owned()
}

} // verus!
