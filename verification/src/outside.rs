//! The calls into other crates and into parts of std that carry no
//! specification. Every contract here is believed, not proved.

use vstd::prelude::*;

use crate::document::TomlValue;
use crate::document::TomlValueView;
use crate::json::Json;
use crate::json::JsonView;
use crate::paths::equal_paths;

verus! {

/// The value of a parsed JSON document.
#[verifier::external_type_specification]
#[verifier::external_body]
pub struct ExJsonValue(serde_json::Value);

/// A value in a parsed TOML document.
#[verifier::external_type_specification]
#[verifier::external_body]
pub struct ExTomlValue(toml::Value);

// ---- text -------------------------------------------------------------------

/// The lowercase form of a text, after Unicode.
pub uninterp spec fn unicode_lowercase(s: Seq<char>) -> Seq<char>;

/// `str::to_lowercase`: the result is a function of the text.
#[verifier::external_body]
pub(crate) fn to_lowercase(s: &str) -> (r: String)
    ensures
        r@ == unicode_lowercase(s@),
{
    s.to_lowercase()
}

/// The uppercase form of a text, after Unicode.
pub uninterp spec fn unicode_uppercase(s: Seq<char>) -> Seq<char>;

/// `str::to_uppercase`: the result is a function of the text.
#[verifier::external_body]
pub(crate) fn to_uppercase(s: &str) -> (r: String)
    ensures
        r@ == unicode_uppercase(s@),
{
    s.to_uppercase()
}

/// A text as Rust source would write it, in double quotes and escaped.
pub uninterp spec fn quoted(s: Seq<char>) -> Seq<char>;

/// The `Debug` form of a string: the result is a function of the text.
#[verifier::external_body]
pub(crate) fn quote(s: &str) -> (r: String)
    ensures
        r@ == quoted(s@),
{
    format!("{s:?}")
}

/// The text that bytes hold, with ill-formed UTF-8 replaced.
pub uninterp spec fn utf8_text(bytes: Seq<u8>) -> Seq<char>;

/// `String::from_utf8_lossy`: the result is a function of the bytes, and the
/// encoding of a text reads back as that text.
#[verifier::external_body]
pub(crate) fn from_utf8_lossy(bytes: &[u8]) -> (r: String)
    ensures
        r@ == utf8_text(bytes@),
        forall|s: Seq<char>| bytes@ == #[trigger] vstd::utf8::encode_utf8(s) ==> r@ == s,
{
    String::from_utf8_lossy(bytes).into_owned()
}

/// A code unit that opens a pair.
pub open spec fn is_high_surrogate(unit: u16) -> bool {
    0xd800 <= unit < 0xdc00
}

/// A code unit that closes a pair.
pub open spec fn is_low_surrogate(unit: u16) -> bool {
    0xdc00 <= unit < 0xe000
}

/// The text that UTF-16 code units hold, with each unpaired surrogate
/// replaced.
pub open spec fn utf16_text(units: Seq<u16>) -> Seq<char>
    decreases units.len(),
{
    if units.len() == 0 {
        seq![]
    } else if !is_high_surrogate(units[0]) && !is_low_surrogate(units[0]) {
        seq![units[0] as char] + utf16_text(units.skip(1))
    } else if units.len() > 1 && is_high_surrogate(units[0]) && is_low_surrogate(units[1]) {
        seq![(0x1_0000 + (units[0] - 0xd800) * 0x400 + (units[1] - 0xdc00)) as char] + utf16_text(
            units.skip(2),
        )
    } else {
        seq!['\u{fffd}'] + utf16_text(units.skip(1))
    }
}

/// `String::from_utf16_lossy`: units outside the surrogates and pairs of them
/// are decoded, an unpaired surrogate becomes the replacement character.
#[verifier::external_body]
pub(crate) fn from_utf16_lossy(units: &[u16]) -> (r: String)
    ensures
        r@ == utf16_text(units@),
{
    String::from_utf16_lossy(units)
}

/// `==` on `std::path::Path`, on Unix: paths are equal if both or neither start
/// at the root and their components are the same.
#[verifier::external_body]
pub(crate) fn same_path(a: &str, b: &str) -> (r: bool)
    ensures
        r == equal_paths(a@, b@),
{
    std::path::Path::new(a) == std::path::Path::new(b)
}

// ---- regex ------------------------------------------------------------------

/// What is wrong with a regular expression, if anything.
pub uninterp spec fn regex_failure(pattern: Seq<char>) -> Option<Seq<char>>;

/// `regex::Regex::new`: whether the pattern compiles, and the text of the
/// error if not, are functions of the pattern.
#[verifier::external_body]
pub(crate) fn regex_error(pattern: &str) -> (r: Option<String>)
    ensures
        r.deep_view() == regex_failure(pattern@),
{
    regex::Regex::new(pattern).err().map(|e| e.to_string())
}

/// Whether a regular expression matches somewhere in a text; nothing if the
/// expression does not compile.
pub uninterp spec fn regex_search(pattern: Seq<char>, text: Seq<char>) -> Option<bool>;

/// `regex::Regex::is_match` on the compiled pattern: the answer is a function
/// of the pattern and the text, and there is one exactly if the pattern
/// compiles.
#[verifier::external_body]
pub(crate) fn regex_matches(pattern: &str, text: &str) -> (r: Option<bool>)
    ensures
        r == regex_search(pattern@, text@),
        r.is_some() == regex_failure(pattern@).is_none(),
{
    regex::Regex::new(pattern).ok().map(|re| re.is_match(text))
}

/// A character that means something in a regular expression.
pub open spec fn is_meta(c: char) -> bool {
    c == '\\' || c == '.' || c == '+' || c == '*' || c == '?' || c == '(' || c == ')' || c == '|'
        || c == '[' || c == ']' || c == '{' || c == '}' || c == '^' || c == '$' || c == '#' || c
        == '&' || c == '-' || c == '~'
}

/// A text with a backslash before each character that means something in a
/// regular expression.
pub open spec fn escaped(s: Seq<char>) -> Seq<char>
    decreases s.len(),
{
    if s.len() == 0 {
        seq![]
    } else if is_meta(s.last()) {
        escaped(s.drop_last()).push('\\').push(s.last())
    } else {
        escaped(s.drop_last()).push(s.last())
    }
}

/// `regex::escape` puts a backslash before each meta character.
#[verifier::external_body]
pub(crate) fn regex_escape(s: &str) -> (r: String)
    ensures
        r@ == escaped(s@),
{
    regex::escape(s)
}

// ---- nucleo-matcher -----------------------------------------------------------

/// How well a query fits a text, if at all.
pub uninterp spec fn fuzzy_score(query: Seq<char>, text: Seq<char>) -> Option<u32>;

/// Whether a text is ASCII.
pub open spec fn is_ascii_text(s: Seq<char>) -> bool {
    forall|i: int| 0 <= i < s.len() ==> (#[trigger] s[i]) as u32 <= 0x7f
}

/// A lowercase letter that simple case folding still maps to another one, such
/// as the long s or the final sigma.
pub open spec fn folds_on(c: char) -> bool {
    let n = c as u32;
    n == 0xb5 || n == 0x17f || n == 0x345 || n == 0x3c2 || 0x3d0 <= n <= 0x3d1 || 0x3d5 <= n
        <= 0x3d6 || 0x3f0 <= n <= 0x3f1 || n == 0x3f5 || 0x13f8 <= n <= 0x13fd || 0x1c80 <= n
        <= 0x1c88 || n == 0x1e9b || n == 0x1fbe || 0xab70 <= n <= 0xabbf
}

/// The inputs that can be scored: of a size for which the scores stay within
/// their machine types and the bytes of the text within 32 bits, and, for a
/// query beyond ASCII, without letters of which the two steps of the matcher
/// do not agree how they fold.
pub open spec fn scorable(query: Seq<char>, text: Seq<char>) -> bool {
    &&& query.len() <= 65_536
    &&& text.len() <= 0x3fff_ffff
    &&& query.len() <= 1000 || text.len() <= 1000
    &&& is_ascii_text(query) || forall|i: int|
        0 <= i < text.len() ==> !folds_on(#[trigger] text[i])
}

/// `nucleo_matcher`'s `Pattern::parse` without regard to case and with smart
/// normalization, then `Pattern::score` on the text with the default
/// configuration: the result is a function of the query and the text. Left out
/// are inputs on which the matcher overflows or an assertion of it fails.
#[verifier::external_body]
pub(crate) fn score(query: &str, text: &str) -> (r: Option<u32>)
    requires
        scorable(query@, text@),
    ensures
        r == fuzzy_score(query@, text@),
{
    let pattern = nucleo_matcher::pattern::Pattern::parse(
        query,
        nucleo_matcher::pattern::CaseMatching::Ignore,
        nucleo_matcher::pattern::Normalization::Smart,
    );
    let mut matcher = nucleo_matcher::Matcher::new(nucleo_matcher::Config::DEFAULT);
    let mut buf = Vec::new();
    pattern.score(nucleo_matcher::Utf32Str::new(text, &mut buf), &mut matcher)
}

// ---- uuid ---------------------------------------------------------------------

/// `uuid::Uuid::new_v4`: a random id with the version and variant bits set.
#[verifier::external_body]
pub(crate) fn random_id() -> (r: u128)
    ensures
        (r >> 76u128) & 0xfu128 == 4,
        (r >> 62u128) & 0x3u128 == 2,
{
    uuid::Uuid::new_v4().as_u128()
}

/// The lowercase hexadecimal digit of a value below sixteen.
pub open spec fn hex_char(d: nat) -> char {
    if d < 10 {
        (('0' as u32) + d) as char
    } else {
        (('a' as u32) + (d - 10)) as char
    }
}

/// The last `count` hexadecimal digits of `n`.
pub open spec fn hex_digits(n: nat, count: nat) -> Seq<char>
    decreases count,
{
    if count == 0 {
        seq![]
    } else {
        hex_digits(n / 16, (count - 1) as nat).push(hex_char(n % 16))
    }
}

/// An id in the usual five groups of hexadecimal digits.
pub open spec fn hyphenated(id: u128) -> Seq<char> {
    let d = hex_digits(id as nat, 32);
    d.subrange(0, 8) + seq!['-'] + d.subrange(8, 12) + seq!['-'] + d.subrange(12, 16) + seq!['-']
        + d.subrange(16, 20) + seq!['-'] + d.subrange(20, 32)
}

/// `uuid::Uuid`'s `Display`: lowercase, in hyphenated groups.
#[verifier::external_body]
pub(crate) fn id_text(id: u128) -> (r: String)
    ensures
        r@ == hyphenated(id),
{
    uuid::Uuid::from_u128(id).to_string()
}

// ---- serde_json ---------------------------------------------------------------

/// The document that bytes hold, if they are JSON.
pub uninterp spec fn json_document(bytes: Seq<u8>) -> Option<JsonView>;

/// A parsed `serde_json::Value`, variant by variant. Nothing is claimed of the
/// result.
#[verifier::external_body]
pub(crate) fn json_of(value: &serde_json::Value) -> (r: Json) {
    match value {
        serde_json::Value::Null => Json::Null,
        serde_json::Value::Bool(b) => Json::Bool(*b),
        serde_json::Value::Number(n) => Json::Number(n.to_string()),
        serde_json::Value::String(s) => Json::Text(s.clone()),
        serde_json::Value::Array(items) => Json::List(items.iter().map(json_of).collect()),
        serde_json::Value::Object(map) => Json::Object(
            map.iter().map(|(key, value)| (key.clone(), json_of(value))).collect(),
        ),
    }
}

/// `serde_json::from_slice`: whether the bytes are a JSON document, and which,
/// is a function of the bytes.
#[verifier::external_body]
pub(crate) fn parse_json(bytes: &[u8]) -> (r: Option<Json>)
    ensures
        r.deep_view() == json_document(bytes@),
{
    serde_json::from_slice::<serde_json::Value>(bytes).ok().map(|value| json_of(&value))
}

// ---- toml ---------------------------------------------------------------------

/// The entries of a text that is TOML, or what is wrong with a text that is
/// not.
pub uninterp spec fn toml_document(text: Seq<char>) -> Result<
    Seq<(Seq<char>, TomlValueView)>,
    Seq<char>,
>;

/// A parsed `toml::Value`, variant by variant. Nothing is claimed of the
/// result.
#[verifier::external_body]
pub(crate) fn toml_of(value: &toml::Value) -> (r: TomlValue) {
    match value {
        toml::Value::String(s) => TomlValue::Text(s.clone()),
        toml::Value::Integer(n) => TomlValue::Integer(*n),
        toml::Value::Float(n) => TomlValue::Float(n.to_string()),
        toml::Value::Boolean(b) => TomlValue::Boolean(*b),
        toml::Value::Datetime(time) => TomlValue::Datetime(time.to_string()),
        toml::Value::Array(items) => TomlValue::Array(items.iter().map(toml_of).collect()),
        toml::Value::Table(table) => TomlValue::Table(
            table.iter().map(|(key, value)| (key.clone(), toml_of(value))).collect(),
        ),
    }
}

/// `toml::Table`'s `FromStr`: whether the text is TOML, what it holds, and the
/// message of the error are functions of the text.
#[verifier::external_body]
pub(crate) fn parse_toml(text: &str) -> (r: Result<Vec<(String, TomlValue)>, String>)
    ensures
        match (r, toml_document(text@)) {
            (Ok(entries), Ok(expected)) => entries.deep_view() == expected,
            (Err(message), Err(expected)) => message@ == expected,
            _ => false,
        },
{
    match text.parse::<toml::Table>() {
        Ok(table) => Ok(table.iter().map(|(key, value)| (key.clone(), toml_of(value))).collect()),
        Err(error) => Err(error.to_string()),
    }
}

} // verus!
