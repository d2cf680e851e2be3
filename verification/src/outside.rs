//! Every call into another crate that the logic makes. What stands here is
//! believed, not proved: each item says what it claims of the call.
use vstd::prelude::*;
use serde_yaml::{Mapping, Value};
use crate::text::{ends, is_digit, is_lower, is_upper, lower, opt_text, Text};

verus! {

// ---------------------------------------------------------------------- case

/// What `str::to_lowercase` gives for a text.
pub uninterp spec fn unicode_lower(s: Seq<char>) -> Seq<char>;

pub open spec fn ascii(s: Text) -> bool {
    forall|i: int| 0 <= i < s.len() ==> #[trigger] s[i] <= '\u{7f}'
}

/// `str::to_lowercase`: the result is a function of the text, and for ASCII
/// text it is the ASCII lower case.
#[verifier::external_body]
pub(crate) fn to_lowercase(s: &str) -> (r: String)
    ensures
        r@ == unicode_lower(s@),
        ascii(s@) ==> r@ == lower(s@),
{
    s.to_lowercase()
}

/// What `char::to_uppercase` gives for a character.
pub uninterp spec fn unicode_upper(c: char) -> Seq<char>;

/// `char::to_uppercase`, written out: the upper case that the Unicode character
/// database gives for the character, which stays as it is where that names none.
/// So the result is a function of the character, and for ASCII it is the ASCII
/// upper case. Of ASCII the database names only capital letters: no other
/// character of ASCII stands in the upper case of another character.
#[verifier::external_body]
pub(crate) fn to_uppercase(c: char) -> (r: String)
    ensures
        r@ == unicode_upper(c),
        is_lower(c) ==> r@ == seq![((c as u32) - 32) as char],
        c <= '\u{7f}' && !is_lower(c) ==> r@ == seq![c],
        forall|i: int| 0 <= i < r@.len() && #[trigger] r@[i] <= '\u{7f}' ==> is_upper(r@[i]) || r@ == seq![c],
{
    c.to_uppercase().to_string()
}

// ---------------------------------------------------------------------- YAML

/// A key or a value of a YAML mapping, as far as the logic reads it. A number
/// is held as it is written out.
pub enum Scalar {
    /// A text, and whether it has a tag.
    Text(String, bool),
    Number(String),
    Flag(bool),
    Other,
}

/// A YAML document: a mapping in order of its entries, and whether it has a
/// tag, or anything else.
pub enum YamlDoc {
    Mapping(Vec<(Scalar, Scalar)>, bool),
    Plain,
}

pub enum ScalarModel {
    Text(Text, bool),
    Number(Text),
    Flag(bool),
    Other,
}

pub enum YamlModel {
    Mapping(Seq<(ScalarModel, ScalarModel)>, bool),
    Plain,
}

impl View for Scalar {
    type V = ScalarModel;

    open spec fn view(&self) -> ScalarModel {
        match self {
            Scalar::Text(s, tagged) => ScalarModel::Text(s@, *tagged),
            Scalar::Number(s) => ScalarModel::Number(s@),
            Scalar::Flag(b) => ScalarModel::Flag(*b),
            Scalar::Other => ScalarModel::Other,
        }
    }
}

pub open spec fn entry_models(s: Seq<(Scalar, Scalar)>) -> Seq<(ScalarModel, ScalarModel)> {
    Seq::new(s.len(), |i: int| (s[i].0@, s[i].1@))
}

impl View for YamlDoc {
    type V = YamlModel;

    open spec fn view(&self) -> YamlModel {
        match self {
            YamlDoc::Mapping(v, tagged) => YamlModel::Mapping(entry_models(v@), *tagged),
            YamlDoc::Plain => YamlModel::Plain,
        }
    }
}

pub open spec fn doc_model(d: Option<YamlDoc>) -> Option<YamlModel> {
    match d {
        Some(x) => Some(x@),
        None => None,
    }
}

pub open spec fn doc_result(d: Result<YamlDoc, String>) -> Result<YamlModel, Text> {
    match d {
        Ok(x) => Ok(x@),
        Err(e) => Err(e@),
    }
}

/// What `serde_yaml::from_str` reads from a text, or the words of its error.
pub uninterp spec fn yaml_reading(s: Seq<char>) -> Result<YamlModel, Seq<char>>;

/// What a text holds, if it is YAML.
pub open spec fn yaml_document(s: Text) -> Option<YamlModel> {
    match yaml_reading(s) {
        Ok(doc) => Some(doc),
        Err(_) => None,
    }
}

/// `serde_yaml::from_str` into a `Value`: the result is a function of the text.
/// A mapping becomes the list of its entries. Nested values are not followed,
/// and of tags only their presence is kept. An error is written out.
#[verifier::external_body]
pub(crate) fn read_yaml(s: &str) -> (r: Result<YamlDoc, String>)
    ensures
        doc_result(r) == yaml_reading(s@),
{
    let plain = |v: &Value| match v {
        Value::Number(n) => Scalar::Number(n.to_string()),
        Value::Bool(b) => Scalar::Flag(*b),
        v => v.as_str().map_or(Scalar::Other, |s| Scalar::Text(s.into(), matches!(v, Value::Tagged(_)))),
    };
    let list = |m: &Mapping| m.iter().map(|(k, v)| (plain(k), plain(v))).collect();
    let v: Value = serde_yaml::from_str(s).map_err(|e| e.to_string())?;
    Ok(v.as_mapping().map_or(YamlDoc::Plain, |m| YamlDoc::Mapping(list(m), matches!(v, Value::Tagged(_)))))
}

/// What a text holds, if it is YAML.
pub(crate) fn parse_yaml(s: &str) -> (r: Option<YamlDoc>)
    ensures
        doc_model(r) == yaml_document(s@),
{
    match read_yaml(s) {
        Ok(doc) => Some(doc),
        Err(_) => None,
    }
}

// --------------------------------------------------------------------- UTF-8

/// `String::from_utf8`: the text that bytes encode, if they are UTF-8.
#[verifier::external_body]
pub(crate) fn text_of_utf8(bytes: Vec<u8>) -> (r: Option<String>)
    ensures
        r is Some == vstd::utf8::valid_utf8(bytes@),
        r matches Some(s) ==> s@ == vstd::utf8::decode_utf8(bytes@),
{
    String::from_utf8(bytes).ok()
}

// -------------------------------------------------------------------- hashes

/// A lower-case hexadecimal digit.
pub open spec fn is_hex(c: char) -> bool {
    is_digit(c) || 'a' <= c <= 'f'
}

pub open spec fn all_hex(s: Text) -> bool {
    forall|i: int| 0 <= i < s.len() ==> is_hex(#[trigger] s[i])
}

/// The SHA-256 digest of some bytes, in lower-case hexadecimal.
pub uninterp spec fn sha256(bytes: Seq<u8>) -> Seq<char>;

/// `sha2::Sha256::digest`, written in lower-case hexadecimal: 64 digits that
/// are a function of the bytes.
#[verifier::external_body]
pub(crate) fn sha256_hex(bytes: &[u8]) -> (r: String)
    ensures
        r@ == sha256(bytes@),
        r@.len() == 64,
        all_hex(r@),
{
    format!("{:x}", <sha2::Sha256 as sha2::Digest>::digest(bytes))
}

// ---------------------------------------------------------------------- JSON

/// The JSON array of five texts.
pub uninterp spec fn json_five(a: Seq<char>, b: Seq<char>, c: Seq<char>, d: Seq<char>, e: Seq<char>) -> Seq<u8>;

/// `serde_json::to_vec` of a tuple of five texts: the bytes are a function of
/// the texts.
#[verifier::external_body]
pub(crate) fn to_json_five(a: &str, b: &str, c: &str, d: &str, e: &str) -> (r: Vec<u8>)
    ensures
        r@ == json_five(a@, b@, c@, d@, e@),
{
    serde_json::to_vec(&(a, b, c, d, e)).unwrap()
}

// -------------------------------------------------------------------- base64

/// Standard base64 with padding.
pub uninterp spec fn base64_text(bytes: Seq<u8>) -> Seq<char>;

/// `base64`'s standard engine: the text is a function of the bytes. Inputs so
/// long that the length of the text would not fit are left out.
#[verifier::external_body]
pub(crate) fn to_base64(bytes: &[u8]) -> (r: String)
    requires
        bytes@.len() <= 0x2000_0000,
    ensures
        r@ == base64_text(bytes@),
{
    base64::Engine::encode(&base64::engine::general_purpose::STANDARD, bytes)
}

// ------------------------------------------------------------ chance and time

/// A text is a time in RFC 3339.
pub uninterp spec fn rfc3339(s: Seq<char>) -> bool;

/// `chrono::DateTime::parse_from_rfc3339`: whether a text is such a time
/// depends on the text alone.
#[verifier::external_body]
pub(crate) fn is_timestamp(s: &str) -> (r: bool)
    ensures
        r == rfc3339(s@),
{
    chrono::DateTime::parse_from_rfc3339(s).is_ok()
}

/// `Uuid::new_v4`, written without hyphens: 32 lower-case hexadecimal digits,
/// drawn anew each time.
#[verifier::external_body]
pub(crate) fn fresh_hex() -> (r: String)
    ensures
        r@.len() == 32,
        all_hex(r@),
{
    uuid::Uuid::new_v4().simple().to_string()
}

/// The canonical form of a UUID: lower-case digits in groups of 8, 4, 4, 4
/// and 12 with hyphens between.
pub open spec fn canonical_uuid(s: Text) -> bool {
    s.len() == 36 && forall|i: int|
        0 <= i < 36 ==> if i == 8 || i == 13 || i == 18 || i == 23 {
            #[trigger] s[i] == '-'
        } else {
            is_hex(s[i])
        }
}

/// The UUID that `Uuid::parse_str` reads from a text, in its canonical form.
pub uninterp spec fn uuid_reading(s: Seq<char>) -> Option<Seq<char>>;

/// `Uuid::parse_str`, and the value written out again by `Uuid::to_string`:
/// the result is a function of the text. It is the canonical form, and the
/// canonical form is read as it is.
#[verifier::external_body]
pub(crate) fn parse_uuid(s: &str) -> (r: Option<String>)
    ensures
        opt_text(r) == uuid_reading(s@),
        r is Some ==> canonical_uuid(r->0@),
        canonical_uuid(s@) ==> r is Some && r->0@ == s@,
{
    uuid::Uuid::parse_str(s).ok().map(|u| u.to_string())
}

/// `chrono::Utc::now`, written by `to_rfc3339_opts` with whole seconds and
/// `Z`. Of the time itself nothing is promised. A year of four digits makes
/// twenty characters, any other year more; with four digits the text is such
/// a time.
#[verifier::external_body]
pub(crate) fn now_iso() -> (r: String)
    ensures
        r@.len() == 20 ==> rfc3339(r@),
{
    chrono::Utc::now().to_rfc3339_opts(chrono::SecondsFormat::Secs, true)
}

/// `chrono::Utc::now`, written by `to_rfc3339`: with a fraction of the second
/// and the offset, which is zero. Of the time itself nothing is promised.
#[verifier::external_body]
pub(crate) fn now_precise() -> (r: String)
    ensures
        ends(r@, "+00:00"@),
{
    chrono::Utc::now().to_rfc3339()
}

/// Date and time of day in digits, with a hyphen between.
pub open spec fn is_compact(s: Text) -> bool {
    s.len() == 15 && forall|i: int|
        0 <= i < 15 ==> if i == 8 {
            #[trigger] s[i] == '-'
        } else {
            is_digit(s[i])
        }
}

/// `chrono::Utc::now`, written as `%Y%m%d-%H%M%S`. Of the time itself nothing
/// is promised. A year of four digits makes fifteen characters, any other year
/// more.
#[verifier::external_body]
pub(crate) fn now_compact() -> (r: String)
    ensures
        r@.len() == 15 ==> is_compact(r@),
{
    chrono::Utc::now().format("%Y%m%d-%H%M%S").to_string()
}

} // verus!
