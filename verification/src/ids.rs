//! What may name a thing: identifiers, hashes and file extensions.
use vstd::prelude::*;
use crate::outside::{all_hex, is_hex};
use crate::text::{alnum, chars_of, is_alnum, is_digit, is_lower, same, Text};

verus! {

/// A character of an identifier.
pub open spec fn id_char(c: char) -> bool {
    is_alnum(c) || c == '-' || c == '_' || c == '.'
}

/// One component of a path that can only mean a file of that name.
pub open spec fn is_component(s: Text) -> bool {
    &&& s.len() > 0
    &&& s != "."@
    &&& s != ".."@
    &&& forall|i: int| 0 <= i < s.len() ==> id_char(#[trigger] s[i])
}

/// The longest identifier that travels between devices.
pub const MAX_ID: usize = 128;

/// An identifier that travels between devices.
pub open spec fn is_safe_id(s: Text) -> bool {
    is_component(s) && s.len() <= MAX_ID
}

/// A SHA-256 digest in lower-case hexadecimal.
pub open spec fn is_hash(s: Text) -> bool {
    s.len() == 64 && all_hex(s)
}

/// The longest file extension.
pub const MAX_EXTENSION: usize = 16;

/// The extension of a stored attachment; none is allowed.
pub open spec fn is_extension(s: Text) -> bool {
    s.len() <= MAX_EXTENSION && forall|i: int|
        0 <= i < s.len() ==> is_digit(#[trigger] s[i]) || is_lower(s[i])
}

pub fn safe_component(s: &str) -> (r: bool)
    ensures
        r == is_component(s@),
{
    if s.is_empty() || same(s, ".") || same(s, "..") {
        return false;
    }
    let v = chars_of(s);
    let mut i: usize = 0;
    while i < v.len()
        invariant
            v@ == s@,
            i <= v.len(),
            forall|j: int| 0 <= j < i ==> id_char(#[trigger] v@[j]),
        decreases v.len() - i,
    {
        let c = v[i];
        if !(alnum(c) || c == '-' || c == '_' || c == '.') {
            assert(!id_char(s@[i as int]));
            return false;
        }
        i += 1;
    }
    true
}

pub fn safe_id(s: &str) -> (r: bool)
    ensures
        r == is_safe_id(s@),
{
    safe_component(s) && crate::text::char_count(s) <= MAX_ID
}

pub fn valid_hash(s: &str) -> (r: bool)
    ensures
        r == is_hash(s@),
{
    let v = chars_of(s);
    if v.len() != 64 {
        return false;
    }
    let mut i: usize = 0;
    while i < v.len()
        invariant
            v@ == s@,
            i <= v.len(),
            forall|j: int| 0 <= j < i ==> is_hex(#[trigger] v@[j]),
        decreases v.len() - i,
    {
        let c = v[i];
        if !(('0' <= c && c <= '9') || ('a' <= c && c <= 'f')) {
            assert(!is_hex(s@[i as int]));
            return false;
        }
        i += 1;
    }
    true
}

pub fn valid_extension(s: &str) -> (r: bool)
    ensures
        r == is_extension(s@),
{
    let v = chars_of(s);
    if v.len() > MAX_EXTENSION {
        return false;
    }
    let mut i: usize = 0;
    while i < v.len()
        invariant
            v@ == s@,
            i <= v.len(),
            forall|j: int| 0 <= j < i ==> is_digit(#[trigger] v@[j]) || is_lower(v@[j]),
        decreases v.len() - i,
    {
        let c = v[i];
        if !(('0' <= c && c <= '9') || ('a' <= c && c <= 'z')) {
            assert(!(is_digit(s@[i as int]) || is_lower(s@[i as int])));
            return false;
        }
        i += 1;
    }
    true
}

/// A safe component is never a way out of its directory: it holds no separator
/// and is neither the directory itself nor its parent.
pub proof fn a_component_stays_in_its_directory(s: Text)
    requires
        is_component(s),
    ensures
        !s.contains('/'),
        !s.contains('\\'),
        s != "."@,
        s != ".."@,
        s.len() > 0,
{
    if s.contains('/') {
        let i = choose|i: int| 0 <= i < s.len() && s[i] == '/';
        assert(id_char(s[i]));
    }
    if s.contains('\\') {
        let i = choose|i: int| 0 <= i < s.len() && s[i] == '\\';
        assert(id_char(s[i]));
    }
}

/// An identifier that travels is a component of at most 128 characters, each a
/// letter, a digit, a hyphen, an underscore or a dot.
pub proof fn an_identifier_is_short_and_plain(s: Text, i: int)
    ensures
        is_safe_id(s) <==> is_component(s) && s.len() <= 128,
        is_component(s) && 0 <= i < s.len() ==> {
            ||| '0' <= s[i] <= '9'
            ||| 'A' <= s[i] <= 'Z'
            ||| 'a' <= s[i] <= 'z'
            ||| s[i] == '-'
            ||| s[i] == '_'
            ||| s[i] == '.'
        },
        s.len() > 0 && (forall|k: int|
            0 <= k < s.len() ==> ('0' <= #[trigger] s[k] <= '9') || ('A' <= s[k] <= 'Z') || ('a' <= s[k] <= 'z') || s[k]
                == '-' || s[k] == '_') ==> is_component(s),
{
    reveal_strlit(".");
    reveal_strlit("..");
    assert("."@[0] == '.');
    assert(".."@[0] == '.');
    if s.len() > 0 {
        assert(s[0] == s[0]);
    }
}

/// A hash is 64 digits or small letters up to f, and a name for a file.
pub proof fn a_hash_has_sixty_four_digits(s: Text, i: int)
    ensures
        is_hash(s) ==> s.len() == 64 && is_safe_id(s),
        is_hash(s) && 0 <= i < 64 ==> ('0' <= s[i] <= '9') || ('a' <= s[i] <= 'f'),
        s.len() == 64 && (forall|k: int| 0 <= k < 64 ==> ('0' <= #[trigger] s[k] <= '9') || ('a' <= s[k] <= 'f')) ==> is_hash(
            s,
        ),
        is_extension(s) ==> s.len() <= 16,
        is_extension(s) && 0 <= i < s.len() ==> ('0' <= s[i] <= '9') || ('a' <= s[i] <= 'z'),
{
    if is_hash(s) {
        assert forall|k: int| 0 <= k < s.len() implies id_char(#[trigger] s[k]) by {}
        reveal_strlit(".");
        reveal_strlit("..");
    }
}

} // verus!
