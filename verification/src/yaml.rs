//! Reading fields out of a YAML document.
use vstd::prelude::*;
use crate::outside::{doc_model, entry_models, Scalar, ScalarModel, YamlDoc, YamlModel};
use crate::text::{own, same, trim, trimmed, Text};

verus! {

/// The value under a text key without a tag, in order of the entries.
pub open spec fn lookup(s: Seq<(ScalarModel, ScalarModel)>, key: Text) -> Option<ScalarModel>
    decreases s.len(),
{
    if s.len() == 0 {
        None
    } else if s[0].0 == ScalarModel::Text(key, false) {
        Some(s[0].1)
    } else {
        lookup(s.drop_first(), key)
    }
}

/// The value under a key of a document that is a mapping without a tag.
pub open spec fn field(doc: Option<YamlModel>, key: Text) -> Option<ScalarModel> {
    match doc {
        Some(YamlModel::Mapping(s, false)) => lookup(s, key),
        _ => None,
    }
}

/// A scalar written out: texts, numbers and truth values.
pub open spec fn written(v: Option<ScalarModel>) -> Option<Text> {
    match v {
        Some(ScalarModel::Text(t, false)) => Some(t),
        Some(ScalarModel::Number(t)) => Some(t),
        Some(ScalarModel::Flag(b)) => Some(if b {
            "true"@
        } else {
            "false"@
        }),
        _ => None,
    }
}

/// A text value without surrounding white space, if anything is left of it. A
/// tag does not matter.
pub open spec fn filled(v: Option<ScalarModel>) -> Option<Text> {
    match v {
        Some(ScalarModel::Text(t, _)) => if trimmed(t).len() > 0 {
            Some(trimmed(t))
        } else {
            None
        },
        _ => None,
    }
}

/// The entries of a mapping, whatever its tag.
pub open spec fn entries_of(doc: YamlModel) -> Option<Seq<(ScalarModel, ScalarModel)>> {
    match doc {
        YamlModel::Mapping(m, _) => Some(m),
        YamlModel::Plain => None,
    }
}

pub fn entries(doc: &YamlDoc) -> (r: Option<&Vec<(Scalar, Scalar)>>)
    ensures
        r is Some == entries_of(doc@) is Some,
        r matches Some(v) ==> entries_of(doc@) == Some(entry_models(v@)),
{
    match doc {
        YamlDoc::Mapping(m, _) => Some(m),
        YamlDoc::Plain => None,
    }
}

/// The first of two optional texts that is there.
pub open spec fn either(a: Option<Text>, b: Option<Text>) -> Option<Text> {
    if a is Some {
        a
    } else {
        b
    }
}

pub fn find_entry(v: &Vec<(Scalar, Scalar)>, key: &str) -> (r: Option<usize>)
    ensures
        r is Some == lookup(entry_models(v@), key@) is Some,
        r matches Some(i) ==> i < v@.len() && lookup(entry_models(v@), key@) == Some(v@[i as int].1@),
{
    let ghost s = entry_models(v@);
    let mut i: usize = 0;
    assert(s.skip(0) =~= s);
    while i < v.len()
        invariant
            s == entry_models(v@),
            i <= v.len(),
            lookup(s, key@) == lookup(s.skip(i as int), key@),
        decreases v.len() - i,
    {
        let hit = match &v[i].0 {
            Scalar::Text(t, tagged) => !*tagged && same(t, key),
            _ => false,
        };
        let ghost rest = s.skip(i as int);
        assert(rest[0] == s[i as int]);
        if hit {
            return Some(i);
        }
        assert(rest.drop_first() =~= s.skip(i + 1));
        i += 1;
    }
    None
}

/// The value under `key`, written out.
pub fn string_field(doc: &Option<YamlDoc>, key: &str) -> (r: Option<String>)
    ensures
        crate::text::opt_text(r) == written(field(doc_model(*doc), key@)),
{
    match doc {
        Some(YamlDoc::Mapping(v, false)) => match find_entry(v, key) {
            Some(i) => match &v[i].1 {
                Scalar::Text(t, false) => Some(t.clone()),
                Scalar::Number(t) => Some(t.clone()),
                Scalar::Flag(b) => Some(if *b {
                    own("true")
                } else {
                    own("false")
                }),
                _ => None,
            },
            None => None,
        },
        _ => None,
    }
}

/// The text under `key` without surrounding white space, if anything is left.
pub fn text_field(v: &Vec<(Scalar, Scalar)>, key: &str) -> (r: Option<String>)
    ensures
        crate::text::opt_text(r) == filled(lookup(entry_models(v@), key@)),
{
    match find_entry(v, key) {
        Some(i) => match &v[i].1 {
            Scalar::Text(t, _) => {
                let t = trim(t);
                if t.as_str().is_empty() {
                    None
                } else {
                    Some(t)
                }
            },
            _ => None,
        },
        None => None,
    }
}

/// The first entry with the key counts.
pub proof fn the_first_entry_counts(s: Seq<(ScalarModel, ScalarModel)>, key: Text, i: int)
    requires
        0 <= i < s.len(),
        s[i].0 == ScalarModel::Text(key, false),
        forall|j: int| 0 <= j < i ==> (#[trigger] s[j]).0 != ScalarModel::Text(key, false),
    ensures
        lookup(s, key) == Some(s[i].1),
    decreases s.len(),
{
    if i > 0 {
        let t = s.drop_first();
        assert(s[0].0 != ScalarModel::Text(key, false));
        assert(t[i - 1] == s[i]);
        assert forall|j: int| 0 <= j < i - 1 implies (#[trigger] t[j]).0 != ScalarModel::Text(key, false) by {
            assert(t[j] == s[j + 1]);
        }
        the_first_entry_counts(t, key, i - 1);
    }
}

/// What is found under a key stands there.
pub proof fn what_is_found_stands_under_its_key(s: Seq<(ScalarModel, ScalarModel)>, key: Text)
    ensures
        lookup(s, key) matches Some(v) ==> exists|i: int|
            0 <= i < s.len() && (#[trigger] s[i]).0 == ScalarModel::Text(key, false) && s[i].1 == v,
        lookup(s, key) is None ==> forall|i: int|
            0 <= i < s.len() ==> (#[trigger] s[i]).0 != ScalarModel::Text(key, false),
    decreases s.len(),
{
    if s.len() > 0 && s[0].0 != ScalarModel::Text(key, false) {
        let t = s.drop_first();
        what_is_found_stands_under_its_key(t, key);
        if lookup(s, key) is Some {
            let i = choose|i: int|
                0 <= i < t.len() && (#[trigger] t[i]).0 == ScalarModel::Text(key, false) && t[i].1 == lookup(s, key)->0;
            assert(s[i + 1] == t[i]);
        } else {
            assert forall|i: int| 0 <= i < s.len() implies (#[trigger] s[i]).0 != ScalarModel::Text(key, false) by {
                if i > 0 {
                    assert(t[i - 1] == s[i]);
                }
            }
        }
    }
}

/// Texts, numbers and truth values are written out; a text that must not be
/// blank is trimmed.
pub proof fn scalars_are_written_out(t: Text, tagged: bool)
    ensures
        written(Some(ScalarModel::Text(t, false))) == Some(t),
        written(Some(ScalarModel::Text(t, true))) is None,
        written(Some(ScalarModel::Number(t))) == Some(t),
        written(Some(ScalarModel::Flag(true))) == Some("true"@),
        written(Some(ScalarModel::Flag(false))) == Some("false"@),
        written(None) is None,
        trimmed(t).len() > 0 ==> filled(Some(ScalarModel::Text(t, tagged))) == Some(trimmed(t)),
        trimmed(t).len() == 0 ==> filled(Some(ScalarModel::Text(t, tagged))) is None,
        filled(Some(ScalarModel::Number(t))) is None,
        filled(None) is None,
{
}

/// Only a mapping has fields, and a tag on it hides them from `field` alone.
pub proof fn only_a_mapping_has_fields(m: Seq<(ScalarModel, ScalarModel)>, tagged: bool, key: Text, a: Text, b: Option<Text>)
    ensures
        field(None, key) is None,
        field(Some(YamlModel::Plain), key) is None,
        field(Some(YamlModel::Mapping(m, true)), key) is None,
        field(Some(YamlModel::Mapping(m, false)), key) == lookup(m, key),
        entries_of(YamlModel::Mapping(m, tagged)) == Some(m),
        entries_of(YamlModel::Plain) is None,
        either(Some(a), b) == Some(a),
        either(None, b) == b,
{
}

} // verus!
