//! JSON read structurally, without building any rule: the size check of an import and the rule
//! counts of a stored profile look at a payload's keys and arrays before (or instead of) the
//! typed parse, which compiles every regular expression.

use vstd::prelude::*;
use crate::import_plan::{
    check_import_size_limits, shape_counts, shape_has_too_many_profiles, shape_tag, size_limit_violation,
    ImportShape, ProfileStoreError, MAX_PROFILES_PER_IMPORT,
};
use crate::text::str_equal;

verus! {

#[verifier::external_type_specification]
#[verifier::external_body]
pub struct ExJsonValue(serde_json::Value);

/// A JSON value as serde_json reads it: numbers are kept only as numbers, an object is its
/// entries with distinct keys (serde_json keeps the last of duplicate keys).
pub enum JsonModel {
    Null,
    Bool(bool),
    Number,
    Str(String),
    Array(Vec<JsonModel>),
    Object(Vec<(String, JsonModel)>),
}

/// What `serde_json::from_slice::<serde_json::Value>` reads from `bytes`, as a `JsonModel`;
/// `None` when the bytes are not JSON.
pub uninterp spec fn json_parse(bytes: Seq<u8>) -> Option<JsonModel>;

/// Converts a parsed value one for one: each variant to its namesake, an object's entries in the
/// order serde_json's map yields them. It is used by `parse_json` only.
#[verifier::external_body]
fn model_of_value(v: serde_json::Value) -> JsonModel {
    match v {
        serde_json::Value::Null => JsonModel::Null,
        serde_json::Value::Bool(b) => JsonModel::Bool(b),
        serde_json::Value::Number(_) => JsonModel::Number,
        serde_json::Value::String(s) => JsonModel::Str(s),
        serde_json::Value::Array(a) => JsonModel::Array(a.into_iter().map(model_of_value).collect()),
        serde_json::Value::Object(o) => JsonModel::Object(o.into_iter().map(|(k, x)| (k, model_of_value(x))).collect()),
    }
}

/// Calls `serde_json::from_slice::<serde_json::Value>`; its result is named by `json_parse`,
/// and a failure is reported with serde_json's description of it (nothing is stated of that
/// text).
#[verifier::external_body]
fn parse_json(json: &[u8]) -> (r: Result<JsonModel, String>)
    ensures
        r is Ok <==> json_parse(json@) is Some,
        r matches Ok(v) ==> json_parse(json@) == Some(v),
{
    match serde_json::from_slice::<serde_json::Value>(json) {
        Ok(v) => Ok(model_of_value(v)),
        Err(e) => Err(e.to_string()),
    }
}

/// The position of the last entry with key `key`, or -1.
pub open spec fn last_key_index(es: Seq<(String, JsonModel)>, key: Seq<char>) -> int
    decreases es.len(),
{
    if es.len() == 0 {
        -1
    } else if es.last().0@ == key {
        es.len() - 1
    } else {
        last_key_index(es.drop_last(), key)
    }
}

proof fn lemma_last_key_index_range(es: Seq<(String, JsonModel)>, key: Seq<char>)
    ensures
        -1 <= last_key_index(es, key) < es.len(),
        last_key_index(es, key) >= 0 ==> es[last_key_index(es, key)].0@ == key,
    decreases es.len(),
{
    if es.len() > 0 && es.last().0@ != key {
        lemma_last_key_index_range(es.drop_last(), key);
        let i = last_key_index(es.drop_last(), key);
        if i >= 0 {
            assert(es.drop_last()[i] == es[i]);
        }
    }
}

/// The value of key `key` of an object (`serde_json::Value::get`); `None` for a missing key or a
/// value that is not an object.
pub open spec fn json_get(v: JsonModel, key: Seq<char>) -> Option<JsonModel> {
    match v {
        JsonModel::Object(es) => {
            let i = last_key_index(es@, key);
            if i >= 0 {
                Some(es@[i].1)
            } else {
                None
            }
        },
        _ => None,
    }
}

fn get<'a>(v: &'a JsonModel, key: &str) -> (r: Option<&'a JsonModel>)
    ensures
        match r {
            Some(x) => json_get(*v, key@) == Some(*x),
            None => json_get(*v, key@) is None,
        },
{
    match v {
        JsonModel::Object(es) => {
            proof {
                lemma_last_key_index_range(es@, key@);
            }
            let mut i = es.len();
            proof {
                assert(es@.take(i as int) =~= es@);
            }
            while i > 0
                invariant
                    i <= es@.len(),
                    *v == JsonModel::Object(*es),
                    last_key_index(es@, key@) == last_key_index(es@.take(i as int), key@),
                decreases i,
            {
                proof {
                    assert(es@.take(i as int).last() == es@[i - 1]);
                    assert(es@.take(i as int).drop_last() =~= es@.take(i - 1));
                }
                if str_equal(es[i - 1].0.as_str(), key) {
                    proof {
                        assert(es@.take(i as int).len() == i);
                        assert(last_key_index(es@.take(i as int), key@) == i - 1);
                    }
                    return Some(&es[i - 1].1);
                }
                i -= 1;
            }
            proof {
                assert(es@.take(0).len() == 0);
            }
            None
        },
        _ => None,
    }
}

/// The number of rules of a profile written as JSON: the length of its `"rules"` array, or 0.
pub open spec fn json_rule_count(profile: JsonModel) -> nat {
    match json_get(profile, "rules"@) {
        Some(JsonModel::Array(rs)) => rs@.len(),
        _ => 0,
    }
}

/// A rule written as JSON is enabled unless its `"enabled"` is `false` (a missing or non-boolean
/// field counts as enabled, as the typed parse defaults it).
pub open spec fn json_rule_enabled(rule: JsonModel) -> bool {
    match json_get(rule, "enabled"@) {
        Some(JsonModel::Bool(b)) => b,
        _ => true,
    }
}

pub open spec fn count_enabled(rs: Seq<JsonModel>) -> nat
    decreases rs.len(),
{
    if rs.len() == 0 {
        0
    } else {
        count_enabled(rs.drop_last()) + if json_rule_enabled(rs.last()) {
            1nat
        } else {
            0nat
        }
    }
}

/// The number of enabled rules of a profile written as JSON.
pub open spec fn json_enabled_rule_count(profile: JsonModel) -> nat {
    match json_get(profile, "rules"@) {
        Some(JsonModel::Array(rs)) => count_enabled(rs@),
        _ => 0,
    }
}

fn rule_count_of(profile: &JsonModel) -> (r: usize)
    ensures
        r == json_rule_count(*profile),
{
    match get(profile, "rules") {
        Some(JsonModel::Array(rs)) => rs.len(),
        _ => 0,
    }
}

fn is_enabled(rule: &JsonModel) -> (r: bool)
    ensures
        r == json_rule_enabled(*rule),
{
    match get(rule, "enabled") {
        Some(JsonModel::Bool(b)) => *b,
        _ => true,
    }
}

fn enabled_rule_count_of(profile: &JsonModel) -> (r: usize)
    ensures
        r == json_enabled_rule_count(*profile),
{
    match get(profile, "rules") {
        Some(JsonModel::Array(rs)) => {
            let mut n: usize = 0;
            let mut i: usize = 0;
            while i < rs.len()
                invariant
                    i <= rs@.len(),
                    n == count_enabled(rs@.take(i as int)),
                    n <= i,
                decreases rs@.len() - i,
            {
                proof {
                    assert(rs@.take(i + 1).drop_last() =~= rs@.take(i as int));
                    assert(rs@.take(i + 1).last() == rs@[i as int]);
                }
                if is_enabled(&rs[i]) {
                    n += 1;
                }
                i += 1;
            }
            proof {
                assert(rs@.take(rs@.len() as int) =~= rs@);
            }
            n
        },
        _ => 0,
    }
}

/// The rule count and the enabled rule count of a stored profile's JSON, read without building
/// its rules; the parse error's description when it is not JSON.
pub fn profile_rule_counts(json: &[u8]) -> (r: Result<(usize, usize), String>)
    ensures
        match json_parse(json@) {
            Some(v) => r matches Ok((total, enabled)) && total == json_rule_count(v) && enabled
                == json_enabled_rule_count(v),
            None => r is Err,
        },
{
    match parse_json(json) {
        Ok(v) => Ok((rule_count_of(&v), enabled_rule_count_of(&v))),
        Err(e) => Err(e),
    }
}

/// The kind tag of an export payload, when it is a string.
pub open spec fn json_kind(v: JsonModel) -> Option<Seq<char>> {
    match json_get(v, "kind"@) {
        Some(JsonModel::Str(s)) => Some(s@),
        _ => None,
    }
}

/// Which shape the size check reads: 1 for `"kind": "all"`, 2 for `"kind": "single"`, 0 for
/// anything else. The kind tag decides, as it does for the typed parse: a stray `"profiles"` key
/// on a single payload does not make it an all-profiles one.
pub open spec fn json_shape_tag(v: JsonModel) -> int {
    if json_kind(v) == Some("all"@) {
        1
    } else if json_kind(v) == Some("single"@) {
        2
    } else {
        0
    }
}

/// The rule counts the size check reads: of each of `"profiles"` for kind `all` (when it is an
/// array), of `"profile"` for kind `single` (when present); none otherwise.
pub open spec fn json_shape_counts(v: JsonModel) -> Option<Seq<usize>> {
    if json_shape_tag(v) == 1 {
        match json_get(v, "profiles"@) {
            Some(JsonModel::Array(ps)) => Some(ps@.map_values(|p: JsonModel| json_rule_count(p) as usize)),
            _ => None,
        }
    } else if json_shape_tag(v) == 2 {
        match json_get(v, "profile"@) {
            Some(p) => Some(seq![json_rule_count(p) as usize]),
            None => None,
        }
    } else {
        None
    }
}

/// A payload of kind `all` whose `"profiles"` array is longer than an import may be.
pub open spec fn json_too_many_profiles(v: JsonModel) -> bool {
    json_shape_tag(v) == 1 && match json_get(v, "profiles"@) {
        Some(JsonModel::Array(ps)) => ps@.len() > MAX_PROFILES_PER_IMPORT,
        _ => false,
    }
}

fn kind_is(v: &JsonModel, kind: &str) -> (r: bool)
    ensures
        r == (json_kind(*v) == Some(kind@)),
{
    match get(v, "kind") {
        Some(JsonModel::Str(s)) => str_equal(s.as_str(), kind),
        _ => false,
    }
}

/// What the size check reads of a parsed payload, by its kind tag.
pub fn import_shape_of(v: &JsonModel) -> (r: ImportShape)
    ensures
        shape_tag(r) == json_shape_tag(*v),
        shape_counts(r) == json_shape_counts(*v),
        shape_has_too_many_profiles(r) == json_too_many_profiles(*v),
{
    if kind_is(v, "all") {
        match get(v, "profiles") {
            Some(JsonModel::Array(ps)) => {
                let ghost f = |p: JsonModel| json_rule_count(p) as usize;
                let mut counts: Vec<usize> = Vec::new();
                let mut i: usize = 0;
                while i < ps.len()
                    invariant
                        i <= ps@.len(),
                        counts@ == ps@.take(i as int).map_values(f),
                        f == (|p: JsonModel| json_rule_count(p) as usize),
                    decreases ps@.len() - i,
                {
                    counts.push(rule_count_of(&ps[i]));
                    i += 1;
                    assert(counts@ =~= ps@.take(i as int).map_values(f));
                }
                assert(ps@.take(ps@.len() as int) =~= ps@);
                ImportShape::All { profile_rule_counts: Some(counts) }
            },
            _ => ImportShape::All { profile_rule_counts: None },
        }
    } else if kind_is(v, "single") {
        match get(v, "profile") {
            Some(p) => ImportShape::Single { rule_count: Some(rule_count_of(p)) },
            None => ImportShape::Single { rule_count: None },
        }
    } else {
        ImportShape::Unchecked
    }
}

/// Refuses a decrypted payload whose profiles or rules are more than an import may bring,
/// reading only its JSON structure (no rule is built, no pattern compiled). Bytes that are not
/// JSON pass: the typed parse that follows reports them.
pub fn check_import_payload_size(json: &[u8]) -> (r: Result<(), ProfileStoreError>)
    ensures
        match json_parse(json@) {
            None => r is Ok,
            Some(v) => match size_limit_violation(json_shape_counts(v), json_too_many_profiles(v)) {
                None => r is Ok,
                Some(m) => r matches Err(ProfileStoreError::ImportTooLarge(msg)) && msg@ == m,
            },
        },
{
    match parse_json(json) {
        Err(_) => Ok(()),
        Ok(v) => check_import_size_limits(&import_shape_of(&v)),
    }
}

} // verus!
