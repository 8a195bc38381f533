//! Deciding whether a parsed record satisfies a filter.
use vstd::prelude::*;
use crate::document::{Document, DocumentModel, FieldModel};
use crate::text::{contains_text, is_substring, lower_of, lowercase};

verus! {

/// How a field's rendering is compared with the needle.
#[derive(Clone, Copy, Debug, PartialEq, Eq, Structural)]
pub enum Operator {
    /// Case-sensitive substring match.
    Contains,
    /// The rendering is lower-cased first; the needle is used as given.
    Icontains,
}

/// Why a filter configuration was refused.
#[derive(Clone, Copy, Debug, PartialEq, Eq, Structural)]
pub enum ConfigError {
    /// No field name was given.
    NoFields,
    /// The needle is the empty string.
    EmptyNeedle,
}

/// The fields to look at, in order, the operator and the needle.
#[derive(Debug)]
pub struct FilterSpec {
    pub fields: Vec<String>,
    pub operator: Operator,
    pub needle: String,
}

impl FilterSpec {
    /// The field names as character sequences.
    pub open spec fn keys(&self) -> Seq<Seq<char>> {
        self.fields@.map_values(|s: String| s@)
    }

    /// At least one field, and a non-empty needle.
    pub open spec fn well_formed(&self) -> bool {
        self.fields@.len() > 0 && self.needle@.len() > 0
    }

    /// Builds a filter, refusing an empty field list or an empty needle.
    pub fn new(fields: Vec<String>, operator: Operator, needle: String) -> (r: Result<
        FilterSpec,
        ConfigError,
    >)
        ensures
            fields@.len() == 0 ==> r == Err::<FilterSpec, ConfigError>(ConfigError::NoFields),
            fields@.len() > 0 && needle@.len() == 0 ==> r == Err::<FilterSpec, ConfigError>(
                ConfigError::EmptyNeedle,
            ),
            fields@.len() > 0 && needle@.len() > 0 ==> (r matches Ok(s) && s.fields@ == fields@
                && s.operator == operator && s.needle@ == needle@ && s.well_formed()),
    {
        if fields.len() == 0 {
            return Err(ConfigError::NoFields);
        }
        if needle.as_str().unicode_len() == 0 {
            return Err(ConfigError::EmptyNeedle);
        }
        Ok(FilterSpec { fields, operator, needle })
    }
}

/// The first field of `fields` whose key is `key`.
pub open spec fn lookup(fields: Seq<FieldModel>, key: Seq<char>) -> Option<FieldModel>
    decreases fields.len(),
{
    if fields.len() == 0 {
        None
    } else if fields[0].0 == key {
        Some(fields[0])
    } else {
        lookup(fields.drop_first(), key)
    }
}

/// What the needle is searched in: the rendering itself, or its lower-case
/// form under `Icontains`.
pub open spec fn haystack(op: Operator, text: Seq<char>) -> Seq<char> {
    match op {
        Operator::Contains => text,
        Operator::Icontains => lower_of(text),
    }
}

/// The record is an object holding `key`, with a scalar value whose haystack
/// contains `needle`.
pub open spec fn field_hit(doc: DocumentModel, key: Seq<char>, op: Operator, needle: Seq<char>) -> bool {
    doc.0 && match lookup(doc.1, key) {
        Some(f) => !f.1 && is_substring(needle, haystack(op, f.2)),
        None => false,
    }
}

/// Some field of the filter, in order, hits the record.
pub open spec fn record_matches(doc: DocumentModel, spec: FilterSpec) -> bool {
    exists|j: int|
        0 <= j < spec.keys().len() && field_hit(doc, #[trigger] spec.keys()[j], spec.operator, spec.needle@)
}

/// The rendering of field `key` when the record is an object holding it with
/// a scalar (non-array, non-object) value.
pub open spec fn scalar_text(doc: DocumentModel, key: Seq<char>) -> Option<Seq<char>> {
    match lookup(doc.1, key) {
        Some(f) => if doc.0 && !f.1 {
            Some(f.2)
        } else {
            None
        },
        None => None,
    }
}

/// Under `Contains`, a record matches exactly when the needle is a substring
/// of the literal rendering of at least one listed field present in it.
pub proof fn lemma_contains_matches(doc: DocumentModel, spec: FilterSpec)
    requires
        spec.operator == Operator::Contains,
    ensures
        record_matches(doc, spec) <==> exists|j: int|
            0 <= j < spec.keys().len() && ((#[trigger] scalar_text(doc, spec.keys()[j])) matches Some(t)
                && is_substring(spec.needle@, t)),
{
    let keys = spec.keys();
    let needle = spec.needle@;
    if record_matches(doc, spec) {
        let j = choose|j: int| 0 <= j < keys.len() && field_hit(doc, #[trigger] keys[j], spec.operator, needle);
        assert(scalar_text(doc, keys[j]) matches Some(t) && is_substring(needle, t));
    }
    if exists|j: int| 0 <= j < keys.len() && ((#[trigger] scalar_text(doc, keys[j])) matches Some(t)
        && is_substring(needle, t)) {
        let j = choose|j: int| 0 <= j < keys.len() && ((#[trigger] scalar_text(doc, keys[j])) matches Some(t)
            && is_substring(needle, t));
        assert(field_hit(doc, keys[j], spec.operator, needle));
    }
}

/// Under `Icontains`, a record matches exactly when the needle, exactly as
/// given, is a substring of the lower-cased rendering of at least one listed
/// field present in it: only the rendering is case-folded.
pub proof fn lemma_icontains_matches(doc: DocumentModel, spec: FilterSpec)
    requires
        spec.operator == Operator::Icontains,
    ensures
        record_matches(doc, spec) <==> exists|j: int|
            0 <= j < spec.keys().len() && ((#[trigger] scalar_text(doc, spec.keys()[j])) matches Some(t)
                && is_substring(spec.needle@, lower_of(t))),
{
    let keys = spec.keys();
    let needle = spec.needle@;
    if record_matches(doc, spec) {
        let j = choose|j: int| 0 <= j < keys.len() && field_hit(doc, #[trigger] keys[j], spec.operator, needle);
        assert(scalar_text(doc, keys[j]) matches Some(t) && is_substring(needle, lower_of(t)));
    }
    if exists|j: int| 0 <= j < keys.len() && ((#[trigger] scalar_text(doc, keys[j])) matches Some(t)
        && is_substring(needle, lower_of(t))) {
        let j = choose|j: int| 0 <= j < keys.len() && ((#[trigger] scalar_text(doc, keys[j])) matches Some(t)
            && is_substring(needle, lower_of(t)));
        assert(field_hit(doc, keys[j], spec.operator, needle));
    }
}

/// Position in `doc.fields` of the first field whose key is `key`.
fn find_field(doc: &Document, key: &String) -> (r: Option<usize>)
    ensures
        match r {
            Some(i) => i < doc.fields@.len() && lookup(doc@.1, key@) == Some(doc@.1[i as int]),
            None => lookup(doc@.1, key@) is None,
        },
{
    let ghost all = doc@.1;
    let mut i: usize = 0;
    assert(all.subrange(0, all.len() as int) =~= all);
    while i < doc.fields.len()
        invariant
            all == doc@.1,
            i <= all.len(),
            lookup(all, key@) == lookup(all.subrange(i as int, all.len() as int), key@),
        decreases all.len() - i,
    {
        let ghost rest = all.subrange(i as int, all.len() as int);
        assert(rest.drop_first() =~= all.subrange(i + 1, all.len() as int));
        if doc.fields[i].key == *key {
            return Some(i);
        }
        i += 1;
    }
    None
}

/// Whether the field `key` of the record hits, as `field_hit` states.
pub fn field_matches(doc: &Document, key: &String, operator: Operator, needle: &String) -> (r: bool)
    ensures
        r == field_hit(doc@, key@, operator, needle@),
{
    if !doc.object {
        return false;
    }
    match find_field(doc, key) {
        None => false,
        Some(i) => {
            let field = &doc.fields[i];
            if field.composite {
                false
            } else {
                match operator {
                    Operator::Contains => contains_text(field.text.as_str(), needle.as_str()),
                    Operator::Icontains => {
                        let folded = lowercase(field.text.as_str());
                        contains_text(folded.as_str(), needle.as_str())
                    },
                }
            }
        },
    }
}

/// The position in `spec.fields` of the first field that hits the record, if
/// any: fields are tried in order and the first hit wins.
pub fn first_matching_field(doc: &Document, spec: &FilterSpec) -> (r: Option<usize>)
    ensures
        match r {
            Some(j) => j < spec.fields@.len() && field_hit(doc@, spec.keys()[j as int], spec.operator, spec.needle@)
                && forall|k: int| 0 <= k < j ==> !field_hit(doc@, #[trigger] spec.keys()[k], spec.operator, spec.needle@),
            None => forall|k: int|
                0 <= k < spec.fields@.len() ==> !field_hit(doc@, #[trigger] spec.keys()[k], spec.operator, spec.needle@),
        },
{
    let mut j: usize = 0;
    while j < spec.fields.len()
        invariant
            j <= spec.fields@.len(),
            forall|k: int| 0 <= k < j ==> !field_hit(doc@, #[trigger] spec.keys()[k], spec.operator, spec.needle@),
        decreases spec.fields@.len() - j,
    {
        if field_matches(doc, &spec.fields[j], spec.operator, &spec.needle) {
            return Some(j);
        }
        j += 1;
    }
    None
}

/// Whether the record satisfies the filter.
pub fn document_matches(doc: &Document, spec: &FilterSpec) -> (r: bool)
    ensures
        r == record_matches(doc@, *spec),
{
    let found = first_matching_field(doc, spec);
    proof {
        if let Some(j) = found {
            assert(field_hit(doc@, spec.keys()[j as int], spec.operator, spec.needle@));
        }
    }
    found.is_some()
}

} // verus!
