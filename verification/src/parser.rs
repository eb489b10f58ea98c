//! The grammar of type descriptors and its parser.
//!
//! ```text
//! primitive   := "string" | "number" | "boolean" | "object" | "record" | "date"
//!              | "bigint" | "symbol" | "undefined" | "null" | "void" | "unknown" | "never"
//! enum_form   := "enum:" value ("," value)*
//! array_form  := "Array<" descriptor ">"
//! record_form := "Record<" descriptor ">"
//! union_form  := "Union<" descriptor ("," descriptor)* ">"
//! custom_form := the name of a defined custom type
//! ```
//!
//! The rules are tried in this order and the first that matches decides. A
//! compound form matches where every descriptor inside it denotes a type. The
//! text inside a union is cut at the commas that stand outside every inner
//! `<`...`>`, so that a member may itself be a compound form, and each piece
//! is trimmed of white space before it is parsed in turn. The values of an
//! enumeration run to the end of their descriptor, so an enumeration inside
//! a union has one value.
//!
//! Where no rule matches, the error holds the text that matched none: the
//! descriptor itself, or, where it has the shape of a compound form, the
//! first part inside it that matched none.

use vstd::prelude::*;
use crate::error::{SchemaError, SchemaErrorModel};
use crate::registry::Registry;
use crate::schema::{schema_wf, type_wf, types_model, FieldModel, FieldType, Schema, TypeModel};
use crate::text::{
    chars_of, has_prefix, lemma_split_top_len, lemma_trim_len, range_equals, range_starts_with,
    slice_of, split, split_strings, split_top, split_top_range, trim, trim_range,
};

verus! {

/// What lies between an opening such as `Array<` and the closing `>`, where
/// the text has that form.
pub open spec fn wrapped(s: Seq<char>, opening: Seq<char>) -> Option<Seq<char>> {
    if has_prefix(s, opening) && s.len() > opening.len() && s.last() == '>' {
        Some(s.subrange(opening.len() as int, s.len() - 1))
    } else {
        None
    }
}

/// However a text is cut at its commas, no trimmed piece is longer than the
/// text.
pub proof fn lemma_parts_shorter(inner: Seq<char>)
    ensures
        forall|k: int|
            0 <= k < split_top(inner, ',').len() ==> trim(
                #[trigger] split_top(inner, ',')[k],
            ).len() <= inner.len(),
{
    lemma_split_top_len(inner, ',');
    assert forall|k: int| 0 <= k < split_top(inner, ',').len() implies trim(
        #[trigger] split_top(inner, ',')[k],
    ).len() <= inner.len() by {
        lemma_trim_len(split_top(inner, ',')[k]);
    }
}

/// The index of the first failed result, or the number of results where
/// none failed.
pub open spec fn first_failure(results: Seq<Result<TypeModel, Seq<char>>>) -> int
    decreases results.len(),
{
    if results.len() == 0 {
        0
    } else if results[0] is Err {
        0
    } else {
        1 + first_failure(results.drop_first())
    }
}

/// What each member of a union denotes: the text between `Union<` and `>`
/// is cut at every comma that stands outside every inner `<`...`>`, and each
/// piece is trimmed and parsed.
pub open spec fn parse_members(names: Set<Seq<char>>, inner: Seq<char>) -> Seq<
    Result<TypeModel, Seq<char>>,
>
    decreases inner.len(), 2int,
{
    let parts = split_top(inner, ',');
    proof {
        lemma_parts_shorter(inner);
    }
    Seq::new(
        parts.len(),
        |k: int|
            if 0 <= k < parts.len() {
                parse_descriptor(names, trim(parts[k]))
            } else {
                Err(Seq::empty())
            },
    )
}

/// The types that a list of results holds, where all of them succeeded.
pub open spec fn successes(results: Seq<Result<TypeModel, Seq<char>>>) -> Seq<TypeModel> {
    Seq::new(results.len(), |k: int| results[k]->Ok_0)
}

/// What a text of the shape of a compound form denotes: the type, where
/// every descriptor inside it denotes one, or else the first part inside it
/// that matched no rule. A text of no such shape has no result.
pub open spec fn parse_compound(names: Set<Seq<char>>, s: Seq<char>) -> Option<
    Result<TypeModel, Seq<char>>,
>
    decreases s.len(), 0int,
{
    if let Some(inner) = wrapped(s, "Array<"@) {
        Some(
            match parse_descriptor(names, inner) {
                Ok(t) => Ok(TypeModel::Array(Box::new(t))),
                Err(e) => Err(e),
            },
        )
    } else if let Some(inner) = wrapped(s, "Record<"@) {
        Some(
            match parse_descriptor(names, inner) {
                Ok(t) => Ok(TypeModel::Record(Box::new(t))),
                Err(e) => Err(e),
            },
        )
    } else if let Some(inner) = wrapped(s, "Union<"@) {
        let results = parse_members(names, inner);
        let k = first_failure(results);
        Some(
            if 0 <= k < results.len() {
                Err(results[k]->Err_0)
            } else {
                Ok(TypeModel::Union(successes(results)))
            },
        )
    } else {
        None
    }
}

/// The type that a descriptor denotes, given the names of the defined custom
/// types; or, where no rule matches, the text that matched none.
///
/// The keywords come first, then the enumeration, then the compound forms,
/// then the names of the custom types. A text of the shape of a compound
/// form whose inside matches no rule is still a custom type where it is the
/// name of one.
pub open spec fn parse_descriptor(names: Set<Seq<char>>, s: Seq<char>) -> Result<
    TypeModel,
    Seq<char>,
>
    decreases s.len(), 1int,
{
    if s == "string"@ {
        Ok(TypeModel::String)
    } else if s == "number"@ {
        Ok(TypeModel::Number)
    } else if s == "boolean"@ {
        Ok(TypeModel::Boolean)
    } else if s == "object"@ {
        Ok(TypeModel::Object(Seq::empty()))
    } else if s == "record"@ {
        Ok(TypeModel::Record(Box::new(TypeModel::Any)))
    } else if s == "date"@ {
        Ok(TypeModel::Date)
    } else if s == "bigint"@ {
        Ok(TypeModel::BigInt)
    } else if s == "symbol"@ {
        Ok(TypeModel::Symbol)
    } else if s == "undefined"@ {
        Ok(TypeModel::Undefined)
    } else if s == "null"@ {
        Ok(TypeModel::Null)
    } else if s == "void"@ {
        Ok(TypeModel::Void)
    } else if s == "unknown"@ {
        Ok(TypeModel::Unknown)
    } else if s == "never"@ {
        Ok(TypeModel::Never)
    } else if has_prefix(s, "enum:"@) {
        Ok(TypeModel::Enum(split(s.subrange("enum:"@.len() as int, s.len() as int), ',')))
    } else {
        match parse_compound(names, s) {
            Some(Ok(t)) => Ok(t),
            Some(Err(unmatched)) => if names.contains(s) {
                Ok(TypeModel::Custom(s))
            } else {
                Err(unmatched)
            },
            None => if names.contains(s) {
                Ok(TypeModel::Custom(s))
            } else {
                Err(s)
            },
        }
    }
}

/// Any index that holds a failure, with none before it, is the index of
/// the first failure.
pub proof fn lemma_first_failure_is(results: Seq<Result<TypeModel, Seq<char>>>, p: int)
    requires
        0 <= p <= results.len(),
        p < results.len() ==> results[p] is Err,
        forall|j: int| 0 <= j < p ==> (#[trigger] results[j]) is Ok,
    ensures
        first_failure(results) == p,
    decreases results.len(),
{
    if results.len() != 0 && p != 0 {
        let rest = results.drop_first();
        lemma_first_failure_is(rest, p - 1);
    }
}

/// `first_failure` returns the least index that holds a failure.
pub proof fn lemma_first_failure(results: Seq<Result<TypeModel, Seq<char>>>)
    ensures
        0 <= first_failure(results) <= results.len(),
        first_failure(results) < results.len() ==> results[first_failure(results)] is Err,
        forall|j: int| 0 <= j < first_failure(results) ==> (#[trigger] results[j]) is Ok,
    decreases results.len(),
{
    if results.len() != 0 && results[0] is Ok {
        let rest = results.drop_first();
        lemma_first_failure(rest);
        assert forall|j: int| 0 <= j < first_failure(results) implies (
        #[trigger] results[j]) is Ok by {
            if j > 0 {
                assert(results[j] == rest[j - 1]);
            }
        }
    }
}

/// Every type that a descriptor denotes is well formed.
pub proof fn lemma_parse_wf(names: Set<Seq<char>>, s: Seq<char>)
    ensures
        parse_descriptor(names, s) matches Ok(t) ==> type_wf(t),
    decreases s.len(),
{
    if s == "object"@ {
        assert(schema_wf(Seq::<FieldModel>::empty()));
    } else if s == "record"@ {
        assert(type_wf(TypeModel::Any));
    } else if has_prefix(s, "enum:"@) {
    } else if let Some(inner) = wrapped(s, "Array<"@) {
        lemma_parse_wf(names, inner);
    } else if let Some(inner) = wrapped(s, "Record<"@) {
        lemma_parse_wf(names, inner);
    } else if let Some(inner) = wrapped(s, "Union<"@) {
        let parts = split_top(inner, ',');
        lemma_parts_shorter(inner);
        let results = parse_members(names, inner);
        lemma_first_failure(results);
        if first_failure(results) == results.len() {
            let members = successes(results);
            assert forall|k: int| 0 <= k < members.len() implies type_wf(#[trigger] members[k]) by {
                lemma_parse_wf(names, trim(parts[k]));
            }
        }
    }
}

/// Whether what the parser returned is what the grammar says: the type
/// that the descriptor denotes, or the error that holds the text that
/// matched no rule.
pub open spec fn agrees(
    r: Result<FieldType, SchemaError>,
    expected: Result<TypeModel, Seq<char>>,
) -> bool {
    match expected {
        Ok(t) => r matches Ok(field_type) && field_type@ == t,
        Err(d) => r matches Err(e) && e@ == SchemaErrorModel::UnsupportedType(d),
    }
}

/// Where the characters from `lo` up to `hi` begin with the opening and end
/// with `>`, the bounds of what lies between.
fn wrapped_range(chars: &Vec<char>, lo: usize, hi: usize, opening: &str) -> (r: Option<
    (usize, usize),
>)
    requires
        lo <= hi <= chars.len(),
    ensures
        match wrapped(chars@.subrange(lo as int, hi as int), opening@) {
            Some(inner) => r matches Some((a, b)) && lo <= a <= b < hi && chars@.subrange(
                a as int,
                b as int,
            ) == inner,
            None => r is None,
        },
{
    let (found, n) = range_starts_with(chars, lo, hi, opening);
    if found && hi - lo > n && chars[hi - 1] == '>' {
        assert(chars@.subrange(lo as int, hi as int).subrange(n as int, hi - lo - 1)
            =~= chars@.subrange(lo + n, hi - 1));
        Some((lo + n, hi - 1))
    } else {
        None
    }
}

/// Parses the members of a union, whose text runs from `a` up to `b`.
fn parse_members_range(reg: &Registry, text: &str, chars: &Vec<char>, a: usize, b: usize) -> (r:
    Result<FieldType, SchemaError>)
    requires
        text@ == chars@,
        a <= b < chars.len(),
    ensures
        ({
            let results = parse_members(reg@.dom(), chars@.subrange(a as int, b as int));
            let k = first_failure(results);
            agrees(
                r,
                if 0 <= k < results.len() {
                    Err(results[k]->Err_0)
                } else {
                    Ok(TypeModel::Union(successes(results)))
                },
            )
        }),
    decreases b - a, 2int,
{
    let ghost names = reg@.dom();
    let ghost inner = chars@.subrange(a as int, b as int);
    let ghost parts = split_top(inner, ',');
    let ghost results = parse_members(names, inner);
    let pieces = split_top_range(chars, a, b, ',');
    let mut members: Vec<FieldType> = Vec::new();
    let mut k: usize = 0;
    while k < pieces.len()
        invariant
            text@ == chars@,
            a <= b < chars.len(),
            k <= pieces.len(),
            members.len() == k,
            names == reg@.dom(),
            results == parse_members(names, inner),
            inner == chars@.subrange(a as int, b as int),
            parts == split_top(inner, ','),
            pieces.len() == parts.len(),
            results.len() == parts.len(),
            forall|j: int|
                0 <= j < parts.len() ==> (#[trigger] results[j]) == parse_descriptor(
                    names,
                    trim(parts[j]),
                ),
            forall|j: int|
                0 <= j < pieces.len() ==> {
                    &&& a <= (#[trigger] pieces[j]).0 <= pieces[j].1 <= b
                    &&& chars@.subrange(pieces[j].0 as int, pieces[j].1 as int) == parts[j]
                },
            forall|j: int|
                0 <= j < k ==> (#[trigger] results[j]) is Ok && members[j]@ == results[j]->Ok_0,
        decreases pieces.len() - k,
    {
        let (ta, tb) = trim_range(chars, pieces[k].0, pieces[k].1);
        match parse_range(reg, text, chars, ta, tb) {
            Ok(member) => {
                members.push(member);
            },
            Err(e) => {
                proof {
                    lemma_first_failure_is(results, k as int);
                }
                return Err(e);
            },
        }
        k += 1;
    }
    proof {
        lemma_first_failure_is(results, results.len() as int);
    }
    assert(types_model(members@) =~= successes(results));
    Ok(FieldType::Union(members))
}

/// Parses the characters from `lo` up to `hi` as a compound form, where
/// they have the shape of one.
fn parse_compound_range(reg: &Registry, text: &str, chars: &Vec<char>, lo: usize, hi: usize) -> (r:
    Option<Result<FieldType, SchemaError>>)
    requires
        text@ == chars@,
        lo <= hi <= chars.len(),
    ensures
        match parse_compound(reg@.dom(), chars@.subrange(lo as int, hi as int)) {
            Some(expected) => r matches Some(found) && agrees(found, expected),
            None => r is None,
        },
    decreases hi - lo, 0int,
{
    if let Some((a, b)) = wrapped_range(chars, lo, hi, "Array<") {
        return Some(
            match parse_range(reg, text, chars, a, b) {
                Ok(inner) => Ok(FieldType::Array(Box::new(inner))),
                Err(e) => Err(e),
            },
        );
    }
    if let Some((a, b)) = wrapped_range(chars, lo, hi, "Record<") {
        return Some(
            match parse_range(reg, text, chars, a, b) {
                Ok(inner) => Ok(FieldType::Record(Box::new(inner))),
                Err(e) => Err(e),
            },
        );
    }
    if let Some((a, b)) = wrapped_range(chars, lo, hi, "Union<") {
        return Some(parse_members_range(reg, text, chars, a, b));
    }
    None
}

/// Parses the characters from `lo` up to `hi` of a descriptor.
fn parse_range(reg: &Registry, text: &str, chars: &Vec<char>, lo: usize, hi: usize) -> (r: Result<
    FieldType,
    SchemaError,
>)
    requires
        text@ == chars@,
        lo <= hi <= chars.len(),
    ensures
        agrees(r, parse_descriptor(reg@.dom(), chars@.subrange(lo as int, hi as int))),
    decreases hi - lo, 1int,
{
    let ghost s = chars@.subrange(lo as int, hi as int);
    if range_equals(chars, lo, hi, "string") {
        return Ok(FieldType::String);
    }
    if range_equals(chars, lo, hi, "number") {
        return Ok(FieldType::Number);
    }
    if range_equals(chars, lo, hi, "boolean") {
        return Ok(FieldType::Boolean);
    }
    if range_equals(chars, lo, hi, "object") {
        return Ok(FieldType::Object(Schema::new()));
    }
    if range_equals(chars, lo, hi, "record") {
        let any = FieldType::Any;
        assert(any@ == TypeModel::Any);
        return Ok(FieldType::Record(Box::new(any)));
    }
    if range_equals(chars, lo, hi, "date") {
        return Ok(FieldType::Date);
    }
    if range_equals(chars, lo, hi, "bigint") {
        return Ok(FieldType::BigInt);
    }
    if range_equals(chars, lo, hi, "symbol") {
        return Ok(FieldType::Symbol);
    }
    if range_equals(chars, lo, hi, "undefined") {
        return Ok(FieldType::Undefined);
    }
    if range_equals(chars, lo, hi, "null") {
        return Ok(FieldType::Null);
    }
    if range_equals(chars, lo, hi, "void") {
        return Ok(FieldType::Void);
    }
    if range_equals(chars, lo, hi, "unknown") {
        return Ok(FieldType::Unknown);
    }
    if range_equals(chars, lo, hi, "never") {
        return Ok(FieldType::Never);
    }
    let (is_enum, n) = range_starts_with(chars, lo, hi, "enum:");
    if is_enum {
        assert(s.subrange(n as int, s.len() as int) =~= chars@.subrange(lo + n, hi as int));
        return Ok(FieldType::Enum(split_strings(text, chars, lo + n, hi, ',')));
    }
    match parse_compound_range(reg, text, chars, lo, hi) {
        Some(Ok(parsed)) => Ok(parsed),
        Some(Err(e)) => {
            let name = slice_of(text, lo, hi);
            if reg.contains(&name) {
                Ok(FieldType::Custom(name))
            } else {
                Err(e)
            }
        },
        None => {
            let name = slice_of(text, lo, hi);
            if reg.contains(&name) {
                Ok(FieldType::Custom(name))
            } else {
                Err(SchemaError::UnsupportedType(name))
            }
        },
    }
}

/// Parses a type descriptor, with the registry telling which names are
/// custom types.
///
/// Succeeds exactly on the descriptors that the grammar gives a type, and
/// returns that type; fails on every other descriptor with
/// `UnsupportedType`, which holds the text that matched no rule.
pub fn parse_field_type(reg: &Registry, field_type: &str) -> (r: Result<FieldType, SchemaError>)
    ensures
        agrees(r, parse_descriptor(reg@.dom(), field_type@)),
        r matches Ok(parsed) ==> type_wf(parsed@),
{
    let chars = chars_of(field_type);
    assert(chars@.subrange(0, chars.len() as int) =~= chars@);
    proof {
        lemma_parse_wf(reg@.dom(), field_type@);
    }
    parse_range(reg, field_type, &chars, 0, chars.len())
}

} // verus!
