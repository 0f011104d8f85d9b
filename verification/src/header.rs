//! The header line, `x = <width>, y = <height>, rule = <ruleset>`.
//!
//! Only the first two comma-separated fields are read. In each, the text between the
//! first `=` and the next one (or the end of the field) is trimmed and read as an
//! unsigned decimal number. The names before `=` and the ruleset are not looked at.

use vstd::prelude::*;
use vstd::slice::slice_subrange;
use crate::text::{
    find_char, index_of, lemma_index_of, parse_uint, parse_unsigned, trim, trim_chars,
};

verus! {

/// The text of `field` between its first `=` and the next `=` or its end;
/// nothing when `field` holds no `=`.
pub open spec fn field_rhs(field: Seq<char>) -> Option<Seq<char>> {
    let eq = index_of(field, '=');
    if 0 <= eq < field.len() {
        let rest = field.skip(eq + 1);
        Some(rest.take(index_of(rest, '=')))
    } else {
        None
    }
}

/// The number that `field` assigns: its right-hand side, trimmed, as an unsigned
/// decimal number.
pub open spec fn field_value(field: Seq<char>) -> Option<nat> {
    match field_rhs(field) {
        Some(rhs) => parse_uint(trim(rhs)),
        None => None,
    }
}

/// The declared `(width, height)` of a header line: the values of its first and
/// second comma-separated fields. Nothing when the line has no comma, or when either
/// field has no `=` or no readable number.
pub open spec fn header_dims(line: Seq<char>) -> Option<(nat, nat)> {
    let comma = index_of(line, ',');
    if 0 <= comma < line.len() {
        let rest = line.skip(comma + 1);
        let second = rest.take(index_of(rest, ','));
        match (field_value(line.take(comma)), field_value(second)) {
            (Some(width), Some(height)) => Some((width, height)),
            _ => None,
        }
    } else {
        None
    }
}

/// Reads the number that one header field assigns.
pub fn parse_field(field: &[char]) -> (r: Option<usize>)
    ensures
        (match r {
            Some(v) => field_value(field@) == Some(v as nat),
            None => field_value(field@) is None,
        }),
{
    let eq = find_char(field, '=');
    if eq >= field.len() {
        return None;
    }
    let rest = slice_subrange(field, eq + 1, field.len());
    let end = find_char(rest, '=');
    proof {
        lemma_index_of(rest@, '=');
    }
    let rhs = slice_subrange(rest, 0, end);
    parse_unsigned(trim_chars(rhs))
}

/// Reads the declared width and height from a header line.
pub fn parse_dimensions(line: &[char]) -> (r: Option<(usize, usize)>)
    ensures
        (match r {
            Some((w, h)) => header_dims(line@) == Some((w as nat, h as nat)),
            None => header_dims(line@) is None,
        }),
{
    let comma = find_char(line, ',');
    if comma >= line.len() {
        return None;
    }
    let first = slice_subrange(line, 0, comma);
    let rest = slice_subrange(line, comma + 1, line.len());
    let end = find_char(rest, ',');
    proof {
        lemma_index_of(rest@, ',');
    }
    let second = slice_subrange(rest, 0, end);
    let width = match parse_field(first) {
        Some(w) => w,
        None => {
            return None;
        },
    };
    match parse_field(second) {
        Some(height) => Some((width, height)),
        None => None,
    }
}

} // verus!
