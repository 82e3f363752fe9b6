//! Parsing of coordinate pairs such as `"400x600"` or `"1.0,0.5"`.

use vstd::prelude::*;

verus! {

/// Relies on `str::split_once`: splits at the first occurrence of the
/// delimiter, returning the prefix before it and the suffix after it,
/// and `None` exactly when the delimiter does not occur.
#[verifier::external_body]
fn split_at_separator<'a>(s: &'a str, separator: char) -> (r: Option<(&'a str, &'a str)>)
    ensures
        match r {
            Option::Some(parts) => {
                &&& s@ == parts.0@ + seq![separator] + parts.1@
                &&& !parts.0@.contains(separator)
            },
            Option::None => !s@.contains(separator),
        },
{
    s.split_once(separator)
}

/// Relies on `str::FromStr::from_str`: which strings parse, and to what
/// value, is the implementing type's own affair, so nothing is promised
/// of the result.
#[verifier::external_body]
fn parse_value<T: core::str::FromStr>(s: &str) -> (r: Option<T>) {
    match T::from_str(s) {
        Ok(v) => Some(v),
        Err(_) => None,
    }
}

/// Combine the parse results of a pair's two halves: a pair exactly when
/// both halves parsed, and then made of those two values.
pub fn pair_of_parts<T>(left: Option<T>, right: Option<T>) -> (r: Option<(T, T)>)
    ensures
        match (left, right) {
            (Option::Some(l), Option::Some(rt)) => r == Some((l, rt)),
            _ => r is None,
        },
{
    match (left, right) {
        (Some(l), Some(rt)) => Some((l, rt)),
        _ => None,
    }
}

/// Parse a string of the shape `<left><sep><right>` into two values of
/// `T`, splitting at the first occurrence of `separator`. Returns `None`
/// when the separator is absent or either side fails to parse; which
/// strings the two halves are is pinned by the split, while what they
/// parse to is `T`'s own affair.
pub fn parse_pair<T: core::str::FromStr>(s: &str, separator: char) -> (r: Option<(T, T)>)
    ensures
        !s@.contains(separator) ==> r is None,
        r is Some ==> s@.contains(separator),
{
    match split_at_separator(s, separator) {
        Option::None => None,
        Option::Some((left, right)) => {
            proof {
                assert(s@[left@.len() as int] == separator);
            }
            pair_of_parts(parse_value::<T>(left), parse_value::<T>(right))
        },
    }
}

} // verus!
