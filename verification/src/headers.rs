//! The header fields of a request, as the `hyper` crate holds them.

use hyper::header::HeaderValue;
use hyper::HeaderMap;
use vstd::prelude::*;

verus! {

/// A map from header names to one or more values each.
#[verifier::external_type_specification]
#[verifier::external_body]
#[verifier::reject_recursive_types(T)]
pub struct ExHeaderMap<T>(hyper::HeaderMap<T>);

/// One header value.
#[verifier::external_type_specification]
#[verifier::external_body]
pub struct ExHeaderValue(hyper::header::HeaderValue);

/// The fields of a header map in the order in which it is walked: the name in lower
/// case, and the value's bytes. A name that has several values stands once for each.
pub uninterp spec fn header_fields(m: HeaderMap<HeaderValue>) -> Seq<(Seq<char>, Seq<u8>)>;

/// The text that a run of bytes reads as UTF-8, with the replacement character in
/// place of what is no UTF-8.
pub uninterp spec fn lossy_text(bytes: Seq<u8>) -> Seq<char>;

/// Whether `name` is written with small ASCII letters, digits and hyphens only.
pub open spec fn plain_name(name: Seq<char>) -> bool {
    forall|i: int|
        0 <= i < name.len() ==> {
            let u = #[trigger] name[i] as u32;
            (97 <= u <= 122) || (48 <= u <= 57) || u == 45
        }
}

/// The value of the first field of that name.
pub open spec fn first_value(fields: Seq<(Seq<char>, Seq<u8>)>, name: Seq<char>) -> Option<
    Seq<u8>,
>
    decreases fields.len(),
{
    if fields.len() == 0 {
        None
    } else if fields[0].0 == name {
        Some(fields[0].1)
    } else {
        first_value(fields.skip(1), name)
    }
}

/// What a list of fields reads.
pub open spec fn fields_of(fields: Seq<(String, Vec<u8>)>) -> Seq<(Seq<char>, Seq<u8>)> {
    fields.map_values(|f: (String, Vec<u8>)| (f.0@, f.1@))
}

/// `HeaderMap::get` with a name in lower case: the first value under that name, as its
/// bytes.
#[verifier::external_body]
pub(crate) fn header_value(m: &HeaderMap<HeaderValue>, name: &str) -> (r: Option<Vec<u8>>)
    requires
        plain_name(name@),
    ensures
        match r {
            Some(v) => first_value(header_fields(*m), name@) == Some(v@),
            None => first_value(header_fields(*m), name@) is None,
        },
{
    m.get(name).map(|v| v.as_bytes().to_vec())
}

/// `HeaderMap::iter`: all fields, each name as its lower-case text and each value as its
/// bytes.
#[verifier::external_body]
pub(crate) fn all_fields(m: &HeaderMap<HeaderValue>) -> (r: Vec<(String, Vec<u8>)>)
    ensures
        fields_of(r@) == header_fields(*m),
{
    m.iter().map(|(n, v)| (n.as_str().to_owned(), v.as_bytes().to_vec())).collect()
}

/// `String::from_utf8_lossy`: the text of the bytes.
#[verifier::external_body]
pub(crate) fn text_of(bytes: &[u8]) -> (r: String)
    ensures
        r@ == lossy_text(bytes@),
{
    String::from_utf8_lossy(bytes).into_owned()
}

} // verus!
