use vstd::prelude::*;

verus! {

/// Relies on `str::chars`: the iterator yields exactly the characters of
/// the string, in order, so collecting it gives a vector whose view is the
/// string's view.
#[verifier::external_body]
pub(crate) fn str_to_chars(s: &str) -> (r: Vec<char>)
    ensures
        r@ == s@,
{
    s.chars().collect()
}

/// Relies on `FromIterator for String`: collecting characters builds the
/// string of exactly those characters, in order.
#[verifier::external_body]
pub(crate) fn chars_to_string(v: &Vec<char>) -> (r: String)
    ensures
        r@ == v@,
{
    v.iter().collect()
}

/// Relies on `String::from_utf8`: it succeeds exactly on well-formed UTF-8
/// and returns the string those bytes encode, which is the unique sequence
/// of characters whose UTF-8 encoding is the input.
#[verifier::external_body]
pub(crate) fn bytes_to_string(b: &Vec<u8>) -> (r: Option<String>)
    ensures
        r is Some <==> vstd::utf8::valid_utf8(b@),
        r is Some ==> r.unwrap()@ == vstd::utf8::decode_utf8(b@)
            && vstd::utf8::encode_utf8(r.unwrap()@) == b@,
{
    match String::from_utf8(b.clone()) {
        Ok(s) => Some(s),
        Err(_) => None,
    }
}

} // verus!
