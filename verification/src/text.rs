//! Small trusted bridges between the verified character-level model and the
//! standard library's `String` and `char`.

use vstd::prelude::*;
use crate::errors::Error;

verus! {

/// Relies on `String: FromIterator<char>`: collecting a character sequence
/// yields the string of exactly those characters in order.
#[verifier::external_body]
pub fn chars_to_string(chars: &Vec<char>) -> (s: String)
    ensures
        s@ == chars@,
{
    chars.iter().collect()
}

/// Relies on `char::from_u32`: `Some` exactly for Unicode scalar values
/// (not a surrogate, at most 0x10FFFF), and the character has that value.
pub assume_specification[ char::from_u32 ](v: u32) -> (r: Option<char>)
    ensures
        r is Some <==> (v < 0xD800 || (0xE000 <= v && v <= 0x10FFFF)),
        r is Some ==> r->0 as u32 == v,
;

/// Copy a byte slice into an owned vector.
pub fn to_vec(data: &[u8]) -> (r: Result<Vec<u8>, Error>)
    ensures
        r is Ok,
        r->Ok_0@ == data@,
{
    Ok(vstd::slice::slice_to_vec(data))
}

/// The single ASCII character of a one-character string, as its byte.
pub fn str_to_ascii(data: &str) -> (r: u8)
    requires
        data.is_ascii(),
        data@.len() == 1,
    ensures
        r == data@[0] as u8,
{
    data.get_ascii(0)
}

/// Concatenate a list of strings in order.
pub fn concat_strings(data: Vec<String>) -> (r: Result<String, Error>)
    ensures
        r is Ok,
        r->Ok_0@ == data.deep_view().flatten(),
{
    let mut out = String::new();
    let mut i: usize = 0;
    proof {
        assert(data.deep_view().take(0) =~= Seq::<Seq<char>>::empty());
        assert(Seq::<Seq<char>>::empty().flatten() == Seq::<char>::empty());
        assert(out@ =~= Seq::<Seq<char>>::empty().flatten());
    }
    while i < data.len()
        invariant
            i <= data@.len(),
            data@.len() == data.deep_view().len(),
            forall|j: int| 0 <= j < data@.len() ==> data.deep_view()[j] == #[trigger] data@[j]@,
            out@ == data.deep_view().take(i as int).flatten(),
        decreases data@.len() - i,
    {
        out.append(data[i].as_str());
        proof {
            let dv = data.deep_view();
            dv.take(i as int).lemma_flatten_push(dv[i as int]);
            assert(dv.take(i as int).push(dv[i as int]) =~= dv.take(i as int + 1));
        }
        i = i + 1;
    }
    proof {
        assert(data.deep_view().take(data@.len() as int) =~= data.deep_view());
    }
    Ok(out)
}

} // verus!
