//! Phone-number and short-code addresses: nibble-swapped decimal digits with
//! an optional filler nibble, preceded by a length field and a type octet.

use vstd::prelude::*;
use crate::errors::Error;
use crate::hex::{
    is_ascii_digit, spec_encode_octet, spec_read_octet, read_octet, u8_to_hex,
    lemma_hex_octet_round_trip,
};
use crate::text::chars_to_string;

verus! {

/// The two address type octets the codec recognizes.
#[derive(Debug, Clone, Copy, PartialEq, Eq, Structural)]
pub enum AddressType {
    /// Type octet 145: international number, ISDN numbering plan.
    International,
    /// Type octet 201: subscriber number, private numbering plan.
    ShortCode,
}

/// A phone number or short code: its address type and its digit string.
#[derive(Debug, Clone)]
pub struct Number {
    pub format: AddressType,
    pub number: String,
}

/// Is `c` an ASCII decimal digit character?
pub open spec fn is_digit_char(c: char) -> bool {
    48 <= c as u32 <= 57
}

/// Every character of `s` is a decimal digit.
pub open spec fn all_digit_chars(s: Seq<char>) -> bool {
    forall|i: int| 0 <= i < s.len() ==> is_digit_char(s[i])
}

impl Number {
    /// A well-formed number: only decimal digits, of sensible length.
    pub open spec fn wf(&self) -> bool {
        all_digit_chars(self.number@) && 1 <= self.number@.len() <= 20
    }

    /// An international number with the given digit string.
    pub fn new_international(number: String) -> (r: Number)
        ensures
            r.format == AddressType::International,
            r.number == number,
    {
        Number { format: AddressType::International, number }
    }

    /// Append the wire form of this address: the digit count (incremented to
    /// even when odd), the type octet 145, then the nibble-swapped digits.
    pub fn serialize_to_pdu(&self, output: &mut Vec<u8>)
        requires
            self.wf(),
            self.format == AddressType::International,
        ensures
            final(output)@ == old(output)@ + spec_address_wire(self.number@),
    {
        let s = self.number.as_str();
        let len = s.unicode_len();
        let padded: usize = if len % 2 == 1 {
            len + 1
        } else {
            len
        };
        u8_to_hex(padded as u8, output);
        u8_to_hex(145, output);
        let ghost hdr = old(output)@ + spec_encode_octet(
            (self.number@.len() + self.number@.len() % 2) as u8,
        ) + spec_encode_octet(145);
        let ghost whole = encode_digit_pairs(self.number@);
        proof {
            assert(output@ =~= hdr);
            assert(self.number@.skip(0) =~= self.number@);
        }
        let mut i: usize = 0;
        while i < len
            invariant
                len == self.number@.len(),
                len <= 20,
                i <= len,
                i % 2 == 0 || i == len,
                s@ == self.number@,
                whole == encode_digit_pairs(self.number@),
                output@ + encode_digit_pairs(self.number@.skip(i as int)) == hdr + whole,
            decreases len - i,
        {
            let ghost rest = self.number@.skip(i as int);
            let ghost prev = output@;
            if i + 1 < len {
                let c1 = s.get_char(i + 1);
                let c0 = s.get_char(i);
                output.push((c1 as u32) as u8);
                output.push((c0 as u32) as u8);
                proof {
                    assert(rest[0] == self.number@[i as int] && rest[1] == self.number@[i as int
                        + 1]);
                    assert(rest.skip(2) =~= self.number@.skip(i as int + 2));
                    assert(encode_digit_pairs(rest) == seq![(rest[1] as u32) as u8, (rest[0] as u32) as u8]
                        + encode_digit_pairs(rest.skip(2)));
                    assert(output@ =~= prev + seq![(c1 as u32) as u8, (c0 as u32) as u8]);
                    assert((prev + seq![(c1 as u32) as u8, (c0 as u32) as u8]) + encode_digit_pairs(
                        self.number@.skip(i as int + 2),
                    ) =~= prev + encode_digit_pairs(rest));
                }
                i = i + 2;
            } else {
                let c0 = s.get_char(i);
                output.push(70);
                output.push((c0 as u32) as u8);
                proof {
                    assert(rest.len() == 1 && rest[0] == self.number@[i as int]);
                    assert(encode_digit_pairs(rest) == seq![70u8, (rest[0] as u32) as u8]);
                    assert(output@ =~= prev + seq![70u8, (c0 as u32) as u8]);
                    assert((prev + seq![70u8, (c0 as u32) as u8]) + encode_digit_pairs(
                        self.number@.skip(len as int),
                    ) =~= prev + encode_digit_pairs(rest));
                }
                i = len;
            }
        }
        proof {
            assert(self.number@.skip(len as int) =~= Seq::<char>::empty());
            assert(encode_digit_pairs(Seq::<char>::empty()) == Seq::<u8>::empty());
            assert(output@ =~= output@ + Seq::<u8>::empty());
            assert(hdr + whole =~= old(output)@ + spec_address_wire(self.number@));
        }
    }
}

/// The nibble-swapped digit pairs of a digit string: each pair of digits is
/// written later digit first, and an odd final digit is paired with the
/// filler character `F`.
pub open spec fn encode_digit_pairs(digits: Seq<char>) -> Seq<u8>
    decreases digits.len(),
{
    if digits.len() == 0 {
        seq![]
    } else if digits.len() == 1 {
        seq![70u8, (digits[0] as u32) as u8]
    } else {
        seq![(digits[1] as u32) as u8, (digits[0] as u32) as u8] + encode_digit_pairs(
            digits.skip(2),
        )
    }
}

/// The full wire form of an international address: the digit count (odd
/// counts incremented to even), the type octet 145, then the swapped digits.
pub open spec fn spec_address_wire(digits: Seq<char>) -> Seq<u8>
    recommends
        digits.len() <= 254,
{
    spec_encode_octet((digits.len() + digits.len() % 2) as u8) + spec_encode_octet(145)
        + encode_digit_pairs(digits)
}

/// Each adjacent character pair of `w` swapped, so the digits read in wire
/// order; a trailing unpaired character is dropped.
pub open spec fn swap_adjacent(w: Seq<u8>) -> Seq<u8> {
    Seq::new(
        (w.len() - w.len() % 2) as nat,
        |i: int|
            if i % 2 == 0 {
                w[i + 1]
            } else {
                w[i - 1]
            },
    )
}

/// A final high-nibble filler character `F` carries no digit and is dropped.
pub open spec fn strip_filler(s: Seq<u8>) -> Seq<u8> {
    if s.len() > 0 && s.last() == 70 {
        s.drop_last()
    } else {
        s
    }
}

/// Reading the digit string of `n_octets` address octets at `pos`: the two
/// characters of each octet are swapped into reading order, a final filler
/// `F` is dropped, and everything left must be a decimal digit.
pub open spec fn spec_parse_address_digits(d: Seq<u8>, pos: int, n_octets: int) -> Result<
    Seq<char>,
    Error,
> {
    if pos + 2 * n_octets > d.len() {
        Err(Error::Incomplete)
    } else {
        let digs = strip_filler(swap_adjacent(d.subrange(pos, pos + 2 * n_octets)));
        if forall|i: int| 0 <= i < digs.len() ==> is_ascii_digit(digs[i]) {
            Ok(digs.map_values(|b: u8| b as char))
        } else {
            Err(Error::MalformedHex)
        }
    }
}

/// Reading a type octet and then the digit string of `n_octets` octets:
/// 145 is an international number, 201 a short code, anything else fails.
pub open spec fn spec_parse_address(d: Seq<u8>, pos: int, n_octets: int) -> Result<
    (AddressType, Seq<char>),
    Error,
> {
    match spec_read_octet(d, pos) {
        Err(e) => Err(e),
        Ok(t) => {
            if t == 145 || t == 201 {
                match spec_parse_address_digits(d, pos + 2, n_octets) {
                    Ok(digs) => Ok(
                        (
                            if t == 145 {
                                AddressType::International
                            } else {
                                AddressType::ShortCode
                            },
                            digs,
                        ),
                    ),
                    Err(e) => Err(e),
                }
            } else {
                Err(Error::InvalidAddressType)
            }
        },
    }
}

/// Map a type octet to the address type it denotes.
pub fn to_address_type(data: u8) -> (r: Result<AddressType, Error>)
    ensures
        r is Ok <==> data == 145 || data == 201,
        data == 145 ==> r == Ok::<AddressType, Error>(AddressType::International),
        data == 201 ==> r == Ok::<AddressType, Error>(AddressType::ShortCode),
        r is Err ==> r->Err_0 == Error::InvalidAddressType,
{
    match data {
        145u8 => Ok(AddressType::International),
        201u8 => Ok(AddressType::ShortCode),
        _ => Err(Error::InvalidAddressType),
    }
}

/// The octet count that holds a digit count: two digits per octet, rounded up.
pub fn get_decimal_length(data: u8) -> (r: Result<u8, Error>)
    ensures
        r == Ok::<u8, Error>(((data + 1) / 2) as u8),
{
    if data % 2 == 0 {
        Ok(data / 2)
    } else {
        Ok(data / 2 + 1)
    }
}

/// The one or two digit characters of a single address octet, in reading
/// order, a high filler `F` dropped.
pub fn str_from_decimal_octet(data: &[u8]) -> (r: Result<String, Error>)
    requires
        data@.len() == 2,
    ensures
        r is Ok,
        r->Ok_0@ == strip_filler(seq![data@[1], data@[0]]).map_values(|b: u8| b as char),
{
    let mut chars: Vec<char> = Vec::new();
    chars.push(data[1] as char);
    if data[0] != 70 {
        chars.push(data[0] as char);
    }
    proof {
        assert(chars@ =~= strip_filler(seq![data@[1], data@[0]]).map_values(|b: u8| b as char));
    }
    Ok(chars_to_string(&chars))
}

/// Read the digit string of `n_octets` address octets at `pos`.
pub fn parse_address_digits(data: &Vec<u8>, pos: usize, n_octets: usize) -> (r: Result<
    String,
    Error,
>)
    requires
        n_octets <= 254,
    ensures
        r is Ok <==> spec_parse_address_digits(data@, pos as int, n_octets as int) is Ok,
        r is Ok ==> r->Ok_0@ == spec_parse_address_digits(data@, pos as int, n_octets as int)->Ok_0,
        r is Err ==> r->Err_0 == spec_parse_address_digits(data@, pos as int, n_octets as int)->Err_0,
{
    let len = data.len();
    if pos > len || len - pos < 2 * n_octets {
        return Err(Error::Incomplete);
    }
    let ghost region = data@.subrange(pos as int, pos as int + 2 * n_octets);
    let mut raw: Vec<u8> = Vec::new();
    let mut k: usize = 0;
    while k < n_octets
        invariant
            pos + 2 * n_octets <= data@.len(),
            data@.len() <= usize::MAX,
            region == data@.subrange(pos as int, pos as int + 2 * n_octets),
            k <= n_octets,
            raw@.len() == 2 * k,
            forall|j: int|
                0 <= j < 2 * k ==> raw@[j] == (if j % 2 == 0 {
                    region[j + 1]
                } else {
                    region[j - 1]
                }),
        decreases n_octets - k,
    {
        raw.push(data[pos + 2 * k + 1]);
        raw.push(data[pos + 2 * k]);
        k = k + 1;
    }
    proof {
        assert(raw@ =~= swap_adjacent(region));
    }
    if raw.len() > 0 && raw[raw.len() - 1] == 70 {
        raw.pop();
        proof {
            assert(raw@ =~= strip_filler(swap_adjacent(region)));
        }
    }
    let ghost digs = strip_filler(swap_adjacent(region));
    let mut chars: Vec<char> = Vec::new();
    let mut i: usize = 0;
    while i < raw.len()
        invariant
            pos + 2 * n_octets <= data@.len(),
            digs == strip_filler(
                swap_adjacent(data@.subrange(pos as int, pos as int + 2 * n_octets)),
            ),
            raw@ == digs,
            i <= raw@.len(),
            chars@.len() == i as int,
            forall|j: int| 0 <= j < i ==> is_ascii_digit(digs[j]),
            forall|j: int| 0 <= j < i ==> chars@[j] == digs[j] as char,
        decreases raw@.len() - i,
    {
        let b = raw[i];
        if b < 48 || b > 57 {
            return Err(Error::MalformedHex);
        }
        chars.push(b as char);
        i = i + 1;
    }
    proof {
        assert(chars@ =~= digs.map_values(|b: u8| b as char));
    }
    Ok(chars_to_string(&chars))
}

/// The bytes of a digit string, character by character.
pub open spec fn digit_bytes(digits: Seq<char>) -> Seq<u8> {
    digits.map_values(|c: char| (c as u32) as u8)
}

proof fn lemma_encode_digit_pairs_len(digits: Seq<char>)
    ensures
        encode_digit_pairs(digits).len() == digits.len() + digits.len() % 2,
    decreases digits.len(),
{
    if digits.len() >= 2 {
        lemma_encode_digit_pairs_len(digits.skip(2));
    }
}

proof fn lemma_swap_encode(digits: Seq<char>)
    ensures
        swap_adjacent(encode_digit_pairs(digits)) == digit_bytes(digits) + (
        if digits.len() % 2 == 1 {
            seq![70u8]
        } else {
            Seq::<u8>::empty()
        }),
    decreases digits.len(),
{
    lemma_encode_digit_pairs_len(digits);
    let w = encode_digit_pairs(digits);
    if digits.len() == 0 {
        assert(swap_adjacent(w) =~= digit_bytes(digits) + Seq::<u8>::empty());
    } else if digits.len() == 1 {
        assert(swap_adjacent(w) =~= digit_bytes(digits) + seq![70u8]);
    } else {
        lemma_swap_encode(digits.skip(2));
        lemma_encode_digit_pairs_len(digits.skip(2));
        let rest_w = encode_digit_pairs(digits.skip(2));
        assert(swap_adjacent(w) =~= seq![w[1], w[0]] + swap_adjacent(rest_w));
        assert(digit_bytes(digits) =~= seq![(digits[0] as u32) as u8, (digits[1] as u32) as u8]
            + digit_bytes(digits.skip(2)));
        assert(swap_adjacent(w) =~= digit_bytes(digits) + (
        if digits.len() % 2 == 1 {
            seq![70u8]
        } else {
            Seq::<u8>::empty()
        }));
    }
}

/// The digit round trip behind the address codec: swapping the encoded
/// pairs back and dropping the filler recovers exactly the digit bytes, and
/// those bytes name the original characters.
pub proof fn lemma_address_digits_round_trip(digits: Seq<char>)
    requires
        all_digit_chars(digits),
    ensures
        strip_filler(swap_adjacent(encode_digit_pairs(digits))) == digit_bytes(digits),
        digit_bytes(digits).map_values(|b: u8| b as char) == digits,
        forall|i: int|
            0 <= i < digit_bytes(digits).len() ==> is_ascii_digit(#[trigger] digit_bytes(digits)[i]),
{
    lemma_swap_encode(digits);
    assert(forall|i: int| 0 <= i < digits.len() ==> is_ascii_digit(#[trigger] digit_bytes(digits)[i]))
        by {
        assert forall|i: int| 0 <= i < digits.len() implies is_ascii_digit(
            #[trigger] digit_bytes(digits)[i],
        ) by {
            assert(digit_bytes(digits)[i] == (digits[i] as u32) as u8);
            assert(is_digit_char(digits[i]));
            let v = digits[i] as u32;
            assert((v as u8) as u32 == v && 48 <= (v as u8) <= 57) by (bit_vector)
                requires
                    48 <= v <= 57,
            ;
        }
    }
    if digits.len() % 2 == 1 {
        assert((digit_bytes(digits) + seq![70u8]).last() == 70);
        assert((digit_bytes(digits) + seq![70u8]).drop_last() =~= digit_bytes(digits));
    } else {
        if digits.len() > 0 {
            assert(is_ascii_digit(digit_bytes(digits)[digits.len() - 1]));
            assert(digit_bytes(digits).last() != 70);
        }
        assert(digit_bytes(digits) + Seq::<u8>::empty() =~= digit_bytes(digits));
    }
    assert(digit_bytes(digits).map_values(|b: u8| b as char) =~= digits) by {
        assert forall|i: int| 0 <= i < digits.len() implies digit_bytes(digits).map_values(
            |b: u8| b as char,
        )[i] == digits[i] by {
            assert(digit_bytes(digits)[i] == (digits[i] as u32) as u8);
            assert(is_digit_char(digits[i]));
            let v = digits[i] as u32;
            assert((v as u8) as u32 == v) by (bit_vector)
                requires
                    48 <= v <= 57,
            ;
            assert((v as u8) as u32 == digits[i] as u32);
            vstd::utf8::char_is_scalar(digits[i]);
            vstd::utf8::char_u32_cast(digits[i], v);
            assert((v as u8) as char == digits[i]);
        }
    }
}

/// The address round trip: the wire form of a well-formed digit string
/// reads back as the same digit string, with the international type, and
/// the length field reads back as the digit count rounded up to even, from
/// which the reader derives the same octet count the encoder wrote.
pub proof fn lemma_address_round_trip(digits: Seq<char>)
    requires
        all_digit_chars(digits),
        1 <= digits.len() <= 20,
    ensures
        spec_read_octet(spec_address_wire(digits), 0) == Ok::<u8, Error>(
            (digits.len() + digits.len() % 2) as u8,
        ),
        spec_parse_address(
            spec_address_wire(digits),
            2,
            (digits.len() + digits.len() % 2) as int / 2,
        ) == Ok::<(AddressType, Seq<char>), Error>((AddressType::International, digits)),
{
    let w = spec_address_wire(digits);
    let padded = (digits.len() + digits.len() % 2) as u8;
    lemma_hex_octet_round_trip(padded);
    lemma_hex_octet_round_trip(145);
    lemma_encode_digit_pairs_len(digits);
    assert(w[0] == spec_encode_octet(padded)[0] && w[1] == spec_encode_octet(padded)[1]);
    assert(w[2] == spec_encode_octet(145)[0] && w[3] == spec_encode_octet(145)[1]);
    assert(spec_read_octet(w, 0) == Ok::<u8, Error>(padded));
    assert(spec_read_octet(w, 2) == Ok::<u8, Error>(145));
    let n = (digits.len() + digits.len() % 2) as int / 2;
    assert(w.len() == 4 + 2 * n);
    assert(w.subrange(4, 4 + 2 * n) =~= encode_digit_pairs(digits));
    lemma_address_digits_round_trip(digits);
    assert(spec_parse_address_digits(w, 4, n) == Ok::<Seq<char>, Error>(digits));
}

/// Read a type octet and the digit string of `n_octets` octets at `pos`.
pub fn parse_address(data: &Vec<u8>, pos: usize, n_octets: usize) -> (r: Result<Number, Error>)
    requires
        n_octets <= 254,
    ensures
        r is Ok <==> spec_parse_address(data@, pos as int, n_octets as int) is Ok,
        r is Ok ==> r->Ok_0.format == spec_parse_address(
            data@,
            pos as int,
            n_octets as int,
        )->Ok_0.0 && r->Ok_0.number@ == spec_parse_address(data@, pos as int, n_octets as int)->Ok_0.1,
        r is Err ==> r->Err_0 == spec_parse_address(data@, pos as int, n_octets as int)->Err_0,
{
    let buffer_len = data.len();
    let t = match read_octet(data, pos) {
        Ok(t) => t,
        Err(e) => {
            proof {
                assert(buffer_len == data@.len());
            }
            return Err(e);
        },
    };
    let format = match to_address_type(t) {
        Ok(f) => f,
        Err(e) => {
            return Err(e);
        },
    };
    let number = match parse_address_digits(data, pos + 2, n_octets) {
        Ok(s) => s,
        Err(e) => {
            return Err(e);
        },
    };
    Ok(Number { format, number })
}

} // verus!
