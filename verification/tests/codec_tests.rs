use sms_pdu::address::{AddressType, Number, get_decimal_length, parse_address, str_from_decimal_octet, to_address_type};
use sms_pdu::alphabet::{gsm_char_lookup, parse_gsm_alphabet, parse_utf16, utf16_encode_units};
use sms_pdu::errors::Error;
use sms_pdu::hex::{decode_octet, encode_octet, parse_ascii_hex_number, parse_length, read_octet, u16_from_hex_str, u4_to_hex, u8_from_hex_str, u8_to_hex};
use sms_pdu::text::{concat_strings, str_to_ascii, to_vec};
use sms_pdu::timestamp::{parse_time_zone, parse_timestamp};

fn wire(s: &str) -> Vec<u8> {
    s.as_bytes().to_vec()
}

#[test]
fn hex_octet_round_trip_all_bytes() {
    for b in 0u16..=255 {
        let b = b as u8;
        let (hi, lo) = encode_octet(b);
        assert_eq!(decode_octet(hi, lo), Ok(b));
    }
}

#[test]
fn hex_encodes_uppercase_big_nibble_first() {
    let mut out: Vec<u8> = Vec::new();
    u8_to_hex(0xAB, &mut out);
    u8_to_hex(0x09, &mut out);
    assert_eq!(out, b"AB09".to_vec());
    assert_eq!(u4_to_hex(15), b'F');
}

#[test]
fn hex_decode_is_case_insensitive() {
    assert_eq!(u8_from_hex_str(b"ab"), Ok(0xAB));
    assert_eq!(u8_from_hex_str(b"AB"), Ok(0xAB));
    assert_eq!(u8_from_hex_str(b"G0"), Err(Error::MalformedHex));
    assert_eq!(u16_from_hex_str(b"AbCd"), Ok(0xABCD));
    assert_eq!(u16_from_hex_str(b"AxCd"), Err(Error::MalformedHex));
}

#[test]
fn hex_read_octet_reports_missing_input() {
    let data = wire("A");
    assert_eq!(read_octet(&data, 0), Err(Error::Incomplete));
    assert_eq!(read_octet(&data, 4), Err(Error::Incomplete));
}

#[test]
fn ascii_hex_number_maps_junk_to_zero() {
    assert_eq!(parse_ascii_hex_number(b'0'), 0);
    assert_eq!(parse_ascii_hex_number(b'f'), 15);
    assert_eq!(parse_ascii_hex_number(b'A'), 10);
    assert_eq!(parse_ascii_hex_number(b'~'), 0);
}

#[test]
fn parse_length_doubles_the_octet_count() {
    assert_eq!(parse_length(b"10"), Ok(32));
    assert_eq!(parse_length(b"ZZ"), Err(Error::MalformedHex));
}

#[test]
fn address_round_trip_even() {
    let n = Number::new_international("1234".to_string());
    let mut out: Vec<u8> = Vec::new();
    n.serialize_to_pdu(&mut out);
    assert_eq!(out, b"04912143".to_vec());
    let back = parse_address(&out, 2, 2).unwrap();
    assert_eq!(back.number, "1234");
    assert_eq!(back.format, AddressType::International);
}

#[test]
fn address_round_trip_odd() {
    let n = Number::new_international("123".to_string());
    let mut out: Vec<u8> = Vec::new();
    n.serialize_to_pdu(&mut out);
    assert_eq!(out, b"049121F3".to_vec());
    let back = parse_address(&out, 2, 2).unwrap();
    assert_eq!(back.number, "123");
}

#[test]
fn address_type_octets() {
    assert_eq!(to_address_type(145), Ok(AddressType::International));
    assert_eq!(to_address_type(201), Ok(AddressType::ShortCode));
    assert_eq!(to_address_type(146), Err(Error::InvalidAddressType));
}

#[test]
fn address_rejects_non_digit_characters() {
    let data = wire("91A4");
    assert_eq!(parse_address(&data, 0, 1).unwrap_err(), Error::MalformedHex);
}

#[test]
fn decimal_octet_drops_high_filler() {
    assert_eq!(str_from_decimal_octet(b"F3").unwrap(), "3");
    assert_eq!(str_from_decimal_octet(b"21").unwrap(), "12");
}

#[test]
fn decimal_length_rounds_up() {
    assert_eq!(get_decimal_length(4), Ok(2));
    assert_eq!(get_decimal_length(11), Ok(6));
}

#[test]
fn gsm_alphabet_decodes_packed_run() {
    let data = wire("E8329BFD46A743");
    let (text, end) = parse_gsm_alphabet(&data, 0, 8).unwrap();
    assert_eq!(text, "hellohi!");
    assert_eq!(end, 14);
}

#[test]
fn gsm_alphabet_table_entries() {
    assert_eq!(gsm_char_lookup(0), '@');
    assert_eq!(gsm_char_lookup(0x41), 'A');
    assert_eq!(gsm_char_lookup(0x7A), 'z');
    assert_eq!(gsm_char_lookup(2), '$');
}

#[test]
fn gsm_alphabet_reports_missing_octets() {
    let data = wire("E832");
    assert_eq!(parse_gsm_alphabet(&data, 0, 8).unwrap_err(), Error::Incomplete);
}

#[test]
fn utf16_round_trip_single_unit_text() {
    let units = utf16_encode_units("Hi!");
    assert_eq!(units, vec![0x48, 0x69, 0x21]);
    let data = wire("004800690021");
    let (text, end) = parse_utf16(&data, 0, 6).unwrap();
    assert_eq!(text, "Hi!");
    assert_eq!(end, 12);
}

#[test]
fn utf16_decodes_surrogate_pairs() {
    let data = wire("D83DDE00");
    let (text, _) = parse_utf16(&data, 0, 4).unwrap();
    assert_eq!(text, "\u{1F600}");
    assert_eq!(utf16_encode_units("\u{1F600}"), vec![0xD83D, 0xDE00]);
}

#[test]
fn utf16_rejects_lone_surrogate() {
    let data = wire("D8000069");
    assert_eq!(parse_utf16(&data, 0, 4).unwrap_err(), Error::InvalidText);
}

#[test]
fn time_zone_sign_bit() {
    assert_eq!(parse_time_zone(0, 10), -20);
    assert_eq!(parse_time_zone(0, 2), 20);
    assert_eq!(parse_time_zone(5, 12), -45);
}

#[test]
fn timestamp_decodes_fields_and_instant() {
    let data = wire("71409231547080");
    let ts = parse_timestamp(&data, 0).unwrap();
    assert_eq!((ts.year, ts.month, ts.day), (2017, 4, 29));
    assert_eq!((ts.hour, ts.minute, ts.second), (13, 45, 7));
    assert_eq!(ts.offset_quarter_hours, 8);
    assert_eq!(ts.utc_seconds, 1493466307);
}

#[test]
fn timestamp_negative_offset() {
    let data = wire("7140923154700A");
    let ts = parse_timestamp(&data, 0).unwrap();
    assert_eq!(ts.offset_quarter_hours, -20);
    assert_eq!(ts.utc_seconds, 1493491507);
}

#[test]
fn timestamp_rejects_invalid_calendar_date() {
    let data = wire("71319231547080");
    assert_eq!(parse_timestamp(&data, 0).unwrap_err(), Error::MalformedTimestamp);
}

#[test]
fn string_utilities() {
    assert_eq!(str_to_ascii("a"), 97);
    assert_eq!(to_vec(b"xyz").unwrap(), b"xyz".to_vec());
    let parts = vec!["ab".to_string(), "".to_string(), "cd".to_string()];
    assert_eq!(concat_strings(parts).unwrap(), "abcd");
}

#[test]
fn error_descriptions_are_distinct() {
    let all = [
        Error::MalformedHex,
        Error::InvalidAddressType,
        Error::UnsupportedMessageType,
        Error::UnsupportedEncoding,
        Error::MalformedTimestamp,
        Error::InvalidText,
        Error::MalformedHeader,
        Error::UnsupportedFeature,
        Error::Incomplete,
    ];
    for (i, a) in all.iter().enumerate() {
        for (j, b) in all.iter().enumerate() {
            assert_eq!(i == j, a.describe() == b.describe());
        }
    }
    assert_eq!(Error::Incomplete.describe(), "incomplete input");
}
