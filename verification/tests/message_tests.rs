use sms_pdu::address::{AddressType, Number};
use sms_pdu::errors::Error;
use sms_pdu::message::{
    Encoding, Message, MessageSubmit, MessageType, UserData, ValidityPeriod, to_command_information,
    to_encoding_scheme,
};

const PDU_UTF16: &str = "0791947101000000040B915155214365F70008714092315470800400480069";
const PDU_GSM7: &str = "0791947101000000040B915155214365F700007140923154708008E8329BFD46A743";
const PDU_UDH: &str =
    "0791947101000000440B915155214365F70008714092315470800E0900030703020502ABCD00480069";

#[test]
fn command_information_bits() {
    let c = to_command_information(0x04).unwrap();
    assert_eq!(c.message_type, MessageType::SmsDeliver);
    assert!(!c.more_messages_to_send);
    assert!(!c.has_udh);
    let c = to_command_information(0x40).unwrap();
    assert!(c.more_messages_to_send);
    assert!(c.has_udh);
    assert_eq!(to_command_information(0x02).unwrap().message_type, MessageType::SmsSubmit);
    assert_eq!(to_command_information(0x03).unwrap().message_type, MessageType::SmsCommand);
}

#[test]
fn encoding_scheme_octets() {
    assert_eq!(to_encoding_scheme(0), Ok(Encoding::Gsm7Bit));
    assert_eq!(to_encoding_scheme(8), Ok(Encoding::Utf16));
    assert_eq!(to_encoding_scheme(1), Err(Error::UnsupportedEncoding));
}

#[test]
fn deliver_decode_utf16_body() {
    let m = Message::from_string(PDU_UTF16.to_string()).unwrap();
    assert_eq!(m.service_center.number, "491710000000");
    assert_eq!(m.service_center.format, AddressType::International);
    assert_eq!(m.sender.number, "15551234567");
    assert_eq!(m.sender.format, AddressType::International);
    assert_eq!(m.protocol_id, 0);
    assert_eq!(m.command_type.message_type, MessageType::SmsDeliver);
    assert!(!m.command_type.has_udh);
    assert_eq!((m.time_stamp.year, m.time_stamp.month, m.time_stamp.day), (2017, 4, 29));
    assert_eq!(m.time_stamp.utc_seconds, 1493466307);
    assert_eq!(m.user_data.encoding, Encoding::Utf16);
    assert_eq!(m.user_data.data, "Hi");
    assert!(m.user_data.header.is_none());
}

#[test]
fn deliver_decode_gsm7_body() {
    let m = Message::from_string(PDU_GSM7.to_string()).unwrap();
    assert_eq!(m.user_data.encoding, Encoding::Gsm7Bit);
    assert_eq!(m.user_data.data, "hellohi!");
}

#[test]
fn deliver_decode_with_header() {
    let m = Message::from_string(PDU_UDH.to_string()).unwrap();
    assert!(m.command_type.has_udh);
    let header = m.user_data.header.as_ref().unwrap();
    let concat = header.concatenated_message.as_ref().unwrap();
    assert_eq!(concat.reference_number, 7);
    assert_eq!(concat.number_of_messages, 3);
    assert_eq!(concat.sequence_number, 2);
    assert_eq!(header.entries.len(), 2);
    assert_eq!(header.entries[0].tag, 0);
    assert_eq!(header.entries[0].data, vec![7, 3, 2]);
    assert_eq!(header.entries[1].tag, 5);
    assert_eq!(header.entries[1].data, vec![0xAB, 0xCD]);
    assert_eq!(m.user_data.data, "Hi");
}

#[test]
fn header_reserializes_to_original_bytes() {
    let m = Message::from_string(PDU_UDH.to_string()).unwrap();
    let header = m.user_data.header.unwrap();
    let mut out: Vec<u8> = Vec::new();
    header.serialize_to_pdu(&mut out);
    assert_eq!(String::from_utf8(out).unwrap(), "090003070302".to_owned() + "0502ABCD");
}

#[test]
fn deliver_decode_rejects_bad_address_type() {
    let pdu = PDU_UTF16.replacen("0791", "0793", 1);
    assert_eq!(Message::from_string(pdu).unwrap_err(), Error::InvalidAddressType);
}

#[test]
fn deliver_decode_rejects_unknown_scheme() {
    let pdu = PDU_UTF16.replacen("F70008", "F70001", 1);
    assert_eq!(Message::from_string(pdu).unwrap_err(), Error::UnsupportedEncoding);
}

#[test]
fn deliver_decode_rejects_bad_month() {
    let pdu = PDU_UTF16.replacen("714092", "713192", 1);
    assert_eq!(Message::from_string(pdu).unwrap_err(), Error::MalformedTimestamp);
}

#[test]
fn deliver_decode_rejects_lone_surrogate() {
    let pdu = PDU_UTF16.replacen("0400480069", "04D8000069", 1);
    assert_eq!(Message::from_string(pdu).unwrap_err(), Error::InvalidText);
}

#[test]
fn deliver_decode_rejects_overrunning_header_element() {
    let m = Message::from_string(
        "0791947101000000440B915155214365F7000871409231547080060300FFAB".to_string(),
    );
    assert_eq!(m.unwrap_err(), Error::MalformedHeader);
}

#[test]
fn deliver_decode_reports_truncation_as_incomplete() {
    let mut pdu = PDU_UTF16.to_string();
    pdu.truncate(pdu.len() - 2);
    assert_eq!(Message::from_string(pdu).unwrap_err(), Error::Incomplete);
}

#[test]
fn deliver_decode_rejects_non_hex() {
    assert_eq!(Message::from_string("ZZ".to_string()).unwrap_err(), Error::MalformedHex);
    assert_eq!(Message::from_string("00".to_string()).unwrap_err(), Error::MalformedHex);
}

#[test]
fn deliver_decode_rejects_non_digit_address() {
    let pdu = PDU_UTF16.replacen("079194", "07919A", 1);
    assert_eq!(Message::from_string(pdu).unwrap_err(), Error::MalformedHex);
}

fn plain_submit(reject_duplicates: bool) -> MessageSubmit {
    MessageSubmit::new_default(
        reject_duplicates,
        false,
        Number::new_international("15551234567".to_string()),
        UserData::new_utf16("Hi".to_string()),
    )
    .unwrap()
}

#[test]
fn submit_serializes_full_wire() {
    let wire = plain_submit(false).serialize_to_pdu();
    assert_eq!(String::from_utf8(wire).unwrap(), "11000C915155214365F70008FF0400480069");
}

#[test]
fn submit_sets_reject_duplicates_bit() {
    let wire = plain_submit(true).serialize_to_pdu();
    assert_eq!(String::from_utf8(wire).unwrap(), "15000C915155214365F70008FF0400480069");
}

#[test]
fn submit_rejects_short_validity_period() {
    let r = MessageSubmit::new(
        false,
        ValidityPeriod::Relative(10),
        false,
        false,
        Number::new_international("123".to_string()),
        0,
        UserData::new_utf16("Hi".to_string()),
    );
    assert_eq!(r.unwrap_err(), Error::UnsupportedFeature);
}

#[test]
fn submit_rejects_status_report_request() {
    let r = MessageSubmit::new_default(
        false,
        true,
        Number::new_international("123".to_string()),
        UserData::new_utf16("Hi".to_string()),
    );
    assert_eq!(r.unwrap_err(), Error::UnsupportedFeature);
}

#[test]
fn submit_rejects_reply_path() {
    let r = MessageSubmit::new(
        false,
        ValidityPeriod::Relative(255),
        false,
        true,
        Number::new_international("123".to_string()),
        0,
        UserData::new_utf16("Hi".to_string()),
    );
    assert_eq!(r.unwrap_err(), Error::UnsupportedFeature);
}

#[test]
fn submit_rejects_non_utf16_body() {
    let body = UserData { encoding: Encoding::Gsm7Bit, data: "hi".to_string(), header: None };
    let r = MessageSubmit::new_default(
        false,
        false,
        Number::new_international("123".to_string()),
        body,
    );
    assert_eq!(r.unwrap_err(), Error::UnsupportedFeature);
}

#[test]
fn submit_round_trip_body_text() {
    let wire = plain_submit(false).serialize_to_pdu();
    let text = String::from_utf8(wire).unwrap();
    let body = &text[text.len() - 8..];
    assert_eq!(body, "00480069");
}

#[test]
fn deliver_decode_rejects_odd_utf16_length() {
    let pdu = PDU_UTF16.replacen("0400480069", "0300480069", 1);
    assert_eq!(Message::from_string(pdu).unwrap_err(), Error::InvalidText);
}

#[test]
fn deliver_decode_rejects_non_ascii_input() {
    assert_eq!(
        Message::from_string("\u{e9}791".to_string()).unwrap_err(),
        Error::MalformedHex,
    );
}

#[test]
fn deliver_decode_rejects_empty_service_center_length() {
    let pdu = PDU_UTF16.replacen("0791", "0091", 1);
    assert_eq!(Message::from_string(pdu).unwrap_err(), Error::MalformedHex);
}

#[test]
fn deliver_decode_rejects_header_longer_than_user_data() {
    // The header spans 10 octets but the user-data length claims only 4.
    let pdu = PDU_UDH.replacen("800E09", "800409", 1);
    assert_eq!(Message::from_string(pdu).unwrap_err(), Error::MalformedHeader);
}

#[test]
fn deliver_decode_ignores_trailing_characters() {
    let pdu = PDU_UTF16.to_string() + "AB";
    let m = Message::from_string(pdu).unwrap();
    assert_eq!(m.user_data.data, "Hi");
}
