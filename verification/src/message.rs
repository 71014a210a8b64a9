//! Top-level orchestration: decoding a full SMS-DELIVER PDU left to right
//! over one buffer, and encoding an SMS-SUBMIT.

use vstd::prelude::*;
use crate::errors::Error;
use crate::hex::{spec_encode_octet, spec_read_octet, read_octet, u8_to_hex};
use crate::address::{AddressType, Number, spec_parse_address, spec_address_wire, parse_address};
use crate::alphabet::{
    spec_gsm_decode, spec_parse_utf16, utf16_units, utf16_wire, parse_gsm_alphabet, parse_utf16,
    utf16_encode_units,
};
use crate::header::{Header, HeaderModel, spec_parse_header, spec_find_concat, parse_header};
use crate::timestamp::{Timestamp, spec_parse_timestamp, parse_timestamp};

verus! {

/// The message type carried in the low two bits of the command octet.
#[derive(Debug, Clone, Copy, PartialEq, Eq, Structural)]
pub enum MessageType {
    SmsDeliverReport,
    SmsDeliver,
    SmsSubmit,
    SmsSubmitReport,
    SmsCommand,
    SmsStatusReport,
}

/// What the first PDU octet says: the message type, whether more messages
/// wait at the service center, and whether a user data header follows.
#[derive(Debug, Clone, Copy, PartialEq, Eq, Structural)]
pub struct CommandInformation {
    pub message_type: MessageType,
    pub more_messages_to_send: bool,
    pub has_udh: bool,
}

/// The body's character encoding, from the data-coding-scheme octet.
#[derive(Debug, Clone, Copy, PartialEq, Eq, Structural)]
pub enum Encoding {
    Gsm7Bit,
    Utf16,
    Unknown,
}

/// The message body: its encoding, the decoded text, and the optional
/// user data header.
#[derive(Debug, Clone)]
pub struct UserData {
    pub encoding: Encoding,
    pub data: String,
    pub header: Option<Header>,
}

/// The lifetime policy of a submitted message. Only relative validity
/// periods are supported.
#[derive(Debug, Clone, Copy, PartialEq, Eq, Structural)]
pub enum ValidityPeriod {
    /// A quarter-hour count; only the maximum, 255, is accepted for encoding.
    Relative(u8),
}

/// The command information decoded from one octet: bits 0 and 1 select the
/// message type, bit 2 clear means more messages wait, bit 6 announces a
/// user data header.
pub open spec fn spec_command_info(data: u8) -> CommandInformation {
    CommandInformation {
        message_type: if data % 4 == 2 {
            MessageType::SmsSubmit
        } else if data % 4 == 3 {
            MessageType::SmsCommand
        } else {
            MessageType::SmsDeliver
        },
        more_messages_to_send: (data / 4) % 2 == 0,
        has_udh: (data / 64) % 2 == 1,
    }
}

/// Decode the command octet.
pub fn to_command_information(data: u8) -> (r: Result<CommandInformation, Error>)
    ensures
        r == Ok::<CommandInformation, Error>(spec_command_info(data)),
{
    let message_type = match data % 4 {
        2u8 => MessageType::SmsSubmit,
        3u8 => MessageType::SmsCommand,
        _ => MessageType::SmsDeliver,
    };
    Ok(
        CommandInformation {
            message_type,
            more_messages_to_send: (data / 4) % 2 == 0,
            has_udh: (data / 64) % 2 == 1,
        },
    )
}

/// The encoding selected by a data-coding-scheme octet: 0 is the packed
/// 7-bit alphabet, 8 the 16-bit encoding, anything else is unsupported.
pub open spec fn spec_encoding_scheme(data: u8) -> Result<Encoding, Error> {
    if data == 0 {
        Ok(Encoding::Gsm7Bit)
    } else if data == 8 {
        Ok(Encoding::Utf16)
    } else {
        Err(Error::UnsupportedEncoding)
    }
}

/// Decode the data-coding-scheme octet.
pub fn to_encoding_scheme(data: u8) -> (r: Result<Encoding, Error>)
    ensures
        r == spec_encoding_scheme(data),
{
    match data {
        0u8 => Ok(Encoding::Gsm7Bit),
        8u8 => Ok(Encoding::Utf16),
        _ => Err(Error::UnsupportedEncoding),
    }
}

/// The model of a message body.
pub ghost struct UserDataModel {
    pub encoding: Encoding,
    pub data: Seq<char>,
    pub header: Option<HeaderModel>,
}

impl View for UserData {
    type V = UserDataModel;

    open spec fn view(&self) -> UserDataModel {
        UserDataModel {
            encoding: self.encoding,
            data: self.data@,
            header: match self.header {
                Some(h) => Some(h@),
                None => None,
            },
        }
    }
}

/// The wire form of a 16-bit-encoded body: one length octet holding the
/// byte count of the encoded text, then each code unit as two hex octets,
/// high byte first.
pub open spec fn spec_user_data_wire(text: Seq<char>) -> Seq<u8>
    recommends
        utf16_units(text).len() <= 127,
{
    spec_encode_octet((2 * utf16_units(text).len()) as u8) + utf16_wire(utf16_units(text))
}

impl UserData {
    /// A 16-bit-encoded body with no header.
    pub fn new_utf16(data: String) -> (r: UserData)
        ensures
            r.encoding == Encoding::Utf16,
            r.data == data,
            r.header is None,
    {
        UserData { encoding: Encoding::Utf16, data, header: None }
    }

    /// Append the wire form of this body: the length octet carries the byte
    /// count of the encoded text, so the text may hold at most 127 code
    /// units.
    pub fn serialize_to_pdu(&self, output: &mut Vec<u8>)
        requires
            self.encoding == Encoding::Utf16,
            self.header is None,
            utf16_units(self.data@).len() <= 127,
        ensures
            final(output)@ == old(output)@ + spec_user_data_wire(self.data@),
    {
        let units = utf16_encode_units(self.data.as_str());
        let length = 2 * units.len();
        u8_to_hex(length as u8, output);
        let ghost target = old(output)@ + spec_user_data_wire(self.data@);
        let ghost all_units = utf16_units(self.data@);
        proof {
            assert(all_units.skip(0) =~= all_units);
            assert(output@ + utf16_wire(all_units) =~= target);
        }
        let mut k: usize = 0;
        while k < units.len()
            invariant
                units@ == all_units,
                k <= units@.len(),
                output@ + utf16_wire(all_units.skip(k as int)) == target,
            decreases units@.len() - k,
        {
            let ghost rest = all_units.skip(k as int);
            let ghost prev = output@;
            let u = units[k];
            let hi = (u >> 8) as u8;
            let lo = (u & 0xff) as u8;
            proof {
                assert(u >> 8 == u / 256 && (u & 0xff) == u % 256 && u / 256 < 256) by (bit_vector);
                assert(rest[0] == all_units[k as int]);
                assert(rest.skip(1) =~= all_units.skip(k as int + 1));
            }
            u8_to_hex(hi, output);
            u8_to_hex(lo, output);
            proof {
                assert(output@ =~= (prev + spec_encode_octet((rest[0] / 256) as u8))
                    + spec_encode_octet((rest[0] % 256) as u8));
                assert(output@ + utf16_wire(all_units.skip(k as int + 1)) =~= prev + utf16_wire(
                    rest,
                ));
            }
            k = k + 1;
        }
        proof {
            assert(all_units.skip(units@.len() as int) =~= Seq::<u16>::empty());
            assert(utf16_wire(Seq::<u16>::empty()) == Seq::<u8>::empty());
            assert(output@ =~= output@ + Seq::<u8>::empty());
        }
    }
}

/// Decoding a text body of the given encoding at `pos`: `count` is the
/// character count for the packed 7-bit alphabet and the octet count for
/// the 16-bit encoding.
pub open spec fn spec_parse_body(d: Seq<u8>, pos: int, encoding: Encoding, count: int) -> Result<
    (Seq<char>, int),
    Error,
> {
    match encoding {
        Encoding::Gsm7Bit => spec_gsm_decode(d, pos, count as nat, 0, 0),
        Encoding::Utf16 => spec_parse_utf16(d, pos, count as nat),
        Encoding::Unknown => Err(Error::UnsupportedEncoding),
    }
}

/// Decoding the user data block at `pos`: the header first when announced,
/// then the text over the length that remains after it. A header that
/// claims more octets than the user data length is malformed.
pub open spec fn spec_parse_user_data(
    d: Seq<u8>,
    pos: int,
    encoding: Encoding,
    length: u8,
    has_udh: bool,
) -> Result<(UserDataModel, int), Error> {
    if has_udh {
        match spec_parse_header(d, pos) {
            Err(e) => Err(e),
            Ok((es, after)) => {
                let consumed = (after - pos) / 2;
                if length < consumed {
                    Err(Error::MalformedHeader)
                } else {
                    match spec_parse_body(d, after, encoding, length - consumed) {
                        Err(e) => Err(e),
                        Ok((text, end)) => Ok(
                            (
                                UserDataModel {
                                    encoding,
                                    data: text,
                                    header: Some(
                                        HeaderModel {
                                            concatenated_message: spec_find_concat(es),
                                            entries: es,
                                        },
                                    ),
                                },
                                end,
                            ),
                        ),
                    }
                }
            },
        }
    } else {
        match spec_parse_body(d, pos, encoding, length as int) {
            Err(e) => Err(e),
            Ok((text, end)) => Ok((UserDataModel { encoding, data: text, header: None }, end)),
        }
    }
}

/// Decode the user data block at `pos`.
pub fn parse_user_data(
    data: &Vec<u8>,
    pos: usize,
    encoding: Encoding,
    length: u8,
    has_udh: bool,
) -> (r: Result<(UserData, usize), Error>)
    ensures
        r is Ok <==> spec_parse_user_data(data@, pos as int, encoding, length, has_udh) is Ok,
        r is Ok ==> r->Ok_0.0@ == spec_parse_user_data(
            data@,
            pos as int,
            encoding,
            length,
            has_udh,
        )->Ok_0.0 && r->Ok_0.1 == spec_parse_user_data(
            data@,
            pos as int,
            encoding,
            length,
            has_udh,
        )->Ok_0.1,
        r is Err ==> r->Err_0 == spec_parse_user_data(
            data@,
            pos as int,
            encoding,
            length,
            has_udh,
        )->Err_0,
{
    let (header, body_pos, remaining) = if has_udh {
        let (h, after) = match parse_header(data, pos) {
            Ok(p) => p,
            Err(e) => {
                return Err(e);
            },
        };
        let consumed = (after - pos) / 2;
        if (length as usize) < consumed {
            return Err(Error::MalformedHeader);
        }
        (Some(h), after, (length as usize) - consumed)
    } else {
        (None, pos, length as usize)
    };
    let (text, end) = match parse_body(data, body_pos, encoding, remaining) {
        Ok(p) => p,
        Err(e) => {
            return Err(e);
        },
    };
    Ok((UserData { encoding, data: text, header }, end))
}

/// Decode a text body of the given encoding at `pos`.
fn parse_body(data: &Vec<u8>, pos: usize, encoding: Encoding, count: usize) -> (r: Result<
    (String, usize),
    Error,
>)
    requires
        count <= 255,
    ensures
        r is Ok <==> spec_parse_body(data@, pos as int, encoding, count as int) is Ok,
        r is Ok ==> r->Ok_0.0@ == spec_parse_body(data@, pos as int, encoding, count as int)->Ok_0.0
            && r->Ok_0.1 == spec_parse_body(data@, pos as int, encoding, count as int)->Ok_0.1,
        r is Err ==> r->Err_0 == spec_parse_body(data@, pos as int, encoding, count as int)->Err_0,
{
    match encoding {
        Encoding::Gsm7Bit => parse_gsm_alphabet(data, pos, count),
        Encoding::Utf16 => parse_utf16(data, pos, count),
        Encoding::Unknown => Err(Error::UnsupportedEncoding),
    }
}

/// The model of a delivered message.
pub ghost struct MessageModel {
    pub service_center: (AddressType, Seq<char>),
    pub command_type: CommandInformation,
    pub sender: (AddressType, Seq<char>),
    pub protocol_id: u8,
    pub time_stamp: Timestamp,
    pub user_data: UserDataModel,
}

/// A delivered message: who sent it, through which service center, when,
/// and what it says.
#[derive(Debug)]
pub struct Message {
    pub service_center: Number,
    pub command_type: CommandInformation,
    pub sender: Number,
    pub time_stamp: Timestamp,
    pub protocol_id: u8,
    pub user_data: UserData,
}

impl View for Message {
    type V = MessageModel;

    open spec fn view(&self) -> MessageModel {
        MessageModel {
            service_center: (self.service_center.format, self.service_center.number@),
            command_type: self.command_type,
            sender: (self.sender.format, self.sender.number@),
            protocol_id: self.protocol_id,
            time_stamp: self.time_stamp,
            user_data: self.user_data@,
        }
    }
}

/// Decoding one complete SMS-DELIVER PDU, strict left to right: the
/// service-center length octet (an octet count covering the type octet,
/// which it must at least cover), the service-center address, the command
/// octet, the sender length octet (a digit count), the sender address, the
/// protocol identifier, the data coding scheme, the timestamp, the
/// user-data length octet, and the user data.
pub open spec fn spec_parse_pdu(d: Seq<u8>) -> Result<MessageModel, Error> {
    match spec_read_octet(d, 0) {
        Err(e) => Err(e),
        Ok(sc_len) => {
            if sc_len == 0 {
                Err(Error::MalformedHex)
            } else {
                match spec_parse_address(d, 2, sc_len - 1) {
                    Err(e) => Err(e),
                    Ok(sc) => spec_parse_pdu_command(d, 4 + 2 * (sc_len - 1), sc),
                }
            }
        },
    }
}

/// The PDU from its command octet on: the command octet, the sender length
/// (a digit count) and the sender address.
pub open spec fn spec_parse_pdu_command(
    d: Seq<u8>,
    p1: int,
    sc: (AddressType, Seq<char>),
) -> Result<MessageModel, Error> {
    match spec_read_octet(d, p1) {
        Err(e) => Err(e),
        Ok(cmd_octet) => {
            let cmd = spec_command_info(cmd_octet);
            match spec_read_octet(d, p1 + 2) {
                Err(e) => Err(e),
                Ok(sender_len) => {
                    let sn = (sender_len + 1) / 2;
                    match spec_parse_address(d, p1 + 4, sn as int) {
                        Err(e) => Err(e),
                        Ok(sender) => spec_parse_pdu_tail(d, p1 + 6 + 2 * sn, sc, cmd, sender),
                    }
                },
            }
        },
    }
}

/// The PDU from its protocol identifier on: the protocol identifier, the
/// data coding scheme, the timestamp, the user-data length and the user
/// data.
pub open spec fn spec_parse_pdu_tail(
    d: Seq<u8>,
    p2: int,
    sc: (AddressType, Seq<char>),
    cmd: CommandInformation,
    sender: (AddressType, Seq<char>),
) -> Result<MessageModel, Error> {
    match spec_read_octet(d, p2) {
        Err(e) => Err(e),
        Ok(protocol_id) => match spec_read_octet(d, p2 + 2) {
            Err(e) => Err(e),
            Ok(dcs) => match spec_encoding_scheme(dcs) {
                Err(e) => Err(e),
                Ok(encoding) => match spec_parse_timestamp(d, p2 + 4) {
                    Err(e) => Err(e),
                    Ok(ts) => match spec_read_octet(d, p2 + 18) {
                        Err(e) => Err(e),
                        Ok(ud_len) => match spec_parse_user_data(
                            d,
                            p2 + 20,
                            encoding,
                            ud_len,
                            cmd.has_udh,
                        ) {
                            Err(e) => Err(e),
                            Ok(ud) => Ok(
                                MessageModel {
                                    service_center: sc,
                                    command_type: cmd,
                                    sender: sender,
                                    protocol_id: protocol_id,
                                    time_stamp: ts,
                                    user_data: ud.0,
                                },
                            ),
                        },
                    },
                },
            },
        },
    }
}

/// Decode one complete SMS-DELIVER PDU from its hex characters.
pub fn parse_pdu(data: &Vec<u8>) -> (r: Result<Message, Error>)
    ensures
        r is Ok <==> spec_parse_pdu(data@) is Ok,
        r is Ok ==> r->Ok_0@ == spec_parse_pdu(data@)->Ok_0,
        r is Err ==> r->Err_0 == spec_parse_pdu(data@)->Err_0,
{
    let _buffer_len = data.len();
    let sc_len = match read_octet(data, 0) {
        Ok(b) => b,
        Err(e) => {
            return Err(e);
        },
    };
    if sc_len == 0 {
        return Err(Error::MalformedHex);
    }
    let sc_octets = (sc_len - 1) as usize;
    let service_center = match parse_address(data, 2, sc_octets) {
        Ok(a) => a,
        Err(e) => {
            return Err(e);
        },
    };
    let p1 = 4 + 2 * sc_octets;
    let cmd_octet = match read_octet(data, p1) {
        Ok(b) => b,
        Err(e) => {
            return Err(e);
        },
    };
    let command_type = match to_command_information(cmd_octet) {
        Ok(c) => c,
        Err(e) => {
            return Err(e);
        },
    };
    let sender_len = match read_octet(data, p1 + 2) {
        Ok(b) => b,
        Err(e) => {
            return Err(e);
        },
    };
    let sn = ((sender_len as usize) + 1) / 2;
    let sender = match parse_address(data, p1 + 4, sn) {
        Ok(a) => a,
        Err(e) => {
            return Err(e);
        },
    };
    let p2 = p1 + 6 + 2 * sn;
    let protocol_id = match read_octet(data, p2) {
        Ok(b) => b,
        Err(e) => {
            return Err(e);
        },
    };
    let dcs = match read_octet(data, p2 + 2) {
        Ok(b) => b,
        Err(e) => {
            return Err(e);
        },
    };
    let encoding = match to_encoding_scheme(dcs) {
        Ok(s) => s,
        Err(e) => {
            return Err(e);
        },
    };
    let time_stamp = match parse_timestamp(data, p2 + 4) {
        Ok(t) => t,
        Err(e) => {
            return Err(e);
        },
    };
    let ud_len = match read_octet(data, p2 + 18) {
        Ok(b) => b,
        Err(e) => {
            return Err(e);
        },
    };
    let (user_data, _end) = match parse_user_data(
        data,
        p2 + 20,
        encoding,
        ud_len,
        command_type.has_udh,
    ) {
        Ok(u) => u,
        Err(e) => {
            return Err(e);
        },
    };
    Ok(Message { service_center, command_type, sender, time_stamp, protocol_id, user_data })
}

/// An outgoing message, validated at construction: only the supported
/// option set (relative validity of 255, no status report, no reply path,
/// 16-bit body) can be submitted.
#[derive(Debug)]
pub struct MessageSubmit {
    pub command_type: CommandInformation,
    pub reject_duplicates: bool,
    pub message_reference: u8,
    pub destination_address: Number,
    pub protocol_id: u8,
    pub user_data: UserData,
}

/// The full wire form of a submission: the command octet (submit type,
/// relative validity format, the reject-duplicates bit), the message
/// reference 0, the destination address, the protocol identifier, the
/// 16-bit data coding scheme, the maximum relative validity period, and
/// the body.
pub open spec fn spec_submit_wire(m: MessageSubmit) -> Seq<u8> {
    spec_encode_octet(
        if m.reject_duplicates {
            0x15
        } else {
            0x11
        },
    ) + spec_encode_octet(0) + spec_address_wire(m.destination_address.number@) + spec_encode_octet(
        m.protocol_id,
    ) + spec_encode_octet(8) + spec_encode_octet(255) + spec_user_data_wire(m.user_data.data@)
}

impl MessageSubmit {
    /// A submission that can be serialized: an encodable destination and a
    /// 16-bit body, without header, short enough for the length octet.
    pub open spec fn wf(&self) -> bool {
        &&& self.destination_address.wf()
        &&& self.destination_address.format == AddressType::International
        &&& self.user_data.encoding == Encoding::Utf16
        &&& self.user_data.header is None
        &&& utf16_units(self.user_data.data@).len() <= 127
    }

    /// A plain submission: maximum relative validity, no reply path,
    /// protocol identifier 0. Fails with `UnsupportedFeature` when a status
    /// report is requested or the body is not 16-bit encoded.
    pub fn new_default(
        reject_duplicates: bool,
        status_report_request: bool,
        destination_address: Number,
        user_data: UserData,
    ) -> (r: Result<MessageSubmit, Error>)
        ensures
            r is Ok <==> !status_report_request && user_data.encoding == Encoding::Utf16,
            r is Err ==> r->Err_0 == Error::UnsupportedFeature,
            r is Ok ==> r->Ok_0 == (MessageSubmit {
                command_type: CommandInformation {
                    message_type: MessageType::SmsSubmit,
                    more_messages_to_send: false,
                    has_udh: false,
                },
                reject_duplicates,
                message_reference: 0,
                destination_address,
                protocol_id: 0,
                user_data,
            }),
    {
        Self::new(
            reject_duplicates,
            ValidityPeriod::Relative(255),
            status_report_request,
            false,
            destination_address,
            0,
            user_data,
        )
    }

    /// Validate the requested options and build the submission. Fails with
    /// `UnsupportedFeature`, producing nothing, when the validity period is
    /// not exactly Relative(255), a status report or reply path is
    /// requested, or the body is not 16-bit encoded.
    pub fn new(
        reject_duplicates: bool,
        validity_period: ValidityPeriod,
        status_report_request: bool,
        reply_path: bool,
        destination_address: Number,
        protocol_id: u8,
        user_data: UserData,
    ) -> (r: Result<MessageSubmit, Error>)
        ensures
            r is Ok <==> validity_period == ValidityPeriod::Relative(255u8)
                && !status_report_request && !reply_path && user_data.encoding == Encoding::Utf16,
            r is Err ==> r->Err_0 == Error::UnsupportedFeature,
            r is Ok ==> r->Ok_0 == (MessageSubmit {
                command_type: CommandInformation {
                    message_type: MessageType::SmsSubmit,
                    more_messages_to_send: false,
                    has_udh: false,
                },
                reject_duplicates,
                message_reference: 0,
                destination_address,
                protocol_id,
                user_data,
            }),
    {
        let ValidityPeriod::Relative(quarter_hours) = validity_period;
        if quarter_hours != 255 {
            return Err(Error::UnsupportedFeature);
        }
        if status_report_request {
            return Err(Error::UnsupportedFeature);
        }
        if reply_path {
            return Err(Error::UnsupportedFeature);
        }
        match user_data.encoding {
            Encoding::Utf16 => {},
            _ => {
                return Err(Error::UnsupportedFeature);
            },
        }
        Ok(
            MessageSubmit {
                command_type: CommandInformation {
                    message_type: MessageType::SmsSubmit,
                    more_messages_to_send: false,
                    has_udh: false,
                },
                reject_duplicates,
                message_reference: 0,
                destination_address,
                protocol_id,
                user_data,
            },
        )
    }

    /// The complete wire form of this submission.
    pub fn serialize_to_pdu(&self) -> (r: Vec<u8>)
        requires
            self.wf(),
        ensures
            r@ == spec_submit_wire(*self),
    {
        let first_octet: u8 = if self.reject_duplicates {
            0x15
        } else {
            0x11
        };
        let mut output: Vec<u8> = Vec::new();
        u8_to_hex(first_octet, &mut output);
        u8_to_hex(0, &mut output);
        self.destination_address.serialize_to_pdu(&mut output);
        u8_to_hex(self.protocol_id, &mut output);
        u8_to_hex(8, &mut output);
        u8_to_hex(255, &mut output);
        self.user_data.serialize_to_pdu(&mut output);
        proof {
            assert(output@ =~= spec_submit_wire(*self));
        }
        output
    }
}

impl Message {
    /// Decode one complete PDU string. A string with any character outside
    /// ASCII cannot hold hex digits and is malformed.
    #[verifier::rlimit(100)]
    pub fn from_string(pdu_string: String) -> (r: Result<Message, Error>)
        ensures
            vstd::utf8::is_ascii_chars(pdu_string@) ==> ({
                let parsed = spec_parse_pdu(Seq::new(pdu_string@.len(), |i: int| pdu_string@[i] as u8));
                &&& (r is Ok <==> parsed is Ok)
                &&& (r is Ok ==> r->Ok_0@ == parsed->Ok_0)
                &&& (r is Err ==> r->Err_0 == parsed->Err_0)
            }),
            !vstd::utf8::is_ascii_chars(pdu_string@) ==> r == Err::<Message, Error>(Error::MalformedHex),
    {
        broadcast use vstd::string::is_ascii_spec_bytes;

        let s = pdu_string.as_str();
        if !s.is_ascii() {
            return Err(Error::MalformedHex);
        }
        let bytes = s.as_bytes_vec();
        proof {
            assert(bytes@ =~= Seq::new(pdu_string@.len(), |i: int| pdu_string@[i] as u8));
        }
        parse_pdu(&bytes)
    }
}

} // verus!
