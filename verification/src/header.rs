//! The optional User Data Header (UDH): a length octet, then a sequence of
//! information elements, each a tag octet, a payload-length octet and that
//! many payload octets. Unknown tags are retained verbatim; tag 0 is the
//! concatenated-message element and is additionally decoded when well-formed.

use vstd::prelude::*;
use crate::errors::Error;
use crate::hex::{
    spec_encode_octet, spec_read_octet, spec_read_hex_bytes, hex_bytes_wire, read_octet,
    read_hex_bytes, u8_to_hex, lemma_hex_octet_round_trip, lemma_hex_bytes_round_trip,
    is_hex_digit, hex_val,
};

verus! {

/// One information element, kept verbatim: its tag and its payload octets.
#[derive(Debug, Clone)]
pub struct HeaderEntry {
    pub tag: u8,
    pub data: Vec<u8>,
}

impl View for HeaderEntry {
    type V = (u8, Seq<u8>);

    open spec fn view(&self) -> (u8, Seq<u8>) {
        (self.tag, self.data@)
    }
}

/// The decoded concatenated-message element: which long message this part
/// belongs to, how many parts there are, and which part this is.
#[derive(Debug, Clone, Copy, PartialEq, Eq, Structural)]
pub struct ConcatenatedMessage {
    pub reference_number: u8,
    pub number_of_messages: u8,
    pub sequence_number: u8,
}

/// The user data header: every element retained in order, plus the typed
/// concatenated-message element when one was well-formed.
#[derive(Debug, Clone)]
pub struct Header {
    pub concatenated_message: Option<ConcatenatedMessage>,
    pub entries: Vec<HeaderEntry>,
}

/// The models of a header's entries, in order.
pub open spec fn entry_models(entries: Seq<HeaderEntry>) -> Seq<(u8, Seq<u8>)> {
    entries.map_values(|e: HeaderEntry| e@)
}

/// The total octet count of the elements: tag and length octets plus the
/// payload of each.
pub open spec fn entries_octet_len(es: Seq<(u8, Seq<u8>)>) -> int
    decreases es.len(),
{
    if es.len() == 0 {
        0
    } else {
        2 + es[0].1.len() + entries_octet_len(es.skip(1))
    }
}

/// The wire form of the elements, without the leading header-length octet.
pub open spec fn spec_entries_wire(es: Seq<(u8, Seq<u8>)>) -> Seq<u8>
    decreases es.len(),
{
    if es.len() == 0 {
        seq![]
    } else {
        spec_encode_octet(es[0].0) + spec_encode_octet(es[0].1.len() as u8) + hex_bytes_wire(
            es[0].1,
        ) + spec_entries_wire(es.skip(1))
    }
}

/// The full wire form of a header: its total element octet count, then the
/// elements.
pub open spec fn spec_header_wire(es: Seq<(u8, Seq<u8>)>) -> Seq<u8> {
    spec_encode_octet(entries_octet_len(es) as u8) + spec_entries_wire(es)
}

/// Parsing information elements from `pos` up to exactly `end` (both
/// positions in hex characters): each element is a tag octet, a length
/// octet, and that many payload octets; an element that overruns `end` is a
/// malformed header.
pub open spec fn spec_parse_entries(d: Seq<u8>, pos: int, end: int) -> Result<
    Seq<(u8, Seq<u8>)>,
    Error,
>
    recommends
        pos <= end <= d.len(),
    decreases end - pos,
{
    if pos >= end {
        Ok(seq![])
    } else if pos + 4 > end {
        Err(Error::MalformedHeader)
    } else {
        match spec_read_octet(d, pos) {
            Err(e) => Err(e),
            Ok(tag) => match spec_read_octet(d, pos + 2) {
                Err(e) => Err(e),
                Ok(len) => {
                    if pos + 4 + 2 * len > end {
                        Err(Error::MalformedHeader)
                    } else {
                        match spec_read_hex_bytes(d, pos + 4, len as int) {
                            Err(e) => Err(e),
                            Ok(payload) => match spec_parse_entries(d, pos + 4 + 2 * len, end) {
                                Err(e) => Err(e),
                                Ok(rest) => Ok(seq![(tag, payload)] + rest),
                            },
                        }
                    }
                },
            },
        }
    }
}

/// Parsing a full header at `pos`: the header-length octet gives the octet
/// count of the elements, which must all lie within the input; yields the
/// elements and the position after them.
pub open spec fn spec_parse_header(d: Seq<u8>, pos: int) -> Result<
    (Seq<(u8, Seq<u8>)>, int),
    Error,
> {
    match spec_read_octet(d, pos) {
        Err(e) => Err(e),
        Ok(l) => {
            let end = pos + 2 + 2 * l;
            if end > d.len() {
                Err(Error::Incomplete)
            } else {
                match spec_parse_entries(d, pos + 2, end) {
                    Err(e) => Err(e),
                    Ok(es) => Ok((es, end)),
                }
            }
        },
    }
}

/// The first well-formed concatenated-message element: tag 0 with a payload
/// of exactly three octets (reference, total count, sequence). A tag-0
/// element with any other payload length carries no typed value.
pub open spec fn spec_find_concat(es: Seq<(u8, Seq<u8>)>) -> Option<ConcatenatedMessage>
    decreases es.len(),
{
    if es.len() == 0 {
        None
    } else if es[0].0 == 0 && es[0].1.len() == 3 {
        Some(
            ConcatenatedMessage {
                reference_number: es[0].1[0],
                number_of_messages: es[0].1[1],
                sequence_number: es[0].1[2],
            },
        )
    } else {
        spec_find_concat(es.skip(1))
    }
}

impl Header {
    /// A header whose elements can be re-serialized: their total octet count
    /// fits the length octet.
    pub open spec fn wf(&self) -> bool {
        entries_octet_len(entry_models(self.entries@)) <= 255
    }

    /// An empty header.
    pub fn new() -> (r: Header)
        ensures
            r.concatenated_message is None,
            r.entries@.len() == 0,
    {
        Header { concatenated_message: None, entries: Vec::new() }
    }

    /// This header with its element list replaced.
    pub fn set_entries(self, entries: Vec<HeaderEntry>) -> (r: Header)
        ensures
            r.entries == entries,
            r.concatenated_message == self.concatenated_message,
    {
        Header { entries, ..self }
    }

    /// Decode the typed elements of the retained list: the first well-formed
    /// concatenated-message element, if any, fills the typed field. Every
    /// element stays in the list, so the header can always be re-serialized.
    pub fn parse_entries(&mut self)
        ensures
            final(self).entries == old(self).entries,
            final(self).concatenated_message == (if old(self).concatenated_message is Some {
                old(self).concatenated_message
            } else {
                spec_find_concat(entry_models(old(self).entries@))
            }),
    {
        if self.concatenated_message.is_some() {
            return ;
        }
        let n = self.entries.len();
        let mut i: usize = 0;
        let ghost models = entry_models(self.entries@);
        proof {
            assert(models.skip(0) =~= models);
        }
        while i < n
            invariant
                n == self.entries@.len(),
                i <= n,
                self == old(self),
                old(self).concatenated_message is None,
                models == entry_models(self.entries@),
                spec_find_concat(models) == spec_find_concat(models.skip(i as int)),
            decreases n - i,
        {
            let e = &self.entries[i];
            proof {
                assert(models.skip(i as int)[0] == models[i as int]);
                assert(models[i as int] == self.entries@[i as int]@);
                assert(models.skip(i as int).skip(1) =~= models.skip(i as int + 1));
            }
            if e.tag == 0 && e.data.len() == 3 {
                self.concatenated_message = Some(
                    ConcatenatedMessage {
                        reference_number: e.data[0],
                        number_of_messages: e.data[1],
                        sequence_number: e.data[2],
                    },
                );
                return ;
            }
            i = i + 1;
        }
        proof {
            assert(models.skip(n as int) =~= Seq::<(u8, Seq<u8>)>::empty());
        }
    }

    /// Append the wire form of this header: the total element octet count,
    /// then each retained element verbatim.
    pub fn serialize_to_pdu(&self, output: &mut Vec<u8>)
        requires
            self.wf(),
        ensures
            final(output)@ == old(output)@ + spec_header_wire(entry_models(self.entries@)),
    {
        let ghost models = entry_models(self.entries@);
        let n = self.entries.len();
        let mut total: usize = 0;
        let mut i: usize = 0;
        proof {
            assert(models.skip(0) =~= models);
            lemma_entries_octet_len_parts(models, 0);
        }
        while i < n
            invariant
                n == self.entries@.len(),
                i <= n,
                models == entry_models(self.entries@),
                entries_octet_len(models) <= 255,
                total == entries_octet_len(models) - entries_octet_len(models.skip(i as int)),
                0 <= entries_octet_len(models.skip(i as int)) <= entries_octet_len(models),
            decreases n - i,
        {
            proof {
                assert(models.skip(i as int)[0] == models[i as int]);
                assert(models[i as int] == self.entries@[i as int]@);
                assert(models.skip(i as int).skip(1) =~= models.skip(i as int + 1));
                lemma_entries_octet_len_parts(models, i as int + 1);
                lemma_entries_octet_len_parts(models, i as int);
            }
            let e = &self.entries[i];
            total = total + 2 + e.data.len();
            i = i + 1;
        }
        proof {
            assert(models.skip(n as int) =~= Seq::<(u8, Seq<u8>)>::empty());
        }
        u8_to_hex(total as u8, output);
        let ghost target = old(output)@ + spec_header_wire(models);
        let mut k: usize = 0;
        proof {
            assert(models.skip(0) =~= models);
            assert(output@ + spec_entries_wire(models) =~= target);
        }
        while k < n
            invariant
                n == self.entries@.len(),
                k <= n,
                models == entry_models(self.entries@),
                entries_octet_len(models) <= 255,
                output@ + spec_entries_wire(models.skip(k as int)) == target,
            decreases n - k,
        {
            let ghost rest = models.skip(k as int);
            let ghost prev = output@;
            proof {
                assert(rest[0] == models[k as int]);
                assert(models[k as int] == self.entries@[k as int]@);
                assert(rest.skip(1) =~= models.skip(k as int + 1));
            }
            let e = &self.entries[k];
            u8_to_hex(e.tag, output);
            u8_to_hex(e.data.len() as u8, output);
            let ghost mid = output@;
            proof {
                lemma_entry_len_bound(models, k as int);
            }
            let m = e.data.len();
            let mut j: usize = 0;
            proof {
                assert(e.data@.skip(0) =~= e.data@);
            }
            while j < m
                invariant
                    m == e.data@.len(),
                    j <= m,
                    output@ + hex_bytes_wire(e.data@.skip(j as int)) == mid + hex_bytes_wire(
                        e.data@,
                    ),
                decreases m - j,
            {
                let ghost inner_prev = output@;
                let ghost brest = e.data@.skip(j as int);
                u8_to_hex(e.data[j], output);
                proof {
                    assert(brest[0] == e.data@[j as int]);
                    assert(brest.skip(1) =~= e.data@.skip(j as int + 1));
                    assert((inner_prev + spec_encode_octet(e.data@[j as int])) + hex_bytes_wire(
                        e.data@.skip(j as int + 1),
                    ) =~= inner_prev + hex_bytes_wire(brest));
                }
                j = j + 1;
            }
            proof {
                assert(e.data@.skip(m as int) =~= Seq::<u8>::empty());
                assert(hex_bytes_wire(Seq::<u8>::empty()) == Seq::<u8>::empty());
                assert(output@ =~= output@ + Seq::<u8>::empty());
                assert(spec_entries_wire(rest) == spec_encode_octet(rest[0].0) + spec_encode_octet(
                    rest[0].1.len() as u8,
                ) + hex_bytes_wire(rest[0].1) + spec_entries_wire(rest.skip(1)));
                assert(output@ =~= ((prev + spec_encode_octet(rest[0].0)) + spec_encode_octet(
                    rest[0].1.len() as u8,
                )) + hex_bytes_wire(rest[0].1));
                assert(output@ + spec_entries_wire(models.skip(k as int + 1)) =~= prev
                    + spec_entries_wire(rest));
            }
            k = k + 1;
        }
        proof {
            assert(models.skip(n as int) =~= Seq::<(u8, Seq<u8>)>::empty());
            assert(spec_entries_wire(Seq::<(u8, Seq<u8>)>::empty()) == Seq::<u8>::empty());
            assert(output@ =~= output@ + Seq::<u8>::empty());
        }
    }
}

/// The model of a header: its typed concatenated-message element and the
/// models of its retained entries.
pub ghost struct HeaderModel {
    pub concatenated_message: Option<ConcatenatedMessage>,
    pub entries: Seq<(u8, Seq<u8>)>,
}

impl View for Header {
    type V = HeaderModel;

    open spec fn view(&self) -> HeaderModel {
        HeaderModel {
            concatenated_message: self.concatenated_message,
            entries: entry_models(self.entries@),
        }
    }
}

/// Prefixing the entries of a parse outcome.
pub open spec fn prepend_entries(
    prefix: Seq<(u8, Seq<u8>)>,
    r: Result<Seq<(u8, Seq<u8>)>, Error>,
) -> Result<Seq<(u8, Seq<u8>)>, Error> {
    match r {
        Ok(es) => Ok(prefix + es),
        Err(e) => Err(e),
    }
}

proof fn lemma_prepend_entries_assoc(
    p: Seq<(u8, Seq<u8>)>,
    q: Seq<(u8, Seq<u8>)>,
    r: Result<Seq<(u8, Seq<u8>)>, Error>,
)
    ensures
        prepend_entries(p, prepend_entries(q, r)) == prepend_entries(p + q, r),
{
    match r {
        Ok(es) => {
            assert(p + (q + es) =~= (p + q) + es);
        },
        Err(_) => {},
    }
}

/// Parse a full user data header at `pos`: the length octet, then every
/// information element up to exactly that octet count, then the typed
/// decode of the retained elements. Returns the header and the position
/// after it.
pub fn parse_header(data: &Vec<u8>, pos: usize) -> (r: Result<(Header, usize), Error>)
    ensures
        r is Ok <==> spec_parse_header(data@, pos as int) is Ok,
        r is Ok ==> r->Ok_0.0@.entries == spec_parse_header(data@, pos as int)->Ok_0.0
            && r->Ok_0.0@.concatenated_message == spec_find_concat(
            spec_parse_header(data@, pos as int)->Ok_0.0,
        ) && r->Ok_0.1 == spec_parse_header(data@, pos as int)->Ok_0.1,
        r is Err ==> r->Err_0 == spec_parse_header(data@, pos as int)->Err_0,
{
    let buffer_len = data.len();
    let l = match read_octet(data, pos) {
        Ok(l) => l,
        Err(e) => {
            return Err(e);
        },
    };
    let body = 2 * (l as usize);
    if buffer_len - (pos + 2) < body {
        return Err(Error::Incomplete);
    }
    let end = pos + 2 + body;
    let ghost whole = spec_parse_entries(data@, pos as int + 2, end as int);
    let mut entries: Vec<HeaderEntry> = Vec::new();
    let mut cur: usize = pos + 2;
    proof {
        assert(entry_models(entries@) =~= Seq::<(u8, Seq<u8>)>::empty());
        match whole {
            Ok(es) => {
                assert(Seq::<(u8, Seq<u8>)>::empty() + es =~= es);
            },
            Err(_) => {},
        }
    }
    while cur < end
        invariant
            pos + 2 <= cur <= end,
            end <= data@.len(),
            data@.len() <= usize::MAX,
            spec_read_octet(data@, pos as int) == Ok::<u8, Error>(l),
            end == pos + 2 + 2 * (l as int),
            whole == spec_parse_entries(data@, pos as int + 2, end as int),
            prepend_entries(
                entry_models(entries@),
                spec_parse_entries(data@, cur as int, end as int),
            ) == whole,
        decreases end - cur,
    {
        let ghost rest = spec_parse_entries(data@, cur as int, end as int);
        if end - cur < 4 {
            return Err(Error::MalformedHeader);
        }
        let tag = match read_octet(data, cur) {
            Ok(t) => t,
            Err(e) => {
                return Err(e);
            },
        };
        let plen = match read_octet(data, cur + 2) {
            Ok(t) => t,
            Err(e) => {
                return Err(e);
            },
        };
        let pbody = 2 * (plen as usize);
        if end - (cur + 4) < pbody {
            return Err(Error::MalformedHeader);
        }
        let payload = match read_hex_bytes(data, cur + 4, plen as usize) {
            Ok(p) => p,
            Err(e) => {
                return Err(e);
            },
        };
        let ghost payload_model = payload@;
        let ghost prev_models = entry_models(entries@);
        entries.push(HeaderEntry { tag, data: payload });
        proof {
            assert(entry_models(entries@) =~= prev_models + seq![(tag, payload_model)]);
            lemma_prepend_entries_assoc(
                prev_models,
                seq![(tag, payload_model)],
                spec_parse_entries(data@, cur as int + 4 + 2 * plen, end as int),
            );
        }
        cur = cur + 4 + pbody;
    }
    proof {
        assert(spec_parse_entries(data@, cur as int, end as int) == Ok::<
            Seq<(u8, Seq<u8>)>,
            Error,
        >(seq![]));
        match whole {
            Ok(es) => {
                assert(entry_models(entries@) + seq![] =~= entry_models(entries@));
            },
            Err(_) => {},
        }
    }
    let mut header = Header::new().set_entries(entries);
    header.parse_entries();
    Ok((header, end))
}

/// The octet count of the elements splits at any boundary `i`.
proof fn lemma_entries_octet_len_parts(es: Seq<(u8, Seq<u8>)>, i: int)
    requires
        0 <= i <= es.len(),
    ensures
        entries_octet_len(es) == entries_octet_len(es.take(i)) + entries_octet_len(es.skip(i)),
        entries_octet_len(es.skip(i)) >= 0,
        entries_octet_len(es.take(i)) >= 0,
    decreases i,
{
    if i == 0 {
        assert(es.take(0) =~= Seq::<(u8, Seq<u8>)>::empty());
        assert(es.skip(0) =~= es);
        lemma_entries_octet_len_nonneg(es);
    } else {
        lemma_entries_octet_len_parts(es.skip(1), i - 1);
        assert(es.skip(1).take(i - 1) =~= es.take(i).skip(1));
        assert(es.skip(1).skip(i - 1) =~= es.skip(i));
        assert(es.take(i)[0] == es[0]);
        lemma_entries_octet_len_nonneg(es.skip(i));
    }
}

proof fn lemma_entries_octet_len_nonneg(es: Seq<(u8, Seq<u8>)>)
    ensures
        entries_octet_len(es) >= 0,
    decreases es.len(),
{
    if es.len() > 0 {
        lemma_entries_octet_len_nonneg(es.skip(1));
    }
}

/// One element's payload never exceeds the whole element budget.
proof fn lemma_entry_len_bound(es: Seq<(u8, Seq<u8>)>, i: int)
    requires
        0 <= i < es.len(),
        entries_octet_len(es) <= 255,
    ensures
        es[i].1.len() <= 253,
    decreases i,
{
    lemma_entries_octet_len_nonneg(es.skip(1));
    if i == 0 {
    } else {
        lemma_entry_len_bound(es.skip(1), i - 1);
        assert(es.skip(1)[i - 1] == es[i]);
        lemma_entries_octet_len_nonneg(es);
    }
}


/// The elements' wire form spans two characters per octet.
proof fn lemma_entries_wire_len(es: Seq<(u8, Seq<u8>)>)
    ensures
        spec_entries_wire(es).len() == 2 * entries_octet_len(es),
    decreases es.len(),
{
    if es.len() > 0 {
        lemma_entries_wire_len(es.skip(1));
        lemma_hex_bytes_round_trip(es[0].1);
    }
}

/// Print-then-parse at an offset: the part of `d` that holds exactly the
/// wire form of `es` parses back to `es`.
proof fn lemma_parse_entries_wire(d: Seq<u8>, pos: int, es: Seq<(u8, Seq<u8>)>)
    requires
        forall|i: int| 0 <= i < es.len() ==> (#[trigger] es[i]).1.len() <= 255,
        0 <= pos,
        pos + 2 * entries_octet_len(es) <= d.len(),
        d.subrange(pos, pos + 2 * entries_octet_len(es)) == spec_entries_wire(es),
    ensures
        spec_parse_entries(d, pos, pos + 2 * entries_octet_len(es)) == Ok::<
            Seq<(u8, Seq<u8>)>,
            Error,
        >(es),
    decreases es.len(),
{
    lemma_entries_octet_len_nonneg(es);
    lemma_entries_wire_len(es);
    let end = pos + 2 * entries_octet_len(es);
    if es.len() == 0 {
        assert(es =~= Seq::<(u8, Seq<u8>)>::empty());
        assert(spec_parse_entries(d, pos, end) == Ok::<Seq<(u8, Seq<u8>)>, Error>(seq![]));
        assert(seq![] =~= es);
    } else {
        let tag = es[0].0;
        let payload = es[0].1;
        let plen = payload.len() as u8;
        let rest = es.skip(1);
        lemma_entries_octet_len_nonneg(rest);
        lemma_entries_wire_len(rest);
        lemma_hex_octet_round_trip(tag);
        lemma_hex_octet_round_trip(plen);
        lemma_hex_bytes_round_trip(payload);
        let w = spec_entries_wire(es);
        let hbw = hex_bytes_wire(payload);
        assert(w =~= ((spec_encode_octet(tag) + spec_encode_octet(plen)) + hbw)
            + spec_entries_wire(rest));
        assert(forall|j: int| 0 <= j < w.len() ==> d[pos + j] == #[trigger] w[j]) by {
            assert forall|j: int| 0 <= j < w.len() implies d[pos + j] == #[trigger] w[j] by {
                assert(d.subrange(pos, end)[j] == d[pos + j]);
            }
        }
        assert(w[0] == spec_encode_octet(tag)[0] && w[1] == spec_encode_octet(tag)[1]);
        assert(spec_read_octet(d, pos) == Ok::<u8, Error>(tag));
        assert(w[2] == spec_encode_octet(plen)[0] && w[3] == spec_encode_octet(plen)[1]);
        assert(spec_read_octet(d, pos + 2) == Ok::<u8, Error>(plen));
        let pl = plen as int;
        assert(forall|m: int| 0 <= m < 2 * pl ==> w[4 + m] == #[trigger] hbw[m]);
        assert(spec_read_hex_bytes(d, pos + 4, pl) == Ok::<Seq<u8>, Error>(payload)) by {
            assert(!(exists|i: int|
                pos + 4 <= i < pos + 4 + 2 * pl && !is_hex_digit(d[i]))) by {
                assert forall|i: int|
                    pos + 4 <= i < pos + 4 + 2 * pl implies is_hex_digit(d[i]) by {
                    assert(d[i] == w[i - pos] && w[i - pos] == hbw[i - pos - 4]);
                    assert(is_hex_digit(hbw[i - pos - 4]));
                }
            }
            assert(spec_read_hex_bytes(d, pos + 4, pl)->Ok_0 =~= payload) by {
                assert forall|k: int| 0 <= k < pl implies (hex_val(d[pos + 4 + 2 * k]) * 16
                    + hex_val(d[pos + 4 + 2 * k + 1])) as u8 == payload[k] by {
                    assert(hbw[2 * k] == w[4 + 2 * k] && hbw[2 * k + 1] == w[4 + 2 * k + 1]);
                    assert(d[pos + (4 + 2 * k)] == w[4 + 2 * k] && d[pos + (4 + 2 * k + 1)] == w[4
                        + 2 * k + 1]);
                    assert(d[pos + 4 + 2 * k] == hbw[2 * k] && d[pos + 4 + 2 * k + 1] == hbw[2 * k
                        + 1]);
                    assert(spec_read_hex_bytes(hbw, 0, payload.len() as int)->Ok_0[k]
                        == payload[k]);
                }
            }
        }
        let pos2 = pos + 4 + 2 * pl;
        assert(forall|i: int| 0 <= i < rest.len() ==> (#[trigger] rest[i]).1.len() <= 255) by {
            assert forall|i: int| 0 <= i < rest.len() implies (#[trigger] rest[i]).1.len()
                <= 255 by {
                assert(rest[i] == es[i + 1]);
            }
        }
        assert(d.subrange(pos2, pos2 + 2 * entries_octet_len(rest)) =~= spec_entries_wire(rest))
            by {
            assert forall|m: int|
                0 <= m < 2 * entries_octet_len(rest) implies d.subrange(
                pos2,
                pos2 + 2 * entries_octet_len(rest),
            )[m] == spec_entries_wire(rest)[m] by {
                assert(d.subrange(pos2, pos2 + 2 * entries_octet_len(rest))[m] == d[pos2 + m]);
                assert(d[pos2 + m] == w[4 + 2 * pl + m]);
                assert(w[4 + 2 * pl + m] == spec_entries_wire(rest)[m]);
            }
        }
        lemma_parse_entries_wire(d, pos2, rest);
        assert(spec_parse_entries(d, pos, end) == Ok::<Seq<(u8, Seq<u8>)>, Error>(
            seq![(tag, payload)] + rest,
        ));
        assert(seq![(tag, payload)] + rest =~= es);
    }
}

/// The header round trip: the wire form of a serializable header parses
/// back to exactly its retained elements, consuming exactly its
/// characters. Together with the serializer's contract this says that
/// decoding a header and re-serializing the retained entries reproduces
/// the original header bytes.
pub proof fn lemma_header_round_trip(es: Seq<(u8, Seq<u8>)>)
    requires
        entries_octet_len(es) <= 255,
    ensures
        spec_header_wire(es).len() == 2 + 2 * entries_octet_len(es),
        spec_parse_header(spec_header_wire(es), 0) == Ok::<(Seq<(u8, Seq<u8>)>, int), Error>(
            (es, spec_header_wire(es).len() as int),
        ),
{
    assert(forall|i: int| 0 <= i < es.len() ==> (#[trigger] es[i]).1.len() <= 255) by {
        assert forall|i: int| 0 <= i < es.len() implies (#[trigger] es[i]).1.len() <= 255 by {
            lemma_entry_len_bound(es, i);
        }
    }
    lemma_entries_octet_len_nonneg(es);
    lemma_entries_wire_len(es);
    let total = entries_octet_len(es) as u8;
    lemma_hex_octet_round_trip(total);
    let w = spec_header_wire(es);
    assert(w[0] == spec_encode_octet(total)[0] && w[1] == spec_encode_octet(total)[1]);
    assert(spec_read_octet(w, 0) == Ok::<u8, Error>(total));
    assert(w.subrange(2, 2 + 2 * entries_octet_len(es)) =~= spec_entries_wire(es));
    lemma_parse_entries_wire(w, 2, es);
}

} // verus!
