//! The packet codec: datagram bytes to typed packets and back.

use crate::types::{Opcode, Typ};
use crate::wire::{
    append_bytes, be16, copy_range, find_nul, first_nul, hi_byte, lemma_be16_bytes,
    lemma_first_nul, lemma_first_nul_of_field, lo_byte, nul_free, read_be16,
};
use vstd::prelude::*;
use vstd::slice::slice_subrange;
use vstd::string::StringSliceAdditionalSpecFns;
use vstd::utf8::{
    decode_utf8, encode_scalar, encode_utf8, encode_utf8_decode_utf8, encode_utf8_valid_utf8,
    valid_utf8,
};

verus! {

/// A packet of the protocol, one variant for each opcode.
#[derive(Debug, Clone, PartialEq, Eq)]
pub enum Packet {
    /// A client asks to download a file.
    ReadRequest {
        filename: String,
        mode: Typ,
        /// The options in the order of the request, each a key and its value.
        options: Vec<(Vec<u8>, Vec<u8>)>,
    },
    /// A client asks to upload a file. Uploads are not served, so nothing
    /// behind the opcode is read.
    WriteRequest,
    /// One block of the file; `block` counts from 1.
    Data { block: u16, payload: Vec<u8> },
    /// The receipt of the data packet with the same number.
    Ack { block: u16 },
    /// The other side gives up.
    Error { code: u16, message: String },
    /// The server names the options it accepts.
    OptionAck { options: Vec<(Vec<u8>, Vec<u8>)> },
}

/// What a packet holds, as mathematical values.
pub enum PacketView {
    ReadRequest { filename: Seq<char>, mode: Typ, options: Seq<(Seq<u8>, Seq<u8>)> },
    WriteRequest,
    Data { block: u16, payload: Seq<u8> },
    Ack { block: u16 },
    Error { code: u16, message: Seq<char> },
    OptionAck { options: Seq<(Seq<u8>, Seq<u8>)> },
}

/// The keys and values of a list of options as byte sequences.
pub open spec fn pairs_view(pairs: Seq<(Vec<u8>, Vec<u8>)>) -> Seq<(Seq<u8>, Seq<u8>)> {
    Seq::new(pairs.len(), |i: int| (pairs[i].0@, pairs[i].1@))
}

impl View for Packet {
    type V = PacketView;

    open spec fn view(&self) -> PacketView {
        match self {
            Packet::ReadRequest { filename, mode, options } => PacketView::ReadRequest {
                filename: filename@,
                mode: *mode,
                options: pairs_view(options@),
            },
            Packet::WriteRequest => PacketView::WriteRequest,
            Packet::Data { block, payload } => PacketView::Data {
                block: *block,
                payload: payload@,
            },
            Packet::Ack { block } => PacketView::Ack { block: *block },
            Packet::Error { code, message } => PacketView::Error {
                code: *code,
                message: message@,
            },
            Packet::OptionAck { options } => PacketView::OptionAck {
                options: pairs_view(options@),
            },
        }
    }
}

/// The pairs that a run of NUL-separated strings spells: first a key, then
/// its value, then the next key, and so on. A key that no value follows ends
/// the list and counts for nothing.
pub open spec fn option_pairs(section: Seq<u8>) -> Seq<(Seq<u8>, Seq<u8>)>
    decreases section.len(),
{
    let k = first_nul(section);
    if k >= section.len() {
        Seq::empty()
    } else {
        let rest = section.skip(k as int + 1);
        let v = first_nul(rest);
        let pair = (section.take(k as int), rest.take(v as int));
        if v >= rest.len() {
            seq![pair]
        } else {
            seq![pair] + option_pairs(rest.skip(v as int + 1))
        }
    }
}

/// The options that the tail of a datagram carries. The last byte of the
/// datagram, which closes the last value, is set aside before the rest is
/// split into keys and values.
pub open spec fn decode_options(tail: Seq<u8>) -> Seq<(Seq<u8>, Seq<u8>)> {
    if tail.len() == 0 {
        Seq::empty()
    } else {
        option_pairs(tail.drop_last())
    }
}

/// What follows the opcode of a read request: the file name and the mode,
/// each closed by a zero byte, then the options. The name must be UTF-8 text
/// and the mode a known one.
pub open spec fn decode_request(rest: Seq<u8>) -> Option<PacketView> {
    let f = first_nul(rest);
    if f >= rest.len() || !valid_utf8(rest.take(f as int)) {
        None
    } else {
        let after = rest.skip(f as int + 1);
        let m = first_nul(after);
        if m >= after.len() {
            None
        } else {
            match Typ::of_name(after.take(m as int)) {
                None => None,
                Some(mode) => Some(
                    PacketView::ReadRequest {
                        filename: decode_utf8(rest.take(f as int)),
                        mode,
                        options: decode_options(after.skip(m as int + 1)),
                    },
                ),
            }
        }
    }
}

/// What follows the opcode of an error packet: a 16-bit code, then a message
/// that is UTF-8 text closed by a zero byte.
pub open spec fn decode_error(rest: Seq<u8>) -> Option<PacketView> {
    if rest.len() < 2 {
        None
    } else {
        let text = rest.skip(2);
        let m = first_nul(text);
        if m >= text.len() || !valid_utf8(text.take(m as int)) {
            None
        } else {
            Some(
                PacketView::Error {
                    code: be16(rest[0], rest[1]),
                    message: decode_utf8(text.take(m as int)),
                },
            )
        }
    }
}

/// The packet that a datagram holds, or `None` where it holds none: where
/// the first two bytes name no opcode, a field that must be there is missing
/// or not closed, a text is not UTF-8, or the mode is unknown. Bytes after an
/// acknowledgement's block number are passed over.
pub open spec fn decode_spec(bytes: Seq<u8>) -> Option<PacketView> {
    match Opcode::of_bytes(bytes) {
        Err(_) => None,
        Ok(Opcode::Read) => decode_request(bytes.skip(2)),
        Ok(Opcode::Write) => Some(PacketView::WriteRequest),
        Ok(Opcode::Data) => if bytes.len() < 4 {
            None
        } else {
            Some(PacketView::Data { block: be16(bytes[2], bytes[3]), payload: bytes.skip(4) })
        },
        Ok(Opcode::Ack) => if bytes.len() < 4 {
            None
        } else {
            Some(PacketView::Ack { block: be16(bytes[2], bytes[3]) })
        },
        Ok(Opcode::Error) => decode_error(bytes.skip(2)),
        Ok(Opcode::OAck) => Some(PacketView::OptionAck { options: decode_options(bytes.skip(2)) }),
    }
}

/// One option on the wire: the key, a zero byte, the value, a zero byte.
pub open spec fn encode_pair(pair: (Seq<u8>, Seq<u8>)) -> Seq<u8> {
    pair.0 + seq![0u8] + pair.1 + seq![0u8]
}

/// A list of options on the wire, one after the other.
pub open spec fn encode_pairs(pairs: Seq<(Seq<u8>, Seq<u8>)>) -> Seq<u8>
    decreases pairs.len(),
{
    if pairs.len() == 0 {
        Seq::empty()
    } else {
        encode_pair(pairs[0]) + encode_pairs(pairs.drop_first())
    }
}

/// The two bytes of an opcode followed by the two bytes of a number.
pub open spec fn numbered_header(opcode: Opcode, number: u16) -> Seq<u8> {
    seq![0u8, opcode.code(), hi_byte(number), lo_byte(number)]
}

/// The bytes of a packet: the opcode as a big-endian 16-bit number, then the
/// fields of the variant. A data packet is its four header bytes and the
/// payload as it is, with no length in front.
pub open spec fn encode_spec(packet: PacketView) -> Seq<u8> {
    match packet {
        PacketView::ReadRequest { filename, mode, options } => seq![0u8, Opcode::Read.code()]
            + encode_utf8(filename) + seq![0u8] + mode.name() + seq![0u8] + encode_pairs(options),
        PacketView::WriteRequest => seq![0u8, Opcode::Write.code()],
        PacketView::Data { block, payload } => numbered_header(Opcode::Data, block) + payload,
        PacketView::Ack { block } => numbered_header(Opcode::Ack, block),
        PacketView::Error { code, message } => numbered_header(Opcode::Error, code) + encode_utf8(
            message,
        ) + seq![0u8],
        PacketView::OptionAck { options } => seq![0u8, Opcode::OAck.code()] + encode_pairs(
            options,
        ),
    }
}

/// Whether neither a key nor a value of the list holds a zero byte.
pub open spec fn pairs_nul_free(pairs: Seq<(Seq<u8>, Seq<u8>)>) -> bool {
    forall|i: int|
        0 <= i < pairs.len() ==> nul_free((#[trigger] pairs[i]).0) && nul_free(pairs[i].1)
}

/// Whether no character of `text` is the NUL character, so that `text` can
/// stand in a NUL-terminated field.
pub open spec fn text_nul_free(text: Seq<char>) -> bool {
    forall|i: int| 0 <= i < text.len() ==> (#[trigger] text[i]) as u32 != 0
}

/// Whether the wire can carry `packet` as it is: no file name, message, key
/// or value holds a NUL, which would end its field too early.
pub open spec fn representable(packet: PacketView) -> bool {
    match packet {
        PacketView::ReadRequest { filename, mode, options } => text_nul_free(filename)
            && pairs_nul_free(options),
        PacketView::Error { code, message } => text_nul_free(message),
        PacketView::OptionAck { options } => pairs_nul_free(options),
        _ => true,
    }
}

/// Whether `packet` is of a kind that this server sends: a data packet, or
/// an option acknowledgement whose keys and values hold no zero byte.
pub open spec fn emitted(packet: PacketView) -> bool {
    match packet {
        PacketView::Data { .. } => true,
        PacketView::OptionAck { options } => pairs_nul_free(options),
        _ => false,
    }
}

/// Options written one after the other are the options written so far
/// followed by the last one.
pub proof fn lemma_encode_pairs_push(pairs: Seq<(Seq<u8>, Seq<u8>)>, pair: (Seq<u8>, Seq<u8>))
    ensures
        encode_pairs(pairs.push(pair)) == encode_pairs(pairs) + encode_pair(pair),
    decreases pairs.len(),
{
    let all = pairs.push(pair);
    if pairs.len() == 0 {
        assert(all.drop_first() =~= Seq::<(Seq<u8>, Seq<u8>)>::empty());
        assert(encode_pairs(all.drop_first()) =~= Seq::<u8>::empty());
        assert(encode_pairs(all) =~= encode_pairs(pairs) + encode_pair(pair));
    } else {
        assert(all.drop_first() =~= pairs.drop_first().push(pair));
        lemma_encode_pairs_push(pairs.drop_first(), pair);
        assert(encode_pairs(all) =~= encode_pairs(pairs) + encode_pair(pair));
    }
}

/// Options that hold no zero byte are read back as they were written.
pub proof fn lemma_options_round_trip(pairs: Seq<(Seq<u8>, Seq<u8>)>)
    requires
        pairs_nul_free(pairs),
    ensures
        decode_options(encode_pairs(pairs)) == pairs,
    decreases pairs.len(),
{
    if pairs.len() == 0 {
    } else {
        let key = pairs[0].0;
        let value = pairs[0].1;
        let later = pairs.drop_first();
        let tail = encode_pairs(later);
        let all = encode_pairs(pairs);
        assert(all =~= key + seq![0u8] + value + seq![0u8] + tail);
        assert(pairs_nul_free(later)) by {
            assert forall|i: int| 0 <= i < later.len() implies nul_free((#[trigger] later[i]).0)
                && nul_free(later[i].1) by {
                assert(later[i] == pairs[i + 1]);
            }
        }
        lemma_options_round_trip(later);
        let section = all.drop_last();
        if later.len() == 0 {
            assert(tail =~= Seq::<u8>::empty());
            assert(section =~= key + seq![0u8] + value);
            lemma_first_nul_of_field(key, value);
            let rest = section.skip(key.len() as int + 1);
            assert(rest =~= value);
            lemma_first_nul_of_field(value, Seq::empty());
            assert(section.take(key.len() as int) =~= key);
            assert(rest.take(value.len() as int) =~= value);
            assert(option_pairs(section) =~= seq![(key, value)]);
            assert(pairs =~= seq![(key, value)]);
        } else {
            assert(tail.len() > 0) by {
                assert(tail =~= encode_pair(later[0]) + encode_pairs(later.drop_first()));
            }
            let short = tail.drop_last();
            assert(section =~= key + seq![0u8] + (value + seq![0u8] + short));
            lemma_first_nul_of_field(key, value + seq![0u8] + short);
            let rest = section.skip(key.len() as int + 1);
            assert(rest =~= value + seq![0u8] + short);
            lemma_first_nul_of_field(value, short);
            assert(section.take(key.len() as int) =~= key);
            assert(rest.take(value.len() as int) =~= value);
            assert(rest.skip(value.len() as int + 1) =~= short);
            assert(option_pairs(short) == later);
            assert(option_pairs(section) =~= seq![(key, value)] + later);
            assert(pairs =~= seq![(key, value)] + later);
        }
    }
}

/// No byte of the UTF-8 form of a character other than NUL is zero.
proof fn lemma_scalar_bytes(v: u32)
    by (bit_vector)
    requires
        v != 0,
    ensures
        v <= 0x7F ==> (v & 0x7F) as u8 != 0,
        0xC0u8 | ((v >> 6) & 0x1F) as u8 != 0,
        0xE0u8 | ((v >> 12) & 0x0F) as u8 != 0,
        0xF0u8 | ((v >> 18) & 0x7) as u8 != 0,
        0x80u8 | (v & 0x3F) as u8 != 0,
        0x80u8 | ((v >> 6) & 0x3F) as u8 != 0,
        0x80u8 | ((v >> 12) & 0x3F) as u8 != 0,
{
}

/// Text without a NUL character is encoded without a zero byte.
pub proof fn lemma_text_nul_free(text: Seq<char>)
    requires
        text_nul_free(text),
    ensures
        nul_free(encode_utf8(text)),
    decreases text.len(),
{
    if text.len() > 0 {
        let later = text.drop_first();
        assert(text_nul_free(later)) by {
            assert forall|i: int| 0 <= i < later.len() implies (#[trigger] later[i]) as u32
                != 0 by {
                assert(later[i] == text[i + 1]);
            }
        }
        lemma_text_nul_free(later);
        let v = text[0] as u32;
        lemma_scalar_bytes(v);
        let head = encode_scalar(v);
        assert(nul_free(head));
        let all = encode_utf8(text);
        assert forall|i: int| 0 <= i < all.len() implies all[i] != 0 by {
            if i < head.len() {
                assert(all[i] == head[i]);
            } else {
                assert(all[i] == encode_utf8(later)[i - head.len()]);
            }
        }
    }
}

/// A NUL-terminated text without a NUL character is read back as it was
/// written, whatever follows it.
proof fn lemma_text_field(text: Seq<char>, rest: Seq<u8>)
    requires
        text_nul_free(text),
    ensures
        first_nul(encode_utf8(text) + seq![0u8] + rest) == encode_utf8(text).len(),
        valid_utf8(encode_utf8(text)),
        decode_utf8(encode_utf8(text)) == text,
        (encode_utf8(text) + seq![0u8] + rest).take(encode_utf8(text).len() as int)
            == encode_utf8(text),
        (encode_utf8(text) + seq![0u8] + rest).skip(encode_utf8(text).len() as int + 1) == rest,
{
    let bytes = encode_utf8(text);
    lemma_text_nul_free(text);
    lemma_first_nul_of_field(bytes, rest);
    encode_utf8_valid_utf8(text);
    encode_utf8_decode_utf8(text);
    assert((bytes + seq![0u8] + rest).take(bytes.len() as int) =~= bytes);
    assert((bytes + seq![0u8] + rest).skip(bytes.len() as int + 1) =~= rest);
}

/// Decoding what was encoded gives the packet back, for every packet that
/// the wire can carry as it is.
pub proof fn lemma_round_trip(packet: PacketView)
    requires
        representable(packet),
    ensures
        decode_spec(encode_spec(packet)) == Some(packet),
{
    let bytes = encode_spec(packet);
    match packet {
        PacketView::ReadRequest { filename, mode, options } => {
            let after = mode.name() + seq![0u8] + encode_pairs(options);
            assert(bytes.skip(2) =~= encode_utf8(filename) + seq![0u8] + after);
            lemma_text_field(filename, after);
            assert(nul_free(mode.name()));
            lemma_first_nul_of_field(mode.name(), encode_pairs(options));
            assert(after.take(5) =~= mode.name());
            assert(after.skip(6) =~= encode_pairs(options));
            assert(Typ::of_name(mode.name()) == Some(mode));
            lemma_options_round_trip(options);
        },
        PacketView::WriteRequest => {},
        PacketView::Data { block, payload } => {
            lemma_be16_bytes(block);
            assert(bytes.skip(4) =~= payload);
        },
        PacketView::Ack { block } => {
            lemma_be16_bytes(block);
        },
        PacketView::Error { code, message } => {
            lemma_be16_bytes(code);
            let rest = bytes.skip(2);
            assert(rest.skip(2) =~= encode_utf8(message) + seq![0u8] + Seq::<u8>::empty());
            lemma_text_field(message, Seq::empty());
        },
        PacketView::OptionAck { options } => {
            assert(bytes.skip(2) =~= encode_pairs(options));
            lemma_options_round_trip(options);
        },
    }
}

/// Decoding what was encoded gives the packet back, for every packet of a
/// kind that this server sends.
pub proof fn lemma_emitted_round_trip(packet: PacketView)
    requires
        emitted(packet),
    ensures
        decode_spec(encode_spec(packet)) == Some(packet),
{
    lemma_round_trip(packet);
}

/// Checks that bytes are UTF-8 and hands them back as text. This is
/// `core::str::from_utf8`, stated as the standard library documents it: the
/// call succeeds on well-formed UTF-8 and on nothing else, and the text it
/// gives is made of the very bytes that it was given.
#[verifier::external_body]
fn text_of(bytes: &[u8]) -> (text: Option<&str>)
    ensures
        text is Some <==> valid_utf8(bytes@),
        text matches Some(s) ==> s.spec_bytes() == bytes@,
{
    match core::str::from_utf8(bytes) {
        Ok(s) => Some(s),
        Err(_) => None,
    }
}

/// Reads a NUL-terminated text that starts `field`; `None` where it is not
/// closed or not UTF-8. With the text comes the number of bytes it took.
fn read_text(field: &[u8]) -> (r: Option<(String, usize)>)
    ensures
        r matches Some((text, end)) ==> {
            &&& end == first_nul(field@)
            &&& end < field@.len()
            &&& valid_utf8(field@.take(end as int))
            &&& text@ == decode_utf8(field@.take(end as int))
        },
        r is None ==> first_nul(field@) >= field@.len() || !valid_utf8(
            field@.take(first_nul(field@) as int),
        ),
{
    let end: usize = find_nul(field, 0);
    assert(field@.skip(0) =~= field@);
    if end >= field.len() {
        return None;
    }
    let raw = slice_subrange(field, 0, end);
    assert(raw@ =~= field@.take(end as int));
    match text_of(raw) {
        Some(s) => {
            proof {
                encode_utf8_decode_utf8(s@);
            }
            Some((s.to_owned(), end))
        },
        None => None,
    }
}

/// Splits a run of NUL-separated strings into keys and values.
fn read_pairs(section: &[u8]) -> (pairs: Vec<(Vec<u8>, Vec<u8>)>)
    ensures
        pairs_view(pairs@) == option_pairs(section@),
{
    let mut pairs: Vec<(Vec<u8>, Vec<u8>)> = Vec::new();
    let mut pos: usize = 0;
    let mut more: bool = true;
    assert(section@.skip(0) =~= section@);
    assert(pairs_view(pairs@) =~= Seq::<(Seq<u8>, Seq<u8>)>::empty());
    while more
        invariant
            pos <= section.len(),
            more ==> option_pairs(section@) == pairs_view(pairs@) + option_pairs(
                section@.skip(pos as int),
            ),
            !more ==> option_pairs(section@) == pairs_view(pairs@),
        decreases section.len() - pos + (if more { 1int } else { 0int }),
    {
        let ghost here = section@.skip(pos as int);
        let ghost before = pairs_view(pairs@);
        let key_end: usize = find_nul(section, pos);
        if key_end >= section.len() {
            assert(option_pairs(here) =~= Seq::<(Seq<u8>, Seq<u8>)>::empty());
            assert(before + option_pairs(here) =~= before);
            more = false;
        } else {
            let value_end: usize = find_nul(section, key_end + 1);
            let key: Vec<u8> = copy_range(section, pos, key_end);
            let value: Vec<u8> = copy_range(section, key_end + 1, value_end);
            proof {
                let k = first_nul(here);
                let rest = here.skip(k as int + 1);
                assert(rest =~= section@.skip(key_end + 1));
                assert(key@ =~= here.take(k as int));
                assert(value@ =~= rest.take(first_nul(rest) as int));
                if value_end < section.len() {
                    assert(rest.skip(first_nul(rest) as int + 1) =~= section@.skip(value_end + 1));
                }
            }
            pairs.push((key, value));
            assert(pairs_view(pairs@) =~= before.push((key@, value@)));
            assert(before.push((key@, value@)) =~= before + seq![(key@, value@)]);
            if value_end >= section.len() {
                assert(option_pairs(here) =~= seq![(key@, value@)]);
                more = false;
            } else {
                assert(option_pairs(here) =~= seq![(key@, value@)] + option_pairs(
                    section@.skip(value_end + 1),
                ));
                assert(before + (seq![(key@, value@)] + option_pairs(
                    section@.skip(value_end + 1),
                )) =~= before + seq![(key@, value@)] + option_pairs(
                    section@.skip(value_end + 1),
                ));
                pos = value_end + 1;
            }
        }
    }
    pairs
}

/// Reads the options that the tail of a datagram carries.
fn read_options(tail: &[u8]) -> (pairs: Vec<(Vec<u8>, Vec<u8>)>)
    ensures
        pairs_view(pairs@) == decode_options(tail@),
{
    if tail.len() == 0 {
        let pairs: Vec<(Vec<u8>, Vec<u8>)> = Vec::new();
        assert(pairs_view(pairs@) =~= Seq::<(Seq<u8>, Seq<u8>)>::empty());
        pairs
    } else {
        let section = slice_subrange(tail, 0, tail.len() - 1);
        assert(section@ =~= tail@.drop_last());
        read_pairs(section)
    }
}

/// Reads what follows the opcode of a read request.
fn read_request(rest: &[u8]) -> (r: Option<Packet>)
    ensures
        r matches Some(p) ==> decode_request(rest@) == Some(p@),
        r is None ==> decode_request(rest@) is None,
{
    let found = read_text(rest);
    if found.is_none() {
        return None;
    }
    let (filename, name_end) = found.unwrap();
    assert(name_end < rest.len());
    let after = slice_subrange(rest, name_end + 1, rest.len());
    assert(after@ =~= rest@.skip(name_end + 1));
    let mode: Typ = match Typ::try_from(after) {
        Ok(mode) => mode,
        Err(_) => {
            return None;
        },
    };
    let mode_end: usize = mode.len();
    proof {
        lemma_first_nul(after@);
    }
    if mode_end >= after.len() {
        return None;
    }
    let tail = slice_subrange(after, mode_end + 1, after.len());
    assert(tail@ =~= after@.skip(mode_end + 1));
    let options = read_options(tail);
    Some(Packet::ReadRequest { filename, mode, options })
}

/// Reads what follows the opcode of an error packet.
fn read_error(rest: &[u8]) -> (r: Option<Packet>)
    ensures
        r matches Some(p) ==> decode_error(rest@) == Some(p@),
        r is None ==> decode_error(rest@) is None,
{
    if rest.len() < 2 {
        return None;
    }
    let code: u16 = read_be16(rest[0], rest[1]);
    let text = slice_subrange(rest, 2, rest.len());
    assert(text@ =~= rest@.skip(2));
    match read_text(text) {
        Some((message, _)) => Some(Packet::Error { code, message }),
        None => None,
    }
}

/// Decodes a datagram.
pub fn decode(bytes: &[u8]) -> (r: Option<Packet>)
    ensures
        r matches Some(p) ==> decode_spec(bytes@) == Some(p@),
        r is None ==> decode_spec(bytes@) is None,
{
    let opcode: Opcode = match Opcode::try_from(bytes) {
        Ok(opcode) => opcode,
        Err(_) => {
            return None;
        },
    };
    let rest = slice_subrange(bytes, 2, bytes.len());
    assert(rest@ =~= bytes@.skip(2));
    match opcode {
        Opcode::Read => read_request(rest),
        Opcode::Write => Some(Packet::WriteRequest),
        Opcode::Data => {
            if bytes.len() < 4 {
                return None;
            }
            let block: u16 = read_be16(bytes[2], bytes[3]);
            let payload: Vec<u8> = copy_range(bytes, 4, bytes.len());
            assert(payload@ =~= bytes@.skip(4));
            Some(Packet::Data { block, payload })
        },
        Opcode::Ack => {
            if bytes.len() < 4 {
                return None;
            }
            Some(Packet::Ack { block: read_be16(bytes[2], bytes[3]) })
        },
        Opcode::Error => read_error(rest),
        Opcode::OAck => Some(Packet::OptionAck { options: read_options(rest) }),
    }
}

/// Appends a list of options to `out` as they go on the wire.
fn write_pairs(out: &mut Vec<u8>, pairs: &Vec<(Vec<u8>, Vec<u8>)>)
    ensures
        final(out)@ == old(out)@ + encode_pairs(pairs_view(pairs@)),
{
    let ghost all = pairs_view(pairs@);
    let mut i: usize = 0;
    assert(all.take(0) =~= Seq::<(Seq<u8>, Seq<u8>)>::empty());
    assert(old(out)@ + encode_pairs(all.take(0)) =~= old(out)@);
    while i < pairs.len()
        invariant
            i <= pairs.len(),
            all == pairs_view(pairs@),
            out@ == old(out)@ + encode_pairs(all.take(i as int)),
        decreases pairs.len() - i,
    {
        let ghost so_far = out@;
        append_bytes(out, pairs[i].0.as_slice());
        out.push(0);
        append_bytes(out, pairs[i].1.as_slice());
        out.push(0);
        proof {
            lemma_encode_pairs_push(all.take(i as int), all[i as int]);
            assert(all.take(i + 1) =~= all.take(i as int).push(all[i as int]));
            assert(out@ =~= so_far + encode_pair(all[i as int]));
            assert(so_far + encode_pair(all[i as int]) =~= old(out)@ + (encode_pairs(
                all.take(i as int),
            ) + encode_pair(all[i as int])));
        }
        i += 1;
    }
    assert(all.take(pairs.len() as int) =~= all);
}

/// Starts a packet with an opcode and a 16-bit number.
fn write_header(opcode: Opcode, number: u16) -> (out: Vec<u8>)
    ensures
        out@ == numbered_header(opcode, number),
{
    let code = opcode.serialise();
    let mut out: Vec<u8> = Vec::new();
    out.push(code[0]);
    out.push(code[1]);
    out.push((number / 256) as u8);
    out.push((number % 256) as u8);
    assert(out@ =~= numbered_header(opcode, number));
    out
}

/// Encodes a data packet straight from the bytes `from..to` of a file.
pub fn encode_data(block: u16, file: &[u8], from: usize, to: usize) -> (bytes: Vec<u8>)
    requires
        from <= to <= file.len(),
    ensures
        bytes@ == encode_spec(
            PacketView::Data { block, payload: file@.subrange(from as int, to as int) },
        ),
{
    let mut out: Vec<u8> = write_header(Opcode::Data, block);
    let payload = slice_subrange(file, from, to);
    append_bytes(&mut out, payload);
    out
}

/// Encodes an option acknowledgement that lists `options` in their order.
pub fn encode_option_ack(options: &Vec<(Vec<u8>, Vec<u8>)>) -> (bytes: Vec<u8>)
    ensures
        bytes@ == encode_spec(PacketView::OptionAck { options: pairs_view(options@) }),
{
    let code = Opcode::OAck.serialise();
    let mut out: Vec<u8> = Vec::new();
    out.push(code[0]);
    out.push(code[1]);
    assert(out@ =~= seq![0u8, Opcode::OAck.code()]);
    write_pairs(&mut out, options);
    out
}

/// Encodes a packet.
pub fn encode(packet: &Packet) -> (bytes: Vec<u8>)
    ensures
        bytes@ == encode_spec(packet@),
{
    match packet {
        Packet::ReadRequest { filename, mode, options } => {
            let code = Opcode::Read.serialise();
            let mut out: Vec<u8> = Vec::new();
            out.push(code[0]);
            out.push(code[1]);
            append_bytes(&mut out, filename.as_str().as_bytes());
            out.push(0);
            let name: [u8; 5] = [0x6f, 0x63, 0x74, 0x65, 0x74];
            assert(name@ =~= mode.name());
            append_bytes(&mut out, name.as_slice());
            out.push(0);
            assert(out@ =~= seq![0u8, Opcode::Read.code()] + encode_utf8(filename@) + seq![0u8]
                + mode.name() + seq![0u8]);
            write_pairs(&mut out, options);
            out
        },
        Packet::WriteRequest => {
            let code = Opcode::Write.serialise();
            let mut out: Vec<u8> = Vec::new();
            out.push(code[0]);
            out.push(code[1]);
            assert(out@ =~= seq![0u8, Opcode::Write.code()]);
            out
        },
        Packet::Data { block, payload } => encode_data(
            *block,
            payload.as_slice(),
            0,
            payload.len(),
        ),
        Packet::Ack { block } => write_header(Opcode::Ack, *block),
        Packet::Error { code, message } => {
            let mut out: Vec<u8> = write_header(Opcode::Error, *code);
            append_bytes(&mut out, message.as_str().as_bytes());
            out.push(0);
            out
        },
        Packet::OptionAck { options } => encode_option_ack(options),
    }
}

} // verus!
