//! The flat record of a datagram that the server acts on, and the packets
//! that it writes into a caller's buffer.

use crate::blocks::wire_number;
use crate::decimal::lemma_decimal_digits_len;
use crate::options::{negotiate, negotiate_spec, NegotiatedOptions};
use crate::packet::{
    decode, decode_spec, encode_data, encode_option_ack, encode_pairs, encode_spec, Packet,
    PacketView,
};
use crate::types::{Opcode, Typ};
use crate::wire::fill_prefix;
use vstd::prelude::*;
use vstd::slice::slice_subrange;

verus! {

/// The length of the longest option acknowledgement: the opcode, `blksize`
/// and `tsize` with a value of twenty digits each, and their four
/// terminators.
pub const OPTION_ACK_MAX: usize = 58;

/// What the server keeps of a datagram: the opcode and, as far as the kind
/// of packet has them, the file name, the mode, the negotiated options and
/// the block number.
#[derive(Debug, Clone, PartialEq, Eq)]
pub struct TFTP {
    pub opcode: Opcode,
    pub fname: Option<String>,
    pub typ: Option<Typ>,
    pub blksize: Option<usize>,
    pub tsize: Option<usize>,
    pub block: Option<u16>,
}

impl TFTP {
    /// The options that the record holds.
    pub open spec fn negotiated(&self) -> NegotiatedOptions {
        NegotiatedOptions { blksize: self.blksize, tsize: self.tsize }
    }

    /// Whether the record is the one that belongs to `packet`. A request
    /// gives its file name, its mode and what its options negotiate; a data
    /// packet and an acknowledgement give their block number; an option
    /// acknowledgement gives what its options negotiate. Every field that
    /// the kind of packet does not have is `None`.
    pub open spec fn describes(&self, packet: PacketView) -> bool {
        match packet {
            PacketView::ReadRequest { filename, mode, options } => {
                &&& self.opcode == Opcode::Read
                &&& self.fname is Some
                &&& self.fname.unwrap()@ == filename
                &&& self.typ == Some(mode)
                &&& self.negotiated() == negotiate_spec(options)
                &&& self.block is None
            },
            PacketView::WriteRequest => {
                &&& self.opcode == Opcode::Write
                &&& self.fname is None
                &&& self.typ is None
                &&& self.negotiated() == NegotiatedOptions::nothing()
                &&& self.block is None
            },
            PacketView::Data { block, payload } => {
                &&& self.opcode == Opcode::Data
                &&& self.fname is None
                &&& self.typ is None
                &&& self.negotiated() == NegotiatedOptions::nothing()
                &&& self.block == Some(block)
            },
            PacketView::Ack { block } => {
                &&& self.opcode == Opcode::Ack
                &&& self.fname is None
                &&& self.typ is None
                &&& self.negotiated() == NegotiatedOptions::nothing()
                &&& self.block == Some(block)
            },
            PacketView::Error { code, message } => {
                &&& self.opcode == Opcode::Error
                &&& self.fname is None
                &&& self.typ is None
                &&& self.negotiated() == NegotiatedOptions::nothing()
                &&& self.block is None
            },
            PacketView::OptionAck { options } => {
                &&& self.opcode == Opcode::OAck
                &&& self.fname is None
                &&& self.typ is None
                &&& self.negotiated() == negotiate_spec(options)
                &&& self.block is None
            },
        }
    }

    /// The option acknowledgement that answers this request: it lists the
    /// block size and the transfer size that the request negotiated.
    pub open spec fn option_ack(&self) -> Seq<u8> {
        encode_spec(PacketView::OptionAck { options: self.negotiated().echo() })
    }

    /// An option acknowledgement is never longer than `OPTION_ACK_MAX`
    /// bytes, so a buffer of that size always takes it.
    pub proof fn lemma_option_ack_fits(&self)
        ensures
            2 <= self.option_ack().len() <= OPTION_ACK_MAX,
    {
        let echo = self.negotiated().echo();
        if let Some(size) = self.blksize {
            lemma_decimal_digits_len(size);
        }
        if let Some(size) = self.tsize {
            lemma_decimal_digits_len(size);
        }
        reveal_with_fuel(encode_pairs, 3);
        if echo.len() == 2 {
            assert(echo.drop_first().len() == 1);
            assert(echo.drop_first().drop_first().len() == 0);
        } else if echo.len() == 1 {
            assert(echo.drop_first().len() == 0);
        }
    }

    /// The options that the record holds.
    pub fn options(&self) -> (options: NegotiatedOptions)
        ensures
            options == self.negotiated(),
    {
        NegotiatedOptions { blksize: self.blksize, tsize: self.tsize }
    }

    /// Reduces a packet to its record.
    pub fn of_packet(packet: Packet) -> (record: TFTP)
        ensures
            record.describes(packet@),
    {
        match packet {
            Packet::ReadRequest { filename, mode, options } => {
                let negotiated = negotiate(&options);
                TFTP {
                    opcode: Opcode::Read,
                    fname: Some(filename),
                    typ: Some(mode),
                    blksize: negotiated.blksize,
                    tsize: negotiated.tsize,
                    block: None,
                }
            },
            Packet::WriteRequest => TFTP {
                opcode: Opcode::Write,
                fname: None,
                typ: None,
                blksize: None,
                tsize: None,
                block: None,
            },
            Packet::Data { block, payload } => TFTP {
                opcode: Opcode::Data,
                fname: None,
                typ: None,
                blksize: None,
                tsize: None,
                block: Some(block),
            },
            Packet::Ack { block } => TFTP {
                opcode: Opcode::Ack,
                fname: None,
                typ: None,
                blksize: None,
                tsize: None,
                block: Some(block),
            },
            Packet::Error { code, message } => TFTP {
                opcode: Opcode::Error,
                fname: None,
                typ: None,
                blksize: None,
                tsize: None,
                block: None,
            },
            Packet::OptionAck { options } => {
                let negotiated = negotiate(&options);
                TFTP {
                    opcode: Opcode::OAck,
                    fname: None,
                    typ: None,
                    blksize: negotiated.blksize,
                    tsize: negotiated.tsize,
                    block: None,
                }
            },
        }
    }

    /// Reads the datagram that fills the first `len` bytes of `buf`. There
    /// is a record exactly if `buf` holds that many bytes and they decode to
    /// a packet, and the record is that packet's.
    pub fn parse(buf: &[u8], len: usize) -> (record: Option<TFTP>)
        ensures
            record is Some <==> len <= buf@.len() && decode_spec(buf@.take(len as int)) is Some,
            record matches Some(r) ==> r.describes(decode_spec(buf@.take(len as int)).unwrap()),
    {
        if len > buf.len() {
            return None;
        }
        let datagram = slice_subrange(buf, 0, len);
        assert(datagram@ =~= buf@.take(len as int));
        match decode(datagram) {
            Some(packet) => Some(TFTP::of_packet(packet)),
            None => None,
        }
    }

    /// Writes into `buf` the data packet that carries the `blk_sz` bytes of
    /// `file_data` from `blk_start` on under the block counter `blk_ctr`,
    /// and gives the packet's length. On the wire the counter is taken
    /// modulo 65536. What lies behind the packet in `buf` stays as it was.
    pub fn data(
        &self,
        buf: &mut [u8],
        file_data: &[u8],
        blk_start: usize,
        blk_sz: usize,
        blk_ctr: usize,
    ) -> (len: usize)
        requires
            blk_start + blk_sz <= file_data@.len(),
            4 + blk_sz <= old(buf)@.len(),
        ensures
            len == 4 + blk_sz,
            final(buf)@ == encode_spec(
                PacketView::Data {
                    block: wire_number(blk_ctr as nat),
                    payload: file_data@.subrange(blk_start as int, blk_start + blk_sz),
                },
            ) + old(buf)@.skip(len as int),
    {
        let block: u16 = (blk_ctr % 65536) as u16;
        assert(blk_start + blk_sz <= file_data.len());
        let packet: Vec<u8> = encode_data(block, file_data, blk_start, blk_start + blk_sz);
        fill_prefix(buf, packet.as_slice());
        packet.len()
    }

    /// Writes into `buf` the option acknowledgement that answers this
    /// request, and gives its length. What lies behind the packet in `buf`
    /// stays as it was.
    pub fn options_acknowledge(&self, buf: &mut [u8]) -> (len: usize)
        requires
            self.option_ack().len() <= old(buf)@.len(),
        ensures
            len == self.option_ack().len(),
            final(buf)@ == self.option_ack() + old(buf)@.skip(len as int),
    {
        let pairs = self.options().acknowledgement();
        let packet: Vec<u8> = encode_option_ack(&pairs);
        fill_prefix(buf, packet.as_slice());
        packet.len()
    }

    /// Whether this record is the acknowledgement of the data packet sent
    /// under the block counter `blk_ctr`: an acknowledgement, with the
    /// number that the counter has on the wire.
    pub fn ack_valid(&self, blk_ctr: usize) -> (valid: bool)
        ensures
            valid == (self.opcode == Opcode::Ack && self.block == Some(
                wire_number(blk_ctr as nat),
            )),
    {
        let expected: u16 = (blk_ctr % 65536) as u16;
        match (self.opcode, self.block) {
            (Opcode::Ack, Some(block)) => block == expected,
            _ => false,
        }
    }
}

} // verus!
