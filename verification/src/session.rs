//! The transfer session: one client's download, block by block.
//!
//! The session decides and the caller does the work on the wire. The caller
//! asks for the packet that is due, sends it, waits for a datagram and hands
//! it in; this goes on until no packet is due any more.

use crate::blocks::{
    block_count, block_number, block_start, blocks_joined, lemma_block_shape,
    lemma_blocks_cover_file, lemma_empty_file, lemma_exact_multiple, nth_block, wire_number,
};
use crate::options::{lemma_echo_round_trip, NegotiatedOptions};
use crate::packet::{
    decode_spec, encode_data, encode_option_ack, encode_spec, lemma_round_trip, PacketView,
};
use crate::record::TFTP;
use crate::types::Opcode;
use vstd::prelude::*;

verus! {

/// Why a session was given up.
#[derive(Debug, Clone, Copy, PartialEq, Eq, Structural)]
pub enum Failure {
    /// The datagram that came in place of an acknowledgement holds no packet.
    Undecodable,
    /// It holds a packet, but not an acknowledgement.
    NotAnAck,
    /// It acknowledges another block than the one that was sent.
    OutOfSequence,
}

/// Where a session stands.
#[derive(Debug, Clone, Copy, PartialEq, Eq, Structural)]
pub enum Phase {
    /// The option acknowledgement is due, or sent and not yet answered.
    Negotiating,
    /// A data packet is due, or sent and not yet acknowledged.
    Transferring,
    /// The last block was acknowledged.
    Complete,
    /// The session was given up; nothing more is sent.
    Failed(Failure),
}

/// A session as mathematical values.
pub struct SessionView {
    /// The file, as it was when the session began.
    pub file: Seq<u8>,
    /// The options that the request negotiated.
    pub options: NegotiatedOptions,
    /// The number of blocks that the client has acknowledged, which is also
    /// the index of the block in flight.
    pub acked: nat,
    pub phase: Phase,
}

impl SessionView {
    /// The block size of the transfer.
    pub open spec fn block_size(self) -> nat {
        self.options.block_size_spec() as nat
    }

    /// The number of data packets that the whole transfer takes.
    pub open spec fn blocks(self) -> nat {
        block_count(self.file.len(), self.block_size())
    }

    /// What holds of every session: the block size is positive; a session
    /// negotiates only options that were taken up, and before any block; a
    /// block is in flight while it transfers; and it is complete exactly
    /// when every block is acknowledged.
    pub open spec fn inv(self) -> bool {
        &&& self.options.wf()
        &&& self.block_size() > 0
        &&& self.acked <= self.blocks()
        &&& self.phase is Negotiating ==> self.acked == 0 && self.options.any()
        &&& self.phase is Transferring ==> self.acked < self.blocks()
        &&& self.phase is Complete ==> self.acked == self.blocks()
    }

    /// The session of a request that negotiated `options`, before anything
    /// is sent: it negotiates if any option was taken up, and transfers
    /// with the default block size otherwise.
    pub open spec fn start(file: Seq<u8>, options: NegotiatedOptions) -> SessionView {
        SessionView {
            file,
            options,
            acked: 0,
            phase: if options.any() {
                Phase::Negotiating
            } else {
                Phase::Transferring
            },
        }
    }

    /// The data packet that carries the block in flight.
    pub open spec fn data_packet(self) -> PacketView {
        PacketView::Data {
            block: block_number(self.acked),
            payload: nth_block(self.file, self.block_size(), self.acked),
        }
    }

    /// The packet that is due: the option acknowledgement while the session
    /// negotiates, the block in flight while it transfers, and none once it
    /// is complete or given up.
    pub open spec fn outgoing(self) -> Option<Seq<u8>> {
        match self.phase {
            Phase::Negotiating => Some(
                encode_spec(PacketView::OptionAck { options: self.options.echo() }),
            ),
            Phase::Transferring => Some(encode_spec(self.data_packet())),
            Phase::Complete => None,
            Phase::Failed(_) => None,
        }
    }

    /// The session with another phase.
    pub open spec fn in_phase(self, phase: Phase) -> SessionView {
        SessionView { phase, ..self }
    }

    /// The session once the block in flight is acknowledged: complete if
    /// that block was shorter than the block size, else with the next block
    /// in flight.
    pub open spec fn advanced(self) -> SessionView {
        SessionView {
            acked: self.acked + 1,
            phase: if self.acked + 1 == self.blocks() {
                Phase::Complete
            } else {
                Phase::Transferring
            },
            ..self
        }
    }

    /// The session after a datagram came in. While it negotiates, any
    /// datagram stands for the client's consent and starts the transfer.
    /// While it transfers, only the acknowledgement of the block in flight
    /// moves it on; anything else ends it. Once complete or given up, it
    /// stays as it is.
    pub open spec fn after(self, datagram: Seq<u8>) -> SessionView {
        match self.phase {
            Phase::Negotiating => self.in_phase(Phase::Transferring),
            Phase::Transferring => match decode_spec(datagram) {
                None => self.in_phase(Phase::Failed(Failure::Undecodable)),
                Some(PacketView::Ack { block }) => if block == block_number(self.acked) {
                    self.advanced()
                } else {
                    self.in_phase(Phase::Failed(Failure::OutOfSequence))
                },
                Some(_) => self.in_phase(Phase::Failed(Failure::NotAnAck)),
            },
            Phase::Complete => self,
            Phase::Failed(_) => self,
        }
    }

    /// The session after the client has acknowledged, one by one and each
    /// with the right number, the next `count` blocks.
    pub open spec fn after_acks(self, count: nat) -> SessionView
        decreases count,
    {
        if count == 0 {
            self
        } else {
            let before = self.after_acks((count - 1) as nat);
            before.after(encode_spec(PacketView::Ack { block: block_number(before.acked) }))
        }
    }
}

/// Whatever comes in, a session stays a session.
pub proof fn lemma_after_keeps_inv(session: SessionView, datagram: Seq<u8>)
    requires
        session.inv(),
    ensures
        session.after(datagram).inv(),
{
}

/// An acknowledgement that carries any other number than that of the block
/// just sent ends the session: it is given up, no packet is due, and no
/// later datagram brings it back.
pub proof fn lemma_wrong_ack_fails(session: SessionView, datagram: Seq<u8>, later: Seq<u8>)
    requires
        session.phase is Transferring,
        decode_spec(datagram) matches Some(PacketView::Ack { block }) && block != block_number(
            session.acked,
        ),
    ensures
        session.after(datagram).phase == Phase::Failed(Failure::OutOfSequence),
        session.after(datagram).outgoing() is None,
        session.after(datagram).after(later) == session.after(datagram),
{
}

/// A session that transfers, left to a client that acknowledges every block
/// with the right number, sends block after block in their order, each
/// under its number and only once the one before it is acknowledged, and is
/// complete exactly when the last block of the file is acknowledged.
pub proof fn lemma_transfer_runs(session: SessionView, count: nat)
    requires
        session.inv(),
        session.phase is Transferring,
        session.acked == 0,
        count <= session.blocks(),
    ensures
        session.after_acks(count).inv(),
        session.after_acks(count).acked == count,
        session.after_acks(count).file == session.file,
        session.after_acks(count).options == session.options,
        count < session.blocks() ==> session.after_acks(count).phase is Transferring
            && session.after_acks(count).outgoing() == Some(
            encode_spec(
                PacketView::Data {
                    block: block_number(count),
                    payload: nth_block(session.file, session.block_size(), count),
                },
            ),
        ),
        count == session.blocks() ==> session.after_acks(count).phase is Complete
            && session.after_acks(count).outgoing() is None,
    decreases count,
{
    if count > 0 {
        let before = session.after_acks((count - 1) as nat);
        lemma_transfer_runs(session, (count - 1) as nat);
        lemma_round_trip(PacketView::Ack { block: block_number(before.acked) });
    }
}

/// What a session has due is decoded by the client to the very packet that
/// the session meant: the option acknowledgement with the options taken up,
/// or the data packet of the block in flight.
pub proof fn lemma_outgoing_decodes(session: SessionView)
    requires
        session.inv(),
    ensures
        session.phase is Negotiating ==> decode_spec(session.outgoing().unwrap()) == Some(
            PacketView::OptionAck { options: session.options.echo() },
        ),
        session.phase is Transferring ==> decode_spec(session.outgoing().unwrap()) == Some(
            session.data_packet(),
        ),
{
    lemma_echo_round_trip(session.options);
    lemma_round_trip(PacketView::OptionAck { options: session.options.echo() });
    lemma_round_trip(session.data_packet());
}

/// The payload of the data packet that a session has due; empty where it has
/// no data packet due.
pub open spec fn payload_due(session: SessionView) -> Seq<u8> {
    match session.outgoing() {
        Some(bytes) => match decode_spec(bytes) {
            Some(PacketView::Data { block, payload }) => payload,
            _ => Seq::empty(),
        },
        None => Seq::empty(),
    }
}

/// The payloads of the first `count` data packets of a transfer, as a client
/// that acknowledges each of them receives them, one after the other.
pub open spec fn payloads_received(session: SessionView, count: nat) -> Seq<u8>
    decreases count,
{
    if count == 0 {
        Seq::empty()
    } else {
        payloads_received(session, (count - 1) as nat) + payload_due(
            session.after_acks((count - 1) as nat),
        )
    }
}

/// The payloads of the first `count` data packets are the first `count`
/// blocks of the file.
proof fn lemma_payloads_are_blocks(session: SessionView, count: nat)
    requires
        session.inv(),
        session.phase is Transferring,
        session.acked == 0,
        count <= session.blocks(),
    ensures
        payloads_received(session, count) == blocks_joined(
            session.file,
            session.block_size(),
            count,
        ),
    decreases count,
{
    if count > 0 {
        let before = (count - 1) as nat;
        lemma_payloads_are_blocks(session, before);
        lemma_transfer_runs(session, before);
        lemma_outgoing_decodes(session.after_acks(before));
    }
}

/// The payloads that a client receives in the course of a whole transfer,
/// put together in the order of their arrival, are the file: no byte is
/// missing, none comes twice, none is out of place.
pub proof fn lemma_transfer_delivers_file(session: SessionView)
    requires
        session.inv(),
        session.phase is Transferring,
        session.acked == 0,
    ensures
        payloads_received(session, session.blocks()) == session.file,
        session.after_acks(session.blocks()).phase is Complete,
{
    lemma_payloads_are_blocks(session, session.blocks());
    lemma_blocks_cover_file(session.file, session.block_size());
    lemma_transfer_runs(session, session.blocks());
}

/// A file whose length is a positive multiple of the block size is sent as
/// that many full blocks and then exactly one more data packet, which is
/// empty and numbered one past the last full block; the session is complete
/// once that packet is acknowledged, and not before.
pub proof fn lemma_exact_multiple_transfer(session: SessionView)
    requires
        session.inv(),
        session.phase is Transferring,
        session.acked == 0,
        session.file.len() > 0,
        session.file.len() % session.block_size() == 0,
    ensures
        session.blocks() == session.file.len() / session.block_size() + 1,
        forall|index: nat|
            index < session.file.len() / session.block_size() ==> (#[trigger] session.after_acks(
                index,
            )).phase is Transferring && payload_due(session.after_acks(index)).len()
                == session.block_size(),
        session.after_acks(session.file.len() / session.block_size()).outgoing() == Some(
            encode_spec(
                PacketView::Data {
                    block: wire_number(session.file.len() / session.block_size() + 1),
                    payload: Seq::empty(),
                },
            ),
        ),
        session.after_acks(session.file.len() / session.block_size()).phase is Transferring,
        session.after_acks(session.file.len() / session.block_size() + 1).phase is Complete,
        session.after_acks(session.file.len() / session.block_size() + 1).outgoing() is None,
{
    let len = session.file.len();
    let size = session.block_size();
    let full = len / size;
    lemma_exact_multiple(len, size);
    assert forall|index: nat| index < full implies (#[trigger] session.after_acks(
        index,
    )).phase is Transferring && payload_due(session.after_acks(index)).len() == size by {
        lemma_transfer_runs(session, index);
        lemma_outgoing_decodes(session.after_acks(index));
        lemma_block_shape(len, size, index);
    }
    lemma_transfer_runs(session, full);
    lemma_transfer_runs(session, full + 1);
    lemma_block_shape(len, size, full);
    assert(nth_block(session.file, size, full) =~= Seq::<u8>::empty());
}

/// An empty file is sent as exactly one data packet, which is empty and
/// carries the number 1; the session is complete once it is acknowledged.
pub proof fn lemma_empty_file_transfer(session: SessionView)
    requires
        session.inv(),
        session.phase is Transferring,
        session.acked == 0,
        session.file.len() == 0,
    ensures
        session.blocks() == 1,
        session.outgoing() == Some(
            encode_spec(PacketView::Data { block: 1, payload: Seq::empty() }),
        ),
        session.after_acks(1).phase is Complete,
        session.after_acks(1).outgoing() is None,
{
    lemma_empty_file(session.block_size());
    lemma_transfer_runs(session, 0);
    lemma_transfer_runs(session, 1);
    assert(nth_block(session.file, session.block_size(), 0) =~= Seq::<u8>::empty());
}

/// The block in flight, for a session that has sent `index` full blocks and
/// so stands `offset` bytes into the file: it is the last one exactly if
/// fewer bytes are left than a block holds, and the next one starts a block
/// further on.
proof fn lemma_in_flight(len: nat, size: nat, index: nat, offset: nat)
    requires
        size > 0,
        index <= len / size,
        offset == index * size,
        offset <= len,
    ensures
        block_start(len, size, index) == offset,
        len - offset < size <==> index == len / size,
        len - offset < size ==> block_start(len, size, index + 1) == len,
        len - offset >= size ==> block_start(len, size, index + 1) == offset + size && (index
            + 1) * size == offset + size && index + 1 <= len / size,
{
    lemma_block_shape(len, size, index);
    lemma_block_shape(len, size, index + 1);
    assert((index + 1) * size == index * size + size) by (nonlinear_arith);
}

/// One client's download. It owns the bytes of the file for as long as it
/// lasts.
pub struct TransferSession {
    file: Vec<u8>,
    options: NegotiatedOptions,
    /// The index of the block in flight; of the last block once complete.
    index: usize,
    /// Where the block in flight starts in the file.
    offset: usize,
    phase: Phase,
}

impl View for TransferSession {
    type V = SessionView;

    closed spec fn view(&self) -> SessionView {
        SessionView {
            file: self.file@,
            options: self.options,
            acked: if self.phase is Complete {
                (self.index + 1) as nat
            } else {
                self.index as nat
            },
            phase: self.phase,
        }
    }
}

impl TransferSession {
    /// Whether the session is in order. Every session that this library
    /// hands out is, and stays so.
    pub closed spec fn wf(&self) -> bool {
        let size = self.options.block_size_spec() as nat;
        let len = self.file@.len();
        &&& self.options.wf()
        &&& self.index <= len / size
        &&& self.offset == self.index * size
        &&& self.offset <= len
        &&& self.phase is Negotiating ==> self.index == 0 && self.options.any()
        &&& self.phase is Complete ==> self.index == len / size
    }

    /// A session in order is one in the sense of `SessionView::inv`.
    pub proof fn lemma_view_inv(&self)
        requires
            self.wf(),
        ensures
            self@.inv(),
    {
    }

    /// Begins the session that serves `request` with the bytes of `file`.
    /// There is a session exactly if the request is a read request; a
    /// record with a block size of zero, which no datagram gives, starts
    /// none either.
    pub fn new(request: &TFTP, file: Vec<u8>) -> (session: Option<TransferSession>)
        ensures
            session is Some <==> request.opcode == Opcode::Read && request.negotiated().wf(),
            session matches Some(s) ==> s.wf() && s@ == SessionView::start(
                file@,
                request.negotiated(),
            ),
    {
        let options = request.options();
        let acceptable: bool = match (request.opcode, options.blksize) {
            (Opcode::Read, Some(size)) => size != 0,
            (Opcode::Read, None) => true,
            _ => false,
        };
        if !acceptable {
            return None;
        }
        let phase = if options.is_empty() {
            Phase::Transferring
        } else {
            Phase::Negotiating
        };
        let session = TransferSession { file, options, index: 0, offset: 0, phase };
        proof {
            let size = options.block_size_spec() as nat;
            let len = session.file@.len();
            assert(0 * size == 0) by (nonlinear_arith);
            assert(0 <= len / size) by (nonlinear_arith)
                requires
                    size > 0,
            ;
        }
        Some(session)
    }

    /// Where the session stands.
    pub fn phase(&self) -> (phase: Phase)
        ensures
            phase == self@.phase,
    {
        self.phase
    }

    /// The block size of the transfer: the negotiated one, or 512.
    pub fn block_size(&self) -> (size: usize)
        ensures
            size == self@.block_size(),
    {
        self.options.block_size()
    }

    /// Whether the session has come to its end, complete or given up, so
    /// that no packet is due.
    pub fn is_over(&self) -> (over: bool)
        ensures
            over == (self@.outgoing() is None),
    {
        match self.phase {
            Phase::Negotiating => false,
            Phase::Transferring => false,
            Phase::Complete => true,
            Phase::Failed(_) => true,
        }
    }

    /// The packet to send now, if one is due.
    pub fn outgoing(&self) -> (packet: Option<Vec<u8>>)
        requires
            self.wf(),
        ensures
            packet matches Some(bytes) ==> self@.outgoing() == Some(bytes@),
            packet is None ==> self@.outgoing() is None,
    {
        match self.phase {
            Phase::Negotiating => {
                let pairs = self.options.acknowledgement();
                Some(encode_option_ack(&pairs))
            },
            Phase::Transferring => {
                let size: usize = self.options.block_size();
                let remaining: usize = self.file.len() - self.offset;
                let take: usize = if remaining < size {
                    remaining
                } else {
                    size
                };
                let number: u16 = ((self.index % 65536 + 1) % 65536) as u16;
                proof {
                    lemma_in_flight(
                        self.file@.len(),
                        size as nat,
                        self.index as nat,
                        self.offset as nat,
                    );
                }
                Some(encode_data(number, self.file.as_slice(), self.offset, self.offset + take))
            },
            Phase::Complete => None,
            Phase::Failed(_) => None,
        }
    }

    /// Moves on once the block in flight is acknowledged.
    fn acknowledged(&mut self)
        requires
            old(self).wf(),
            old(self).phase is Transferring,
        ensures
            final(self).wf(),
            final(self)@ == old(self)@.advanced(),
    {
        let size: usize = self.options.block_size();
        let remaining: usize = self.file.len() - self.offset;
        proof {
            lemma_in_flight(
                self.file@.len(),
                size as nat,
                self.index as nat,
                self.offset as nat,
            );
        }
        if remaining < size {
            self.phase = Phase::Complete;
        } else {
            self.index = self.index + 1;
            self.offset = self.offset + size;
        }
    }

    /// What a datagram that came in place of an acknowledgement is held to
    /// be: `None` where it acknowledges the block in flight, else the reason
    /// to give up.
    fn judge(&self, datagram: &[u8]) -> (verdict: Option<Failure>)
        requires
            self.wf(),
            self.phase is Transferring,
        ensures
            verdict == match decode_spec(datagram@) {
                None => Some(Failure::Undecodable),
                Some(PacketView::Ack { block }) => if block == block_number(self@.acked) {
                    None
                } else {
                    Some(Failure::OutOfSequence)
                },
                Some(_) => Some(Failure::NotAnAck),
            },
    {
        assert(datagram@.take(datagram@.len() as int) =~= datagram@);
        match TFTP::parse(datagram, datagram.len()) {
            None => Some(Failure::Undecodable),
            Some(record) => {
                if record.opcode != Opcode::Ack {
                    Some(Failure::NotAnAck)
                } else if record.ack_valid(self.index % 65536 + 1) {
                    None
                } else {
                    Some(Failure::OutOfSequence)
                }
            },
        }
    }

    /// Takes in the datagram that came after the last packet was sent, and
    /// moves the session on.
    pub fn on_datagram(&mut self, datagram: &[u8])
        requires
            old(self).wf(),
        ensures
            final(self).wf(),
            final(self)@ == old(self)@.after(datagram@),
    {
        match self.phase {
            Phase::Negotiating => {
                self.phase = Phase::Transferring;
            },
            Phase::Transferring => {
                match self.judge(datagram) {
                    None => {
                        self.acknowledged();
                    },
                    Some(failure) => {
                        self.phase = Phase::Failed(failure);
                    },
                }
            },
            Phase::Complete => {},
            Phase::Failed(_) => {},
        }
    }
}

} // verus!
