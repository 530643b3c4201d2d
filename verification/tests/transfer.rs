use tftp::packet::{decode, encode, Packet};
use tftp::record::TFTP;
use tftp::session::{Failure, Phase, TransferSession};
use tftp::types::Opcode;

fn request(options: &[(&str, &str)]) -> TFTP {
    let mut datagram = b"\x00\x01boot.bin\0octet\0".to_vec();
    for (key, value) in options {
        datagram.extend_from_slice(key.as_bytes());
        datagram.push(0);
        datagram.extend_from_slice(value.as_bytes());
        datagram.push(0);
    }
    TFTP::parse(&datagram, datagram.len()).unwrap()
}

fn file_of(len: usize) -> Vec<u8> {
    (0..len).map(|i| (i * 7 % 251) as u8).collect()
}

fn ack(block: u16) -> Vec<u8> {
    encode(&Packet::Ack { block })
}

fn data_of(bytes: &[u8]) -> (u16, Vec<u8>) {
    match decode(bytes) {
        Some(Packet::Data { block, payload }) => (block, payload),
        other => panic!("not a data packet: {:?}", other),
    }
}

/// Plays the client that acknowledges every data packet as it comes, and
/// gives the data packets in the order they were sent.
fn download(session: &mut TransferSession) -> Vec<(u16, Vec<u8>)> {
    let mut sent = Vec::new();
    while let Some(packet) = session.outgoing() {
        let (block, payload) = data_of(&packet);
        assert_eq!(session.phase(), Phase::Transferring);
        session.on_datagram(&ack(block));
        sent.push((block, payload));
    }
    sent
}

fn lengths(sent: &[(u16, Vec<u8>)]) -> Vec<usize> {
    sent.iter().map(|(_, payload)| payload.len()).collect()
}

fn numbers(sent: &[(u16, Vec<u8>)]) -> Vec<u16> {
    sent.iter().map(|(block, _)| *block).collect()
}

#[test]
fn file_of_1025_bytes_goes_out_in_three_blocks() {
    let file = file_of(1025);
    let mut session = TransferSession::new(&request(&[]), file.clone()).unwrap();
    assert_eq!(session.phase(), Phase::Transferring);
    assert_eq!(session.block_size(), 512);

    let first = session.outgoing().unwrap();
    assert_eq!(first.len(), 4 + 512);
    assert_eq!(&first[..4], &[0, 3, 0, 1]);
    assert_eq!(&first[4..], &file[..512]);
    session.on_datagram(&ack(1));
    assert_eq!(session.phase(), Phase::Transferring);

    let second = session.outgoing().unwrap();
    assert_eq!(&second[..4], &[0, 3, 0, 2]);
    assert_eq!(&second[4..], &file[512..1024]);
    session.on_datagram(&ack(2));
    assert_eq!(session.phase(), Phase::Transferring);

    let third = session.outgoing().unwrap();
    assert_eq!(third, vec![0, 3, 0, 3, file[1024]]);
    session.on_datagram(&ack(3));
    assert_eq!(session.phase(), Phase::Complete);
    assert_eq!(session.outgoing(), None);
    assert!(session.is_over());
}

#[test]
fn file_of_1025_bytes_takes_three_packets_and_three_acks() {
    let mut session = TransferSession::new(&request(&[]), file_of(1025)).unwrap();
    let sent = download(&mut session);
    assert_eq!(lengths(&sent), vec![512, 512, 1]);
    assert_eq!(numbers(&sent), vec![1, 2, 3]);
    assert_eq!(session.phase(), Phase::Complete);
}

#[test]
fn exact_multiple_ends_with_one_empty_block() {
    let file = file_of(1024);
    let mut session = TransferSession::new(&request(&[]), file).unwrap();
    let sent = download(&mut session);
    assert_eq!(lengths(&sent), vec![512, 512, 0]);
    assert_eq!(numbers(&sent), vec![1, 2, 3]);
    assert_eq!(session.phase(), Phase::Complete);
}

#[test]
fn exact_multiple_is_not_complete_before_the_empty_block_is_acknowledged() {
    let mut session = TransferSession::new(&request(&[]), file_of(512)).unwrap();
    assert_eq!(session.outgoing().unwrap().len(), 4 + 512);
    session.on_datagram(&ack(1));
    assert_eq!(session.phase(), Phase::Transferring);
    assert_eq!(session.outgoing(), Some(vec![0, 3, 0, 2]));
    assert!(!session.is_over());
    session.on_datagram(&ack(2));
    assert_eq!(session.phase(), Phase::Complete);
    assert_eq!(session.outgoing(), None);
}

#[test]
fn empty_file_goes_out_as_one_empty_block() {
    let mut session = TransferSession::new(&request(&[]), vec![]).unwrap();
    assert_eq!(session.outgoing(), Some(vec![0, 3, 0, 1]));
    session.on_datagram(&ack(1));
    assert_eq!(session.phase(), Phase::Complete);
    assert_eq!(session.outgoing(), None);

    let mut session = TransferSession::new(&request(&[("blksize", "8")]), vec![]).unwrap();
    session.on_datagram(b"");
    let sent = download(&mut session);
    assert_eq!(sent, vec![(1, vec![])]);
}

#[test]
fn short_file_goes_out_as_one_block() {
    let file = file_of(511);
    let mut session = TransferSession::new(&request(&[]), file.clone()).unwrap();
    let sent = download(&mut session);
    assert_eq!(sent, vec![(1, file)]);

    let mut session = TransferSession::new(&request(&[]), vec![42]).unwrap();
    assert_eq!(download(&mut session), vec![(1, vec![42])]);
}

#[test]
fn blocks_put_together_are_the_file() {
    for (len, size) in [
        (0usize, 1usize),
        (1, 1),
        (5, 1),
        (5, 2),
        (6, 2),
        (7, 3),
        (100, 8),
        (511, 512),
        (512, 512),
        (513, 512),
        (1025, 512),
        (3000, 1000),
        (3001, 1000),
        (10, 70000),
    ] {
        let file = file_of(len);
        let size_text = format!("{}", size);
        let mut session =
            TransferSession::new(&request(&[("blksize", &size_text)]), file.clone()).unwrap();
        assert_eq!(session.block_size(), size);
        session.on_datagram(&ack(0));
        let sent = download(&mut session);

        assert_eq!(sent.len(), len / size + 1);
        let joined: Vec<u8> = sent.iter().flat_map(|(_, payload)| payload.clone()).collect();
        assert_eq!(joined, file);
        let nonempty = sent.iter().filter(|(_, payload)| !payload.is_empty()).count();
        assert_eq!(nonempty, (len + size - 1) / size);
        for (index, (block, payload)) in sent.iter().enumerate() {
            assert_eq!(*block as usize, index + 1);
            if index + 1 < sent.len() {
                assert_eq!(payload.len(), size);
            } else {
                assert_eq!(payload.len(), len % size);
            }
        }
    }
}

#[test]
fn request_with_block_size_1024_is_acknowledged_first() {
    let file = file_of(1500);
    let mut session =
        TransferSession::new(&request(&[("blksize", "1024")]), file.clone()).unwrap();
    assert_eq!(session.phase(), Phase::Negotiating);
    assert_eq!(session.block_size(), 1024);
    assert_eq!(session.outgoing(), Some(b"\x00\x06blksize\01024\0".to_vec()));

    session.on_datagram(&ack(0));
    assert_eq!(session.phase(), Phase::Transferring);
    let sent = download(&mut session);
    assert_eq!(lengths(&sent), vec![1024, 476]);
    assert_eq!(numbers(&sent), vec![1, 2]);
    assert_eq!(sent[0].1, file[..1024].to_vec());
    assert_eq!(sent[1].1, file[1024..].to_vec());
}

#[test]
fn any_datagram_ends_the_negotiation() {
    for reply in [&b""[..], &b"\x00\x04\x00\x00"[..], &b"\x00\x04\x00\x09"[..], &b"garbage"[..]] {
        let mut session =
            TransferSession::new(&request(&[("blksize", "16")]), file_of(20)).unwrap();
        assert!(session.outgoing().is_some());
        session.on_datagram(reply);
        assert_eq!(session.phase(), Phase::Transferring);
        let first = session.outgoing().unwrap();
        assert_eq!(&first[..4], &[0, 3, 0, 1]);
        assert_eq!(first.len(), 4 + 16);
    }
}

#[test]
fn option_ack_stays_due_until_a_datagram_comes() {
    let session = TransferSession::new(&request(&[("blksize", "16")]), file_of(20)).unwrap();
    assert_eq!(session.outgoing(), session.outgoing());
    assert_eq!(session.phase(), Phase::Negotiating);
    assert!(!session.is_over());
}

#[test]
fn request_with_an_unknown_option_transfers_with_512() {
    let mut session = TransferSession::new(&request(&[("foo", "bar")]), file_of(600)).unwrap();
    assert_eq!(session.phase(), Phase::Transferring);
    assert_eq!(session.block_size(), 512);
    let sent = download(&mut session);
    assert_eq!(lengths(&sent), vec![512, 88]);
}

#[test]
fn request_with_transfer_size_alone_is_acknowledged() {
    let mut session = TransferSession::new(&request(&[("tsize", "0")]), file_of(600)).unwrap();
    assert_eq!(session.phase(), Phase::Negotiating);
    assert_eq!(session.outgoing(), Some(b"\x00\x06tsize\00\0".to_vec()));
    session.on_datagram(&ack(0));
    assert_eq!(lengths(&download(&mut session)), vec![512, 88]);
}

#[test]
fn both_options_are_acknowledged_block_size_first() {
    let session =
        TransferSession::new(&request(&[("tsize", "0"), ("blksize", "1428")]), vec![]).unwrap();
    assert_eq!(session.outgoing(), Some(b"\x00\x06blksize\01428\0tsize\00\0".to_vec()));
}

#[test]
fn ack_of_another_block_ends_the_session() {
    for wrong in [0u16, 2, 3, 65535] {
        let mut session = TransferSession::new(&request(&[]), file_of(2000)).unwrap();
        assert!(session.outgoing().is_some());
        session.on_datagram(&ack(wrong));
        assert_eq!(session.phase(), Phase::Failed(Failure::OutOfSequence));
        assert_eq!(session.outgoing(), None);
        assert!(session.is_over());
    }
}

#[test]
fn repeated_ack_ends_the_session() {
    let mut session = TransferSession::new(&request(&[]), file_of(2000)).unwrap();
    session.on_datagram(&ack(1));
    assert_eq!(session.phase(), Phase::Transferring);
    session.on_datagram(&ack(1));
    assert_eq!(session.phase(), Phase::Failed(Failure::OutOfSequence));
    assert_eq!(session.outgoing(), None);
}

#[test]
fn failed_session_is_not_revived() {
    let mut session = TransferSession::new(&request(&[]), file_of(2000)).unwrap();
    session.on_datagram(&ack(7));
    assert_eq!(session.phase(), Phase::Failed(Failure::OutOfSequence));
    session.on_datagram(&ack(1));
    assert_eq!(session.phase(), Phase::Failed(Failure::OutOfSequence));
    session.on_datagram(b"junk");
    assert_eq!(session.phase(), Phase::Failed(Failure::OutOfSequence));
    assert_eq!(session.outgoing(), None);
}

#[test]
fn packet_that_is_no_ack_ends_the_session() {
    let replies: Vec<Vec<u8>> = vec![
        b"\x00\x01boot.bin\0octet\0".to_vec(),
        b"\x00\x02".to_vec(),
        encode(&Packet::Data { block: 1, payload: vec![] }),
        encode(&Packet::Error { code: 0, message: String::from("stop") }),
        b"\x00\x06".to_vec(),
    ];
    for reply in replies {
        let mut session = TransferSession::new(&request(&[]), file_of(2000)).unwrap();
        session.on_datagram(&reply);
        assert_eq!(session.phase(), Phase::Failed(Failure::NotAnAck));
        assert_eq!(session.outgoing(), None);
    }
}

#[test]
fn datagram_that_holds_no_packet_ends_the_session() {
    for reply in [&b""[..], &b"\x00"[..], &b"\x00\x04\x00"[..], &b"\x00\x09\x00\x01"[..], &b"\x00\x01boot.bin"[..]] {
        let mut session = TransferSession::new(&request(&[]), file_of(2000)).unwrap();
        session.on_datagram(reply);
        assert_eq!(session.phase(), Phase::Failed(Failure::Undecodable));
        assert_eq!(session.outgoing(), None);
    }
}

#[test]
fn complete_session_stays_complete() {
    let mut session = TransferSession::new(&request(&[]), file_of(3)).unwrap();
    session.on_datagram(&ack(1));
    assert_eq!(session.phase(), Phase::Complete);
    session.on_datagram(&ack(1));
    session.on_datagram(&ack(2));
    session.on_datagram(b"");
    assert_eq!(session.phase(), Phase::Complete);
    assert_eq!(session.outgoing(), None);
}

#[test]
fn same_block_is_due_until_it_is_acknowledged() {
    let session = TransferSession::new(&request(&[]), file_of(2000)).unwrap();
    let once = session.outgoing();
    let again = session.outgoing();
    assert_eq!(once, again);
    assert_eq!(session.phase(), Phase::Transferring);
}

#[test]
fn block_numbers_wrap_to_zero_after_65535() {
    let len = 65536 + 2;
    let file = file_of(len);
    let mut session = TransferSession::new(&request(&[("blksize", "1")]), file.clone()).unwrap();
    session.on_datagram(b"");
    let sent = download(&mut session);
    assert_eq!(session.phase(), Phase::Complete);
    assert_eq!(sent.len(), len + 1);
    assert_eq!(sent[0].0, 1);
    assert_eq!(sent[65534].0, 65535);
    assert_eq!(sent[65535].0, 0);
    assert_eq!(sent[65536].0, 1);
    assert_eq!(sent[65537], (2, vec![file[65537]]));
    assert_eq!(sent[65538], (3, vec![]));
    let joined: Vec<u8> = sent.iter().flat_map(|(_, payload)| payload.clone()).collect();
    assert_eq!(joined, file);
}

#[test]
fn after_the_wrap_the_unwrapped_number_is_out_of_sequence() {
    let mut session =
        TransferSession::new(&request(&[("blksize", "1")]), file_of(70000)).unwrap();
    session.on_datagram(b"");
    for index in 0..65535u32 {
        session.on_datagram(&ack((index + 1) as u16));
    }
    assert_eq!(session.phase(), Phase::Transferring);
    assert_eq!(&session.outgoing().unwrap()[..4], &[0, 3, 0, 0]);
    session.on_datagram(&ack(65535));
    assert_eq!(session.phase(), Phase::Failed(Failure::OutOfSequence));
}

#[test]
fn only_a_read_request_starts_a_session() {
    for datagram in [
        &b"\x00\x02boot.bin\0octet\0"[..],
        &b"\x00\x03\x00\x01"[..],
        &b"\x00\x04\x00\x01"[..],
        &b"\x00\x05\x00\x01no\0"[..],
        &b"\x00\x06blksize\08\0"[..],
    ] {
        let record = TFTP::parse(datagram, datagram.len()).unwrap();
        assert_ne!(record.opcode, Opcode::Read);
        assert!(TransferSession::new(&record, file_of(10)).is_none());
    }
    assert!(TransferSession::new(&request(&[]), file_of(10)).is_some());
}

#[test]
fn record_with_block_size_zero_starts_no_session() {
    let mut record = request(&[]);
    record.blksize = Some(0);
    assert!(TransferSession::new(&record, file_of(10)).is_none());
    record.blksize = Some(1);
    assert!(TransferSession::new(&record, file_of(10)).is_some());
}

#[test]
fn request_for_block_size_zero_transfers_with_512() {
    let record = request(&[("blksize", "0")]);
    assert_eq!(record.blksize, None);
    let mut session = TransferSession::new(&record, file_of(600)).unwrap();
    assert_eq!(session.phase(), Phase::Transferring);
    assert_eq!(lengths(&download(&mut session)), vec![512, 88]);
}

#[test]
fn block_size_larger_than_the_file_sends_it_whole() {
    let file = file_of(100);
    let mut session =
        TransferSession::new(&request(&[("blksize", "65464")]), file.clone()).unwrap();
    session.on_datagram(&ack(0));
    assert_eq!(download(&mut session), vec![(1, file)]);
}
