use tftp::decimal::{parse_decimal, render_decimal};
use tftp::options::{negotiate, NegotiatedOptions, DEFAULT_BLOCK_SIZE};
use tftp::packet::{decode, encode_option_ack, Packet};
use tftp::record::TFTP;
use tftp::types::Options;

fn pair(key: &str, value: &str) -> (Vec<u8>, Vec<u8>) {
    (key.as_bytes().to_vec(), value.as_bytes().to_vec())
}

#[test]
fn decimal_text_is_read_as_its_number() {
    assert_eq!(parse_decimal(b"0"), Some(0));
    assert_eq!(parse_decimal(b"7"), Some(7));
    assert_eq!(parse_decimal(b"512"), Some(512));
    assert_eq!(parse_decimal(b"1024"), Some(1024));
    assert_eq!(parse_decimal(b"65464"), Some(65464));
    assert_eq!(parse_decimal(b"4294967295"), Some(4294967295));
}

#[test]
fn decimal_text_may_start_with_a_plus_or_zeros() {
    assert_eq!(parse_decimal(b"+8"), Some(8));
    assert_eq!(parse_decimal(b"+0"), Some(0));
    assert_eq!(parse_decimal(b"0008"), Some(8));
    assert_eq!(parse_decimal(b"+0008"), Some(8));
    assert_eq!(parse_decimal(b"000000000000000000000000000000000000000001"), Some(1));
}

#[test]
fn text_that_is_no_decimal_number_is_refused() {
    assert_eq!(parse_decimal(b""), None);
    assert_eq!(parse_decimal(b"+"), None);
    assert_eq!(parse_decimal(b"-1"), None);
    assert_eq!(parse_decimal(b"++1"), None);
    assert_eq!(parse_decimal(b"1+"), None);
    assert_eq!(parse_decimal(b"12a"), None);
    assert_eq!(parse_decimal(b"a12"), None);
    assert_eq!(parse_decimal(b" 12"), None);
    assert_eq!(parse_decimal(b"12 "), None);
    assert_eq!(parse_decimal(b"1_000"), None);
    assert_eq!(parse_decimal(b"0x10"), None);
    assert_eq!(parse_decimal(b"1.5"), None);
    assert_eq!(parse_decimal(b"/"), None);
    assert_eq!(parse_decimal(b":"), None);
    assert_eq!(parse_decimal("\u{661}".as_bytes()), None);
    assert_eq!(parse_decimal(b"\xff"), None);
}

#[test]
fn the_largest_number_is_read_and_the_next_is_not() {
    let largest = format!("{}", usize::MAX);
    assert_eq!(parse_decimal(largest.as_bytes()), Some(usize::MAX));
    let next = format!("{}", usize::MAX as u128 + 1);
    assert_eq!(parse_decimal(next.as_bytes()), None);
    let tenfold = format!("{}0", usize::MAX);
    assert_eq!(parse_decimal(tenfold.as_bytes()), None);
    assert_eq!(parse_decimal(b"99999999999999999999999999999999999999999"), None);
    // too large before the text turns out not to be a number at all
    assert_eq!(parse_decimal(b"99999999999999999999999999999999999999999x"), None);
}

#[test]
fn numbers_are_written_without_sign_or_leading_zeros() {
    assert_eq!(render_decimal(0), b"0".to_vec());
    assert_eq!(render_decimal(9), b"9".to_vec());
    assert_eq!(render_decimal(10), b"10".to_vec());
    assert_eq!(render_decimal(512), b"512".to_vec());
    assert_eq!(render_decimal(1024), b"1024".to_vec());
    assert_eq!(render_decimal(65464), b"65464".to_vec());
    assert_eq!(render_decimal(usize::MAX), format!("{}", usize::MAX).into_bytes());
}

#[test]
fn what_is_written_is_read_back() {
    for n in [0usize, 1, 9, 10, 11, 99, 100, 101, 511, 512, 1024, 65535, 65536, usize::MAX - 1, usize::MAX] {
        assert_eq!(parse_decimal(&render_decimal(n)), Some(n));
    }
}

#[test]
fn block_size_option_is_read() {
    assert_eq!(Options::parse(b"blksize", b"1024"), Options::Blksize(1024));
    assert_eq!(Options::parse(b"blksize", b"8"), Options::Blksize(8));
    assert_eq!(Options::parse(b"blksize", b"1"), Options::Blksize(1));
    assert_eq!(Options::parse(b"blksize", b"+512"), Options::Blksize(512));
    // no range is enforced
    assert_eq!(Options::parse(b"blksize", b"70000"), Options::Blksize(70000));
}

#[test]
fn block_size_must_be_a_positive_number() {
    assert_eq!(Options::parse(b"blksize", b"0"), Options::Unknown);
    assert_eq!(Options::parse(b"blksize", b"000"), Options::Unknown);
    assert_eq!(Options::parse(b"blksize", b""), Options::Unknown);
    assert_eq!(Options::parse(b"blksize", b"big"), Options::Unknown);
    assert_eq!(Options::parse(b"blksize", b"-512"), Options::Unknown);
    assert_eq!(Options::parse(b"blksize", b"512\0"), Options::Unknown);
    assert_eq!(Options::parse(b"blksize", b"\xff\xfe"), Options::Unknown);
    assert_eq!(
        Options::parse(b"blksize", b"340282366920938463463374607431768211456"),
        Options::Unknown
    );
}

#[test]
fn transfer_size_option_is_read() {
    assert_eq!(Options::parse(b"tsize", b"0"), Options::Tsize(0));
    assert_eq!(Options::parse(b"tsize", b"1025"), Options::Tsize(1025));
    assert_eq!(Options::parse(b"tsize", b"x"), Options::Unknown);
    assert_eq!(Options::parse(b"tsize", b""), Options::Unknown);
}

#[test]
fn option_keys_are_matched_byte_for_byte() {
    assert_eq!(Options::parse(b"BLKSIZE", b"512"), Options::Unknown);
    assert_eq!(Options::parse(b"Blksize", b"512"), Options::Unknown);
    assert_eq!(Options::parse(b"blksiz", b"512"), Options::Unknown);
    assert_eq!(Options::parse(b"blksize ", b"512"), Options::Unknown);
    assert_eq!(Options::parse(b"TSIZE", b"1"), Options::Unknown);
    assert_eq!(Options::parse(b"tsiz", b"1"), Options::Unknown);
    assert_eq!(Options::parse(b"", b"1"), Options::Unknown);
}

#[test]
fn other_options_are_unknown() {
    assert_eq!(Options::parse(b"foo", b"bar"), Options::Unknown);
    assert_eq!(Options::parse(b"timeout", b"5"), Options::Unknown);
    assert_eq!(Options::parse(b"windowsize", b"16"), Options::Unknown);
}

#[test]
fn no_options_negotiate_the_default_block_size() {
    let options = negotiate(&vec![]);
    assert_eq!(options, NegotiatedOptions { blksize: None, tsize: None });
    assert_eq!(options.block_size(), 512);
    assert_eq!(DEFAULT_BLOCK_SIZE, 512);
    assert!(options.is_empty());
    assert_eq!(options.acknowledgement(), vec![]);
}

#[test]
fn block_size_1024_is_negotiated_and_echoed() {
    let options = negotiate(&vec![pair("blksize", "1024")]);
    assert_eq!(options, NegotiatedOptions { blksize: Some(1024), tsize: None });
    assert_eq!(options.block_size(), 1024);
    assert!(!options.is_empty());
    assert_eq!(options.acknowledgement(), vec![pair("blksize", "1024")]);
    assert_eq!(
        encode_option_ack(&options.acknowledgement()),
        b"\x00\x06blksize\01024\0".to_vec()
    );
}

#[test]
fn unknown_option_is_passed_over() {
    let options = negotiate(&vec![pair("foo", "bar")]);
    assert_eq!(options, NegotiatedOptions { blksize: None, tsize: None });
    assert_eq!(options.block_size(), 512);
    assert!(options.is_empty());
}

#[test]
fn unknown_options_among_known_ones_change_nothing() {
    let plain = negotiate(&vec![pair("blksize", "1400"), pair("tsize", "0")]);
    let mixed = negotiate(&vec![
        pair("foo", "bar"),
        pair("blksize", "1400"),
        pair("timeout", "3"),
        pair("tsize", "0"),
        pair("blksize", "zero"),
    ]);
    assert_eq!(plain, mixed);
    assert_eq!(mixed, NegotiatedOptions { blksize: Some(1400), tsize: Some(0) });
}

#[test]
fn later_value_of_an_option_replaces_the_earlier() {
    let options = negotiate(&vec![
        pair("blksize", "600"),
        pair("tsize", "1"),
        pair("blksize", "700"),
        pair("tsize", "2"),
    ]);
    assert_eq!(options, NegotiatedOptions { blksize: Some(700), tsize: Some(2) });
}

#[test]
fn block_size_zero_is_not_negotiated() {
    let options = negotiate(&vec![pair("blksize", "0")]);
    assert_eq!(options.blksize, None);
    assert_eq!(options.block_size(), 512);
    let options = negotiate(&vec![pair("blksize", "800"), pair("blksize", "0")]);
    assert_eq!(options.blksize, Some(800));
}

#[test]
fn transfer_size_alone_leaves_the_default_block_size() {
    let options = negotiate(&vec![pair("tsize", "123456")]);
    assert_eq!(options, NegotiatedOptions { blksize: None, tsize: Some(123456) });
    assert_eq!(options.block_size(), 512);
    assert!(!options.is_empty());
    assert_eq!(options.acknowledgement(), vec![pair("tsize", "123456")]);
}

#[test]
fn acknowledgement_lists_block_size_first() {
    let options = negotiate(&vec![pair("tsize", "9"), pair("blksize", "+0016")]);
    assert_eq!(options.acknowledgement(), vec![pair("blksize", "16"), pair("tsize", "9")]);
}

#[test]
fn client_reads_back_what_the_server_acknowledged() {
    for options in [
        NegotiatedOptions { blksize: None, tsize: None },
        NegotiatedOptions { blksize: Some(1), tsize: None },
        NegotiatedOptions { blksize: Some(1024), tsize: Some(0) },
        NegotiatedOptions { blksize: None, tsize: Some(usize::MAX) },
        NegotiatedOptions { blksize: Some(usize::MAX), tsize: Some(usize::MAX) },
    ] {
        let pairs = options.acknowledgement();
        assert_eq!(negotiate(&pairs), options);
        let wire = encode_option_ack(&pairs);
        assert_eq!(decode(&wire), Some(Packet::OptionAck { options: pairs }));
        let record = TFTP::parse(&wire, wire.len()).unwrap();
        assert_eq!(record.options(), options);
    }
}

#[test]
fn request_with_block_size_1024_is_answered_with_its_echo() {
    let datagram = b"\x00\x01boot.bin\0octet\0blksize\01024\0";
    let request = TFTP::parse(datagram, datagram.len()).unwrap();
    assert_eq!(request.blksize, Some(1024));
    assert_eq!(request.options(), NegotiatedOptions { blksize: Some(1024), tsize: None });
    let mut buf = [0u8; 58];
    let len = request.options_acknowledge(&mut buf);
    assert_eq!(&buf[..len], b"\x00\x06blksize\01024\0");
}

#[test]
fn request_with_an_unknown_option_is_still_a_request() {
    let datagram = b"\x00\x01boot.bin\0octet\0foo\0bar\0";
    let request = TFTP::parse(datagram, datagram.len()).unwrap();
    assert_eq!(request.fname, Some(String::from("boot.bin")));
    assert_eq!(request.blksize, None);
    assert_eq!(request.tsize, None);
    assert_eq!(request.options().block_size(), 512);
}
