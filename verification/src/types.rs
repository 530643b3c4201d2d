//! The small vocabulary of the wire format: opcodes, transfer modes and
//! transfer options.

use crate::decimal::{decimal, parse_decimal};
use crate::wire::{find_nul, first_nul};
use vstd::prelude::*;
use vstd::std_specs::convert::TryFromSpecImpl;

verus! {

/// The operation a packet carries, named by the first two bytes of a datagram.
#[derive(Debug, Clone, Copy, PartialEq, Eq, Structural)]
pub enum Opcode {
    Read,
    Write,
    Data,
    Ack,
    Error,
    OAck,
}

impl Opcode {
    /// The number that stands for this opcode on the wire.
    pub open spec fn code(self) -> u8 {
        match self {
            Opcode::Read => 1,
            Opcode::Write => 2,
            Opcode::Data => 3,
            Opcode::Ack => 4,
            Opcode::Error => 5,
            Opcode::OAck => 6,
        }
    }

    /// The opcode that the first two bytes of `bytes` name, read as a
    /// big-endian 16-bit number: one of 1 to 6.
    pub open spec fn of_bytes(bytes: Seq<u8>) -> Result<Opcode, ()> {
        if bytes.len() < 2 || bytes[0] != 0 {
            Err(())
        } else if bytes[1] == 1 {
            Ok(Opcode::Read)
        } else if bytes[1] == 2 {
            Ok(Opcode::Write)
        } else if bytes[1] == 3 {
            Ok(Opcode::Data)
        } else if bytes[1] == 4 {
            Ok(Opcode::Ack)
        } else if bytes[1] == 5 {
            Ok(Opcode::Error)
        } else if bytes[1] == 6 {
            Ok(Opcode::OAck)
        } else {
            Err(())
        }
    }

    /// The two bytes that open a packet of this kind.
    pub fn serialise(&self) -> (bytes: [u8; 2])
        ensures
            bytes@ == seq![0u8, self.code()],
    {
        let bytes: [u8; 2] = match self {
            Opcode::Read => [0, 1],
            Opcode::Write => [0, 2],
            Opcode::Data => [0, 3],
            Opcode::Ack => [0, 4],
            Opcode::Error => [0, 5],
            Opcode::OAck => [0, 6],
        };
        assert(bytes@ =~= seq![0u8, self.code()]);
        bytes
    }
}


impl<'a> TryFrom<&'a [u8]> for Opcode {
    type Error = ();

    /// Reads the opcode that the first two bytes of `value` name. Fewer than
    /// two bytes, or a number outside 1 to 6, name none.
    fn try_from(value: &'a [u8]) -> (r: Result<Self, ()>) {
        if value.len() < 2 || value[0] != 0 {
            return Err(());
        }
        let lo: u8 = value[1];
        if lo == 1 {
            Ok(Opcode::Read)
        } else if lo == 2 {
            Ok(Opcode::Write)
        } else if lo == 3 {
            Ok(Opcode::Data)
        } else if lo == 4 {
            Ok(Opcode::Ack)
        } else if lo == 5 {
            Ok(Opcode::Error)
        } else if lo == 6 {
            Ok(Opcode::OAck)
        } else {
            Err(())
        }
    }
}

impl<'a> TryFromSpecImpl<&'a [u8]> for Opcode {
    open spec fn obeys_try_from_spec() -> bool {
        true
    }

    open spec fn try_from_spec(v: &'a [u8]) -> Result<Self, ()> {
        Opcode::of_bytes(v@)
    }
}

/// How the payload of a transfer is encoded. Only `octet`, the bytes as they
/// are, is known.
#[derive(Debug, Clone, Copy, PartialEq, Eq, Structural)]
pub enum Typ {
    Octet,
}

/// The lower-case form of an ASCII letter; any other byte is left as it is.
pub open spec fn ascii_lower(b: u8) -> u8 {
    if 0x41 <= b <= 0x5a {
        (b + 0x20) as u8
    } else {
        b
    }
}

/// The name of the one known mode, as it is written on the wire.
pub open spec fn octet_name() -> Seq<u8> {
    seq![0x6fu8, 0x63, 0x74, 0x65, 0x74]
}

/// Whether `word` spells `name` when ASCII letter case is set aside.
pub open spec fn same_word(word: Seq<u8>, name: Seq<u8>) -> bool {
    &&& word.len() == name.len()
    &&& forall|i: int| 0 <= i < word.len() ==> ascii_lower(#[trigger] word[i]) == name[i]
}

impl Typ {
    /// The mode that `word` names, if it names one: `octet` in any mix of
    /// upper and lower case.
    pub open spec fn of_name(word: Seq<u8>) -> Option<Typ> {
        if same_word(word, octet_name()) {
            Some(Typ::Octet)
        } else {
            None
        }
    }

    /// The name of the mode as this library writes it.
    pub open spec fn name(self) -> Seq<u8> {
        octet_name()
    }

    /// The mode named by the NUL-terminated field that `bytes` starts with,
    /// or by all of `bytes` where no zero byte ends the field.
    pub open spec fn of_bytes(bytes: Seq<u8>) -> Result<Typ, ()> {
        match Typ::of_name(bytes.take(first_nul(bytes) as int)) {
            Some(typ) => Ok(typ),
            None => Err(()),
        }
    }

    /// The number of bytes that the mode's name takes on the wire, without
    /// its terminator.
    pub fn len(&self) -> (n: usize)
        ensures
            n == self.name().len(),
            n == 5,
    {
        match self {
            Typ::Octet => 5,
        }
    }
}

/// Lowers one ASCII letter.
fn lower(b: u8) -> (r: u8)
    ensures
        r == ascii_lower(b),
{
    if 0x41 <= b && b <= 0x5a {
        b + 0x20
    } else {
        b
    }
}

impl<'a> TryFrom<&'a [u8]> for Typ {
    type Error = ();

    /// Reads the mode named by the NUL-terminated field that `buf` starts
    /// with.
    fn try_from(buf: &'a [u8]) -> (r: Result<Self, ()>) {
        let end: usize = find_nul(buf, 0);
        assert(buf@.skip(0) =~= buf@);
        let ghost word = buf@.take(end as int);
        if end != 5 {
            return Err(());
        }
        let name: [u8; 5] = [0x6f, 0x63, 0x74, 0x65, 0x74];
        assert(name@ =~= octet_name());
        let mut i: usize = 0;
        while i < 5
            invariant
                i <= 5,
                end == 5,
                end <= buf@.len(),
                end == first_nul(buf@),
                word == buf@.take(end as int),
                name@ == octet_name(),
                forall|j: int| 0 <= j < i ==> ascii_lower(#[trigger] word[j]) == octet_name()[j],
            decreases 5 - i,
        {
            if lower(buf[i]) != name[i] {
                assert(ascii_lower(word[i as int]) != octet_name()[i as int]);
                return Err(());
            }
            i += 1;
        }
        Ok(Typ::Octet)
    }
}

impl<'a> TryFromSpecImpl<&'a [u8]> for Typ {
    open spec fn obeys_try_from_spec() -> bool {
        true
    }

    open spec fn try_from_spec(v: &'a [u8]) -> Result<Self, ()> {
        Typ::of_bytes(v@)
    }
}

/// One transfer option as a request carries it, once its value is read.
#[derive(Debug, Clone, Copy, PartialEq, Eq)]
pub enum Options {
    /// The largest payload of a data packet, in bytes; never zero.
    Blksize(usize),
    /// The size of the file being transferred.
    Tsize(usize),
    /// A key that is not recognised, or a value that is not a number the key
    /// takes: the pair counts for nothing.
    Unknown,
}

/// The key of the block size option: `blksize`.
pub open spec fn blksize_key() -> Seq<u8> {
    seq![0x62u8, 0x6c, 0x6b, 0x73, 0x69, 0x7a, 0x65]
}

/// The key of the transfer size option: `tsize`.
pub open spec fn tsize_key() -> Seq<u8> {
    seq![0x74u8, 0x73, 0x69, 0x7a, 0x65]
}

/// Whether two byte strings are the same, byte for byte.
fn same_bytes(a: &[u8], b: &[u8]) -> (r: bool)
    ensures
        r == (a@ == b@),
{
    if a.len() != b.len() {
        return false;
    }
    let mut i: usize = 0;
    while i < a.len()
        invariant
            i <= a.len(),
            a.len() == b.len(),
            forall|j: int| 0 <= j < i ==> a@[j] == b@[j],
        decreases a.len() - i,
    {
        if a[i] != b[i] {
            return false;
        }
        i += 1;
    }
    assert(a@ =~= b@);
    true
}

impl Options {
    /// What a key and its value mean. The key is matched byte for byte, so
    /// letter case counts. A block size is a positive decimal number, a
    /// transfer size any decimal number; every other pair is `Unknown`.
    pub open spec fn of_pair(key: Seq<u8>, value: Seq<u8>) -> Options {
        if key == blksize_key() {
            match decimal(value) {
                Some(size) => if size > 0 {
                    Options::Blksize(size)
                } else {
                    Options::Unknown
                },
                None => Options::Unknown,
            }
        } else if key == tsize_key() {
            match decimal(value) {
                Some(size) => Options::Tsize(size),
                None => Options::Unknown,
            }
        } else {
            Options::Unknown
        }
    }

    /// Reads one option from its key and its value.
    pub fn parse(key: &[u8], value: &[u8]) -> (option: Options)
        ensures
            option == Options::of_pair(key@, value@),
    {
        let blksize: [u8; 7] = [0x62, 0x6c, 0x6b, 0x73, 0x69, 0x7a, 0x65];
        let tsize: [u8; 5] = [0x74, 0x73, 0x69, 0x7a, 0x65];
        assert(blksize@ =~= blksize_key());
        assert(tsize@ =~= tsize_key());
        if same_bytes(key, blksize.as_slice()) {
            match parse_decimal(value) {
                Some(size) => if size > 0 {
                    Options::Blksize(size)
                } else {
                    Options::Unknown
                },
                None => Options::Unknown,
            }
        } else if same_bytes(key, tsize.as_slice()) {
            match parse_decimal(value) {
                Some(size) => Options::Tsize(size),
                None => Options::Unknown,
            }
        } else {
            Options::Unknown
        }
    }
}

} // verus!
