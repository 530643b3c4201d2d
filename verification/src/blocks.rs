//! How a file is cut into the blocks of a transfer.
//!
//! Block `index`, counted from 0, starts `index * size` bytes into the file
//! and runs for `size` bytes or to the end of the file, whichever comes
//! first. A transfer ends with the first block that is shorter than `size`,
//! which is empty where the file's length is a multiple of `size`.

use vstd::arithmetic::div_mod::{lemma_fundamental_div_mod, lemma_fundamental_div_mod_converse};
use vstd::prelude::*;

verus! {

/// The 16-bit number under which a block counter goes on the wire: the
/// counter modulo 65536.
pub open spec fn wire_number(counter: nat) -> u16 {
    (counter % 65536) as u16
}

/// The number of the data packet that carries block `index`: one more than
/// the index, since packets are counted from 1.
pub open spec fn block_number(index: nat) -> u16 {
    wire_number(index + 1)
}

/// Where block `index` starts in a file of `len` bytes; the end of the file
/// for a block that lies behind it.
pub open spec fn block_start(len: nat, size: nat, index: nat) -> nat {
    if index * size <= len {
        index * size
    } else {
        len
    }
}

/// The number of bytes in block `index`.
pub open spec fn block_len(len: nat, size: nat, index: nat) -> nat {
    (block_start(len, size, index + 1) - block_start(len, size, index)) as nat
}

/// The number of data packets that a transfer of `len` bytes takes: the full
/// blocks and the short one that ends it.
pub open spec fn block_count(len: nat, size: nat) -> nat {
    len / size + 1
}

/// The least number of blocks of `size` bytes that hold `len` bytes: `len`
/// divided by `size`, rounded up.
pub open spec fn blocks_needed(len: nat, size: nat) -> nat {
    ((len + size - 1) / (size as int)) as nat
}

/// The bytes of block `index`.
pub open spec fn nth_block(file: Seq<u8>, size: nat, index: nat) -> Seq<u8> {
    file.subrange(
        block_start(file.len(), size, index) as int,
        block_start(file.len(), size, index + 1) as int,
    )
}

/// The first `count` blocks, one after the other.
pub open spec fn blocks_joined(file: Seq<u8>, size: nat, count: nat) -> Seq<u8>
    decreases count,
{
    if count == 0 {
        Seq::empty()
    } else {
        blocks_joined(file, size, (count - 1) as nat) + nth_block(file, size, (count - 1) as nat)
    }
}

/// How many of the first `count` blocks hold at least one byte.
pub open spec fn nonempty_among(len: nat, size: nat, count: nat) -> nat
    decreases count,
{
    if count == 0 {
        0
    } else {
        let before = nonempty_among(len, size, (count - 1) as nat);
        if block_len(len, size, (count - 1) as nat) > 0 {
            before + 1
        } else {
            before
        }
    }
}

/// Multiples of the block size against the length of the file.
proof fn lemma_multiples(len: nat, size: nat, index: nat)
    requires
        size > 0,
    ensures
        (index + 1) * size == index * size + size,
        index <= len / size <==> index * size <= len,
        (len / size) * size + len % size == len,
        len % size < size,
{
    let q = len / size;
    let r = len % size;
    lemma_fundamental_div_mod(len as int, size as int);
    assert(size * q == q * size) by (nonlinear_arith);
    assert((index + 1) * size == index * size + size) by (nonlinear_arith);
    assert(0 <= r < size);
    if index <= q {
        assert(index * size <= q * size) by (nonlinear_arith)
            requires
                index <= q,
                size > 0,
        ;
    } else {
        assert(index * size >= (q + 1) * size) by (nonlinear_arith)
            requires
                index >= q + 1,
                size > 0,
        ;
        assert((q + 1) * size == q * size + size) by (nonlinear_arith);
    }
}

/// Where each block starts and how long it is: the blocks before the last
/// are full, the last is shorter than the block size, and nothing is left
/// behind it.
pub proof fn lemma_block_shape(len: nat, size: nat, index: nat)
    requires
        size > 0,
    ensures
        block_start(len, size, 0) == 0,
        block_start(len, size, index) + block_len(len, size, index) == block_start(
            len,
            size,
            index + 1,
        ),
        block_start(len, size, index + 1) <= len,
        index < len / size ==> block_start(len, size, index) == index * size && block_len(
            len,
            size,
            index,
        ) == size,
        index == len / size ==> block_start(len, size, index) == index * size && block_len(
            len,
            size,
            index,
        ) == len % size && block_len(len, size, index) < size,
        index > len / size ==> block_start(len, size, index) == len && block_len(len, size, index)
            == 0,
        block_start(len, size, block_count(len, size)) == len,
{
    lemma_multiples(len, size, index);
    lemma_multiples(len, size, index + 1);
    lemma_multiples(len, size, block_count(len, size));
    assert(0 * size == 0) by (nonlinear_arith);
}

/// The first `count` blocks, one after the other, are the file up to the
/// start of block `count`.
proof fn lemma_blocks_joined_prefix(file: Seq<u8>, size: nat, count: nat)
    requires
        size > 0,
    ensures
        blocks_joined(file, size, count) == file.subrange(
            0,
            block_start(file.len(), size, count) as int,
        ),
    decreases count,
{
    let len = file.len();
    if count == 0 {
        lemma_block_shape(len, size, 0);
        assert(file.subrange(0, 0) =~= Seq::<u8>::empty());
    } else {
        let before = (count - 1) as nat;
        lemma_blocks_joined_prefix(file, size, before);
        lemma_block_shape(len, size, before);
        assert(file.subrange(0, block_start(len, size, before) as int) + nth_block(
            file,
            size,
            before,
        ) =~= file.subrange(0, block_start(len, size, count) as int));
    }
}

/// The blocks of a transfer make up the file: joined in their order they
/// are the file, byte for byte, each block starting where the one before it
/// ends, the first at the start of the file and the last ending at its end.
pub proof fn lemma_blocks_cover_file(file: Seq<u8>, size: nat)
    requires
        size > 0,
    ensures
        blocks_joined(file, size, block_count(file.len(), size)) == file,
        block_start(file.len(), size, 0) == 0,
        block_start(file.len(), size, block_count(file.len(), size)) == file.len(),
        forall|index: nat| #[trigger]
            block_start(file.len(), size, index) + block_len(file.len(), size, index)
                == block_start(file.len(), size, index + 1),
{
    let len = file.len();
    lemma_blocks_joined_prefix(file, size, block_count(len, size));
    lemma_block_shape(len, size, 0);
    assert(file.subrange(0, len as int) =~= file);
    assert forall|index: nat| #[trigger]
        block_start(len, size, index) + block_len(len, size, index) == block_start(
            len,
            size,
            index + 1,
        ) by {
        lemma_block_shape(len, size, index);
    }
}

/// The length of the file divided by the block size, rounded up, is the
/// quotient where the division is exact and one more where it is not.
proof fn lemma_blocks_needed(len: nat, size: nat)
    requires
        size > 0,
    ensures
        len % size == 0 ==> blocks_needed(len, size) == len / size,
        len % size != 0 ==> blocks_needed(len, size) == len / size + 1,
{
    let q = (len / size) as int;
    let r = (len % size) as int;
    lemma_multiples(len, size, 0);
    let x = len + size - 1;
    if r == 0 {
        assert(x == q * size + (size - 1));
        lemma_fundamental_div_mod_converse(x, size as int, q, size - 1);
    } else {
        assert(x == (q + 1) * size + (r - 1)) by (nonlinear_arith)
            requires
                x == q * size + r + size - 1,
        ;
        lemma_fundamental_div_mod_converse(x, size as int, q + 1, r - 1);
    }
}

/// Among the first `count` blocks, the non-empty ones are those that start
/// before the end of the file.
proof fn lemma_nonempty_among(len: nat, size: nat, count: nat)
    requires
        size > 0,
    ensures
        nonempty_among(len, size, count) == if count <= blocks_needed(len, size) {
            count
        } else {
            blocks_needed(len, size)
        },
    decreases count,
{
    if count > 0 {
        let before = (count - 1) as nat;
        lemma_nonempty_among(len, size, before);
        lemma_block_shape(len, size, before);
        lemma_blocks_needed(len, size);
        lemma_multiples(len, size, before);
    }
}

/// A block holds at least one byte exactly if it is one of the first
/// `blocks_needed`, so the number of non-empty data packets of a transfer is
/// the file's length divided by the block size, rounded up.
pub proof fn lemma_nonempty_blocks(len: nat, size: nat)
    requires
        size > 0,
    ensures
        nonempty_among(len, size, block_count(len, size)) == blocks_needed(len, size),
        forall|index: nat| #[trigger]
            block_len(len, size, index) > 0 <==> index < blocks_needed(len, size),
{
    lemma_nonempty_among(len, size, block_count(len, size));
    lemma_blocks_needed(len, size);
    assert forall|index: nat| #[trigger]
        block_len(len, size, index) > 0 <==> index < blocks_needed(len, size) by {
        lemma_block_shape(len, size, index);
    }
}

/// A file whose length is a positive multiple of the block size goes out as
/// `len / size` full blocks and exactly one more data packet, which is empty
/// and carries the number `len / size + 1`.
pub proof fn lemma_exact_multiple(len: nat, size: nat)
    requires
        size > 0,
        len > 0,
        len % size == 0,
    ensures
        block_count(len, size) == len / size + 1,
        forall|index: nat|
            index < len / size ==> #[trigger] block_len(len, size, index) == size,
        block_len(len, size, len / size) == 0,
        block_number(len / size) == wire_number(len / size + 1),
        nonempty_among(len, size, block_count(len, size)) == len / size,
{
    assert forall|index: nat| index < len / size implies #[trigger] block_len(len, size, index)
        == size by {
        lemma_block_shape(len, size, index);
    }
    lemma_block_shape(len, size, len / size);
    lemma_nonempty_blocks(len, size);
    lemma_blocks_needed(len, size);
}

/// An empty file goes out as exactly one data packet, which is empty and
/// carries the number 1.
pub proof fn lemma_empty_file(size: nat)
    requires
        size > 0,
    ensures
        block_count(0, size) == 1,
        block_len(0, size, 0) == 0,
        block_number(0) == 1,
        nonempty_among(0, size, block_count(0, size)) == 0,
{
    lemma_block_shape(0, size, 0);
    lemma_multiples(0, size, 0);
    lemma_nonempty_blocks(0, size);
    lemma_blocks_needed(0, size);
    assert(0nat / size == 0) by {
        lemma_fundamental_div_mod_converse(0, size as int, 0, 0);
    }
}

} // verus!
