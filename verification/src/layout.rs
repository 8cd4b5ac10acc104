use crate::block_id::BlockId;
use vstd::arithmetic::div_mod::{
    lemma_div_multiples_vanish, lemma_fundamental_div_mod, lemma_mod_bound,
};
use vstd::prelude::*;
use vstd::string::StrSliceExecFns;

verus! {

/// First byte offset of block `n` under block size `bs`: block `n`
/// occupies the byte range `[n * bs, (n + 1) * bs)` of its file.
pub open spec fn block_start(n: int, bs: int) -> int {
    n * bs
}

/// Number of complete blocks in a file of `size` bytes; trailing bytes
/// short of a full block are not counted.
pub open spec fn block_count(size: int, bs: int) -> int
    recommends
        bs > 0,
{
    size / bs
}

/// The bytes of block `n` of `file`.
pub open spec fn block_data(file: Seq<u8>, bs: int, n: int) -> Seq<u8>
    recommends
        bs > 0,
        0 <= n,
        (n + 1) * bs <= file.len(),
{
    file.subrange(n * bs, n * bs + bs)
}

/// An all-zero block of `bs` bytes.
pub open spec fn zero_block(bs: int) -> Seq<u8>
    recommends
        bs >= 0,
{
    Seq::new(bs as nat, |i: int| 0u8)
}

/// `file` after writing `data` at byte offset `off`: the covered bytes
/// are replaced, a write past the current end first extends the file
/// with zero bytes (as a seek past end followed by a write does), and
/// everything else is unchanged.
pub open spec fn write_at(file: Seq<u8>, off: int, data: Seq<u8>) -> Seq<u8>
    recommends
        0 <= off,
{
    Seq::new(
        if off + data.len() > file.len() {
            (off + data.len()) as nat
        } else {
            file.len()
        },
        |i: int|
            if off <= i < off + data.len() {
                data[i - off]
            } else if i < file.len() {
                file[i]
            } else {
                0u8
            },
    )
}

/// `file` after appending one zero-filled block of size `bs` at the
/// first block number past the complete blocks already present.
pub open spec fn append_block(file: Seq<u8>, bs: int) -> Seq<u8>
    recommends
        bs > 0,
{
    write_at(file, block_count(file.len() as int, bs) * bs, zero_block(bs))
}

/// `file` after `k` successive zero-block appends.
pub open spec fn append_blocks(file: Seq<u8>, bs: int, k: nat) -> Seq<u8>
    recommends
        bs > 0,
    decreases k,
{
    if k == 0 {
        file
    } else {
        append_blocks(append_block(file, bs), bs, (k - 1) as nat)
    }
}

/// Filenames beginning with the literal prefix `temp` name ephemeral
/// scratch files, purged when a file manager starts up over a directory.
pub open spec fn is_temp_filename(name: Seq<char>) -> bool {
    name.len() >= 4 && name[0] == 't' && name[1] == 'e' && name[2] == 'm' && name[3] == 'p'
}

/// Whether `name` carries the ephemeral `temp` prefix.
pub fn is_temp_name(name: &str) -> (r: bool)
    ensures
        r == is_temp_filename(name@),
{
    let n = name.unicode_len();
    if n < 4 {
        return false;
    }
    name.get_char(0) == 't' && name.get_char(1) == 'e' && name.get_char(2) == 'm'
        && name.get_char(3) == 'p'
}

/// Byte offset where block `number` of a file starts.
pub fn block_offset(number: i32, block_size: u64) -> (r: u64)
    requires
        0 <= number,
        number * block_size <= u64::MAX,
    ensures
        r == block_start(number as int, block_size as int),
{
    (number as u64) * block_size
}

/// Number of complete blocks in a file of `file_size` bytes; trailing
/// partial bytes are ignored.
pub fn file_block_count(file_size: u64, block_size: u64) -> (r: u64)
    requires
        block_size > 0,
    ensures
        r == block_count(file_size as int, block_size as int),
{
    file_size / block_size
}

/// The allocation step of an append to a file currently `file_size`
/// bytes long: the address of the fresh block (the first number past
/// the complete blocks already present) and the byte offset at which
/// its zero fill is written.
pub fn plan_append(filename: &str, file_size: u64, block_size: u64) -> (r: (BlockId, u64))
    requires
        block_size > 0,
        file_size / block_size <= i32::MAX,
    ensures
        r.0.filename@ == filename@,
        r.0.number == block_count(file_size as int, block_size as int),
        r.1 == block_start(r.0.number as int, block_size as int),
{
    let number_wide = file_size / block_size;
    proof {
        lemma_fundamental_div_mod(file_size as int, block_size as int);
        lemma_mod_bound(file_size as int, block_size as int);
    }
    let pos = number_wide * block_size;
    let block_id = BlockId { filename: filename.to_owned(), number: number_wide as i32 };
    (block_id, pos)
}

/// Writing block `n` and reading block `n` back yields exactly the
/// written data, whatever the file held before.
pub proof fn lemma_block_round_trip(file: Seq<u8>, bs: int, n: int, data: Seq<u8>)
    requires
        bs > 0,
        0 <= n,
        data.len() == bs,
    ensures
        (n + 1) * bs <= write_at(file, n * bs, data).len(),
        block_data(write_at(file, n * bs, data), bs, n) == data,
{
    assert((n + 1) * bs == n * bs + bs) by (nonlinear_arith);
    assert(n * bs >= 0) by (nonlinear_arith)
        requires
            n >= 0 && bs > 0,
    ;
    assert(block_data(write_at(file, n * bs, data), bs, n) =~= data);
}

/// One append allocates the next block number and zero-fills it: the
/// fresh block gets number `block_count(file.len(), bs)`, the block
/// count grows by exactly one, and reading the fresh block yields an
/// all-zero block.
pub proof fn lemma_append_block(file: Seq<u8>, bs: int)
    requires
        bs > 0,
    ensures
        append_block(file, bs).len() == (block_count(file.len() as int, bs) + 1) * bs,
        block_count(append_block(file, bs).len() as int, bs) == block_count(
            file.len() as int,
            bs,
        ) + 1,
        block_data(append_block(file, bs), bs, block_count(file.len() as int, bs)) == zero_block(
            bs,
        ),
{
    let len = file.len() as int;
    let n = block_count(len, bs);
    lemma_fundamental_div_mod(len, bs);
    lemma_mod_bound(len, bs);
    assert((n + 1) * bs == n * bs + bs) by (nonlinear_arith);
    assert(bs * n == n * bs) by (nonlinear_arith);
    let file2 = append_block(file, bs);
    assert(file2.len() == (n + 1) * bs);
    lemma_div_multiples_vanish(n + 1, bs);
    assert(bs * (n + 1) == (n + 1) * bs) by (nonlinear_arith);
    lemma_block_round_trip(file, bs, n, zero_block(bs));
}

/// `k` successive appends grow the block count by exactly `k`.
pub proof fn lemma_append_count(file: Seq<u8>, bs: int, k: nat)
    requires
        bs > 0,
    ensures
        block_count(append_blocks(file, bs, k).len() as int, bs) == block_count(
            file.len() as int,
            bs,
        ) + k,
    decreases k,
{
    if k > 0 {
        lemma_append_block(file, bs);
        lemma_append_count(append_block(file, bs), bs, (k - 1) as nat);
    }
}

/// Sequential appends return consecutive block numbers: with no other
/// writer, the `i`-th of `k` appends (counting from zero) sees
/// `block_count(file.len(), bs) + i` complete blocks and therefore
/// allocates exactly that block number, and afterwards the file holds
/// `block_count(file.len(), bs) + k` blocks.
pub proof fn lemma_appends_sequential(file: Seq<u8>, bs: int, k: nat)
    requires
        bs > 0,
    ensures
        block_count(append_blocks(file, bs, k).len() as int, bs) == block_count(
            file.len() as int,
            bs,
        ) + k,
        forall|i: nat|
            i < k ==> block_count(#[trigger] append_blocks(file, bs, i).len() as int, bs)
                == block_count(file.len() as int, bs) + i,
{
    lemma_append_count(file, bs, k);
    assert forall|i: nat| i < k implies block_count(
        #[trigger] append_blocks(file, bs, i).len() as int,
        bs,
    ) == block_count(file.len() as int, bs) + i by {
        lemma_append_count(file, bs, i);
    }
}

/// Appending to an empty (freshly created) file returns block number 0,
/// leaves exactly one block, and that block reads back all zeros.
pub proof fn lemma_append_to_empty(bs: int)
    requires
        bs > 0,
    ensures
        block_count(0, bs) == 0,
        append_block(Seq::<u8>::empty(), bs).len() == bs,
        block_count(append_block(Seq::<u8>::empty(), bs).len() as int, bs) == 1,
        block_data(append_block(Seq::<u8>::empty(), bs), bs, 0) == zero_block(bs),
{
    lemma_append_block(Seq::<u8>::empty(), bs);
    assert(1 * bs == bs) by (nonlinear_arith);
}

} // verus!
