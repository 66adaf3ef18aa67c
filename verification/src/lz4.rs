//! LZ4 blocks with a size in front, by the crate `lz4_flex`.

use crate::bytes;
use vstd::prelude::*;
use vstd::string::*;

verus! {

/// What `lz4_flex::decompress_size_prepended` returns: the decompressed bytes, or the text of the
/// error.
pub uninterp spec fn lz4_decompressed(data: Seq<u8>) -> Result<Seq<u8>, Seq<char>>;

/// The size that the first four bytes announce; nothing where there are fewer.
pub open spec fn announced_size(data: Seq<u8>) -> int {
    if data.len() < 4 {
        0
    } else {
        bytes::at32(data, 0) as int
    }
}

/// How many bytes of 255 stand at the end.
pub open spec fn run_at_end(data: Seq<u8>) -> nat
    decreases data.len(),
{
    if data.len() > 0 && data.last() == 255 {
        run_at_end(data.drop_last()) + 1
    } else {
        0
    }
}

/// How many bytes of 255 stand side by side at most.
pub open spec fn longest_run(data: Seq<u8>) -> nat
    decreases data.len(),
{
    if data.len() == 0 {
        0
    } else if run_at_end(data) > longest_run(data.drop_last()) {
        run_at_end(data)
    } else {
        longest_run(data.drop_last())
    }
}

/// The largest number that the bytes can spell as a length: all bytes of 255 that stand side by side
/// are added up, and one byte more.
pub open spec fn largest_length(data: Seq<u8>) -> nat {
    255 * longest_run(data) + 254
}

/// Whether the numbers that come up while `data` is decompressed fit their machine types: a length
/// is added up in 32 bits, and is then added to a place in the output.
pub open spec fn decompressible(data: Seq<u8>) -> bool {
    &&& largest_length(data) <= u32::MAX
    &&& largest_length(data) + announced_size(data) + 19 <= usize::MAX
    &&& announced_size(data) <= isize::MAX
}

/// Whether `data` can stand for `input` in compressed form: it announces the size of `input`, is
/// not much longer, and decompresses to it.
pub open spec fn compresses(input: Seq<u8>, data: Seq<u8>) -> bool {
    &&& 5 <= data.len() <= 24 + input.len() * 110 / 100
    &&& input.len() <= u32::MAX ==> {
        &&& announced_size(data) == input.len()
        &&& lz4_decompressed(data) == Ok::<Seq<u8>, Seq<char>>(input)
    }
}

/// Calls `lz4_flex::compress_prepend_size`: the length of the input in four bytes, then a block
/// that `decompress_size_prepended` turns into the input again. The output has a byte of the block
/// at least, and at most the room that the function sets aside, `get_maximum_output_size` and four
/// bytes. An input above 32 bits of length loses high bits of its length, so nothing is said of how
/// its output decompresses. Which of the many blocks for an input comes out depends on the word
/// size of the machine, and is left unsaid.
///
/// The function computes 110 times the length of the input in a `usize`.
#[verifier::external_body]
pub(crate) fn compress_prepend_size(input: &[u8]) -> (data: Vec<u8>)
    requires
        input@.len() * 110 <= usize::MAX,
    ensures
        compresses(input@, data@),
{
    lz4_flex::compress_prepend_size(input)
}

/// Calls `lz4_flex::decompress_size_prepended`, with the error as the text that its `Display` gives.
/// What comes back depends on the bytes alone.
#[verifier::external_body]
pub(crate) fn decompress_size_prepended(data: &[u8]) -> (decompressed: Result<Vec<u8>, String>)
    requires
        decompressible(data@),
    ensures
        match decompressed {
            Ok(bytes) => lz4_decompressed(data@) == Ok::<Seq<u8>, Seq<char>>(bytes@),
            Err(text) => lz4_decompressed(data@) == Err::<Seq<u8>, Seq<char>>(text@),
        },
{
    lz4_flex::decompress_size_prepended(data).map_err(|e| e.to_string())
}

/// Whether `data` meets what [`decompress_size_prepended`] asks for.
pub fn is_decompressible(data: &[u8]) -> (yes: bool)
    ensures
        yes == decompressible(data@),
{
    let mut run: usize = 0;
    let mut longest: usize = 0;
    let mut i: usize = 0;
    while i < data.len()
        invariant
            i <= data@.len(),
            run <= i,
            longest <= i,
            run == run_at_end(data@.take(i as int)),
            longest == longest_run(data@.take(i as int)),
        decreases data@.len() - i,
    {
        proof {
            assert(data@.take(i + 1).drop_last() =~= data@.take(i as int));
            assert(data@.take(i + 1).last() == data@[i as int]);
        }
        if data[i] == 255 {
            run += 1;
        } else {
            run = 0;
        }
        if run > longest {
            longest = run;
        }
        i += 1;
    }
    assert(data@.take(data@.len() as int) =~= data@);
    let announced: u64 = if data.len() < 4 {
        0
    } else {
        bytes::read32(data, 0) as u64
    };
    if longest > 16843008 {
        return false;
    }
    let length: u64 = 255 * longest as u64 + 254;
    length <= u32::MAX as u64 && length + announced + 19 <= usize::MAX as u64 && announced
        <= isize::MAX as u64
}

/// The length up to which an input may hold anything and its compressed form is decompressible.
pub const ORDINARY_LENGTH: u32 = 15_000_000;

/// What an input of ordinary length was compressed to is decompressible on every machine.
pub proof fn law_ordinary_input_is_decompressible(input: Seq<u8>, data: Seq<u8>)
    requires
        compresses(input, data),
        input.len() <= ORDINARY_LENGTH,
    ensures
        decompressible(data),
{
    law_runs_are_within_data(data);
}

/// What is not longer than 16 MB has lengths that fit in 32 bits, whatever it holds.
pub proof fn law_runs_are_within_data(data: Seq<u8>)
    ensures
        run_at_end(data) <= data.len(),
        longest_run(data) <= data.len(),
        data.len() <= 16843008 ==> largest_length(data) <= u32::MAX,
    decreases data.len(),
{
    if data.len() > 0 {
        law_runs_are_within_data(data.drop_last());
    }
}

} // verus!
