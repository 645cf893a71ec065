//! Byte-level edits of machine words.
//!
//! The tracing interface of the operating system moves whole words, while a
//! breakpoint replaces a single byte of code. The functions here take one byte
//! out of a word and put one byte into a word; `Memory` is the model of a
//! process image against which their effect is stated.

use crate::utils::{byte_offset, lemma_word_of, word_bytes, word_start};
use vstd::prelude::*;

verus! {

/// The byte of `word` at `index`, counted from the least significant byte.
pub open spec fn word_byte(word: u64, index: int) -> u8 {
    ((word >> ((8 * index) as u64)) & 0xff) as u8
}

/// `word` with the byte at `index` replaced by `value`.
pub open spec fn word_with_byte(word: u64, index: int, value: u8) -> u64 {
    (word & !(0xffu64 << ((8 * index) as u64))) | ((value as u64) << ((8 * index) as u64))
}

/// Replacing a byte changes that byte and no other.
pub proof fn lemma_word_with_byte(word: u64, index: int, value: u8, other: int)
    requires
        0 <= index < 8,
        0 <= other < 8,
    ensures
        word_byte(word_with_byte(word, index, value), other) == if other == index {
            value
        } else {
            word_byte(word, other)
        },
{
    let i: u64 = (8 * index) as u64;
    let j: u64 = (8 * other) as u64;
    assert(i == 0 || i == 8 || i == 16 || i == 24 || i == 32 || i == 40 || i == 48 || i == 56);
    assert(j == 0 || j == 8 || j == 16 || j == 24 || j == 32 || j == 40 || j == 48 || j == 56);
    let patched: u64 = (word & !(0xffu64 << i)) | ((value as u64) << i);
    assert((((patched >> j) & 0xff) as u8) == (if j == i {
        value
    } else {
        ((word >> j) & 0xff) as u8
    })) by (bit_vector)
        requires
            patched == (word & !(0xffu64 << i)) | ((value as u64) << i),
            i == 0 || i == 8 || i == 16 || i == 24 || i == 32 || i == 40 || i == 48 || i == 56,
            j == 0 || j == 8 || j == 16 || j == 24 || j == 32 || j == 40 || j == 48 || j == 56,
    ;
}

/// A word is determined by its eight bytes.
pub proof fn lemma_word_by_bytes(a: u64, b: u64)
    requires
        forall|k: int| 0 <= k < 8 ==> word_byte(a, k) == word_byte(b, k),
    ensures
        a == b,
{
    assert(word_byte(a, 0) == word_byte(b, 0));
    assert(word_byte(a, 1) == word_byte(b, 1));
    assert(word_byte(a, 2) == word_byte(b, 2));
    assert(word_byte(a, 3) == word_byte(b, 3));
    assert(word_byte(a, 4) == word_byte(b, 4));
    assert(word_byte(a, 5) == word_byte(b, 5));
    assert(word_byte(a, 6) == word_byte(b, 6));
    assert(word_byte(a, 7) == word_byte(b, 7));
    assert(a == b) by (bit_vector)
        requires
            ((a >> 0u64) & 0xff) as u8 == ((b >> 0u64) & 0xff) as u8,
            ((a >> 8u64) & 0xff) as u8 == ((b >> 8u64) & 0xff) as u8,
            ((a >> 16u64) & 0xff) as u8 == ((b >> 16u64) & 0xff) as u8,
            ((a >> 24u64) & 0xff) as u8 == ((b >> 24u64) & 0xff) as u8,
            ((a >> 32u64) & 0xff) as u8 == ((b >> 32u64) & 0xff) as u8,
            ((a >> 40u64) & 0xff) as u8 == ((b >> 40u64) & 0xff) as u8,
            ((a >> 48u64) & 0xff) as u8 == ((b >> 48u64) & 0xff) as u8,
            ((a >> 56u64) & 0xff) as u8 == ((b >> 56u64) & 0xff) as u8,
    ;
}

/// Takes the byte at `offset` out of `word`.
pub fn extract_byte(word: u64, offset: usize) -> (byte: u8)
    requires
        offset < 8,
    ensures
        byte == word_byte(word, offset as int),
{
    let shift: u64 = 8 * (offset as u64);
    ((word >> shift) & 0xff) as u8
}

/// Puts `value` into `word` at `offset` and leaves the other bytes as they are.
pub fn replace_byte(word: u64, offset: usize, value: u8) -> (patched: u64)
    requires
        offset < 8,
    ensures
        patched == word_with_byte(word, offset as int, value),
        forall|k: int|
            0 <= k < 8 ==> #[trigger] word_byte(patched, k) == if k == offset {
                value
            } else {
                word_byte(word, k)
            },
{
    let shift: u64 = 8 * (offset as u64);
    assert(shift < 64);
    let masked: u64 = word & !(0xffu64 << shift);
    let patched: u64 = masked | ((value as u64) << shift);
    proof {
        assert forall|k: int| 0 <= k < 8 implies #[trigger] word_byte(patched, k) == if k
            == offset {
            value
        } else {
            word_byte(word, k)
        } by {
            lemma_word_with_byte(word, offset as int, value, k);
        }
    }
    patched
}

/// Whether the `count` bytes from `start` on are all in `memory`.
pub open spec fn mapped(memory: Map<int, u8>, start: int, count: int) -> bool {
    forall|k: int| 0 <= k < count ==> memory.dom().contains(#[trigger] (start + k))
}

/// Whether `word` is what reading one machine word at `start` gives from
/// `memory`: its bytes are those of the memory, the lowest address first.
pub open spec fn reads(memory: Map<int, u8>, start: int, word: u64) -> bool {
    forall|k: int| 0 <= k < word_bytes() ==> #[trigger] word_byte(word, k) == memory[start + k]
}

/// `memory` after the machine word `word` was written at `start`.
pub open spec fn written(memory: Map<int, u8>, start: int, word: u64) -> Map<int, u8> {
    Map::new(
        |a: int| memory.dom().contains(a) || start <= a < start + word_bytes(),
        |a: int|
            if start <= a < start + word_bytes() {
                word_byte(word, a - start)
            } else {
                memory[a]
            },
    )
}

/// The word whose eight bytes are those of `memory` from `start` on.
pub open spec fn word_at(memory: Map<int, u8>, start: int) -> u64 {
    (memory[start] as u64) | (memory[start + 1] as u64) << 8 | (memory[start + 2] as u64) << 16 | (
    memory[start + 3] as u64) << 24 | (memory[start + 4] as u64) << 32 | (memory[start
        + 5] as u64) << 40 | (memory[start + 6] as u64) << 48 | (memory[start + 7] as u64) << 56
}

/// `word_at` is a faithful read.
pub proof fn lemma_word_at(memory: Map<int, u8>, start: int)
    ensures
        reads(memory, start, word_at(memory, start)),
        forall|k: int| 0 <= k < 8 ==> #[trigger] word_byte(word_at(memory, start), k) == memory[start + k],
{
    let b0 = memory[start];
    let b1 = memory[start + 1];
    let b2 = memory[start + 2];
    let b3 = memory[start + 3];
    let b4 = memory[start + 4];
    let b5 = memory[start + 5];
    let b6 = memory[start + 6];
    let b7 = memory[start + 7];
    let w = word_at(memory, start);
    assert(w == (b0 as u64) | (b1 as u64) << 8 | (b2 as u64) << 16 | (b3 as u64) << 24 | (
    b4 as u64) << 32 | (b5 as u64) << 40 | (b6 as u64) << 48 | (b7 as u64) << 56);
    assert(((w >> 0u64) & 0xff) as u8 == b0 && ((w >> 8u64) & 0xff) as u8 == b1 && ((w >> 16u64)
        & 0xff) as u8 == b2 && ((w >> 24u64) & 0xff) as u8 == b3 && ((w >> 32u64) & 0xff) as u8
        == b4 && ((w >> 40u64) & 0xff) as u8 == b5 && ((w >> 48u64) & 0xff) as u8 == b6 && ((w
        >> 56u64) & 0xff) as u8 == b7) by (bit_vector)
        requires
            w == (b0 as u64) | (b1 as u64) << 8 | (b2 as u64) << 16 | (b3 as u64) << 24 | (
            b4 as u64) << 32 | (b5 as u64) << 40 | (b6 as u64) << 48 | (b7 as u64) << 56,
    ;
    assert forall|k: int| 0 <= k < 8 implies #[trigger] word_byte(w, k) == memory[start + k] by {
        assert(k == 0 || k == 1 || k == 2 || k == 3 || k == 4 || k == 5 || k == 6 || k == 7);
    }
}

/// Replacing one byte through a whole word changes that byte of the memory
/// and no other: if `word` was read from the word that holds `addr`, then
/// the byte taken out of it is the byte at `addr`, and writing the word back
/// with `value` put in leaves the memory as it was but for `value` at `addr`.
pub proof fn lemma_write_byte(memory: Map<int, u8>, addr: usize, value: u8, word: u64)
    requires
        mapped(memory, word_start(addr) as int, word_bytes()),
        reads(memory, word_start(addr) as int, word),
    ensures
        word_byte(word, byte_offset(addr)) == memory[addr as int],
        written(
            memory,
            word_start(addr) as int,
            word_with_byte(word, byte_offset(addr), value),
        ) == memory.insert(addr as int, value),
{
    let start = word_start(addr) as int;
    let offset = byte_offset(addr);
    lemma_word_of(addr);
    assert(0 <= offset < word_bytes() <= 8);
    assert(start + offset == addr);
    let patched = word_with_byte(word, offset, value);
    let after = written(memory, start, patched);
    assert forall|a: int| after.dom().contains(a) <==> memory.insert(
        addr as int,
        value,
    ).dom().contains(a) by {
        if start <= a < start + word_bytes() {
            assert(a == start + (a - start));
        }
    }
    assert forall|a: int| #[trigger] after.dom().contains(a) implies after[a] == memory.insert(
        addr as int,
        value,
    )[a] by {
        if start <= a < start + word_bytes() {
            lemma_word_with_byte(word, offset, value, a - start);
            assert(a == start + (a - start));
        }
    }
    assert(after =~= memory.insert(addr as int, value));
}

} // verus!
