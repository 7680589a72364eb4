//! SPIR-V artifact access and format-level validation.
//!
//! Executable modules are produced by `slangc` from descriptor Slang source.
//! This module only contains format-level helpers for inspecting those words.
use vstd::prelude::*;

verus! {

pub const MAGIC: u32 = 0x0723_0203;

/// Word count encoded in the high half of an instruction's first word.
pub open spec fn word_count(instruction: u32) -> u32 {
    instruction >> 16u32
}

/// Opcode encoded in the low half of an instruction's first word.
pub open spec fn opcode(instruction: u32) -> u32 {
    instruction & 0xffffu32
}

/// `depth + 1`, saturating at `u32::MAX`.
pub open spec fn saturating_inc(depth: u32) -> u32 {
    if depth == u32::MAX { depth } else { (depth + 1) as u32 }
}

/// The verdict on the instruction stream from word `offset` on, given what the
/// earlier instructions established: `None` when the module is well formed,
/// otherwise the reason it is not.
pub open spec fn scan_instructions(
    words: Seq<u32>,
    offset: int,
    has_memory_model: bool,
    has_entry_point: bool,
    function_depth: u32,
) -> Option<Seq<char>>
    decreases words.len() - offset,
{
    if offset < 0 || offset >= words.len() {
        if !has_memory_model {
            Some("SPIR-V module has no memory model"@)
        } else if !has_entry_point {
            Some("SPIR-V module has no entry point"@)
        } else if function_depth != 0 {
            Some("SPIR-V function is not terminated"@)
        } else {
            None
        }
    } else {
        let instruction = words[offset];
        let count = word_count(instruction) as int;
        let op = opcode(instruction);
        if count == 0 {
            Some("SPIR-V instruction has zero word count"@)
        } else if offset + count > words.len() {
            Some("SPIR-V instruction extends beyond the module"@)
        } else if op == 56 && function_depth == 0 {
            Some("OpFunctionEnd appears outside a function"@)
        } else {
            scan_instructions(
                words,
                offset + count,
                has_memory_model || op == 14,
                has_entry_point || op == 15,
                if op == 54 {
                    saturating_inc(function_depth)
                } else if op == 56 {
                    (function_depth - 1) as u32
                } else {
                    function_depth
                },
            )
        }
    }
}

/// Format-level verdict on a SPIR-V module: `None` when its header is valid
/// and its instruction stream is well formed, otherwise the reason.
pub open spec fn spirv_structure_error(words: Seq<u32>) -> Option<Seq<char>> {
    if words.len() < 5 {
        Some("SPIR-V module is shorter than its header"@)
    } else if words[0] != MAGIC {
        Some("invalid SPIR-V magic number"@)
    } else if words[3] == 0 {
        Some("SPIR-V ID bound must be greater than zero"@)
    } else if words[4] != 0 {
        Some("reserved SPIR-V schema word must be zero"@)
    } else {
        scan_instructions(words, 5, false, false, 0)
    }
}

/// Walking the instruction stream from word `from`, word `o` starts an
/// instruction: every instruction passed on the way has a non-zero word count
/// and ends no later than `o`.
pub open spec fn instruction_start(words: Seq<u32>, from: int, o: int) -> bool
    decreases o - from,
{
    if o == from {
        true
    } else if 0 <= from < o && from < words.len() && words[from] >> 16u32 > 0 && from + (words[from] >> 16u32) <= o {
        instruction_start(words, from + (words[from] >> 16u32), o)
    } else {
        false
    }
}

proof fn lemma_start_step(words: Seq<u32>, from: int, o: int)
    requires
        0 <= from,
        instruction_start(words, from, o),
        0 <= o < words.len(),
        words[o] >> 16u32 > 0,
    ensures
        instruction_start(words, from, o + (words[o] >> 16u32)),
    decreases o - from,
{
    if o == from {
        assert(instruction_start(words, from + (words[from] >> 16u32), o + (words[o] >> 16u32)));
    } else {
        lemma_start_step(words, from + (words[from] >> 16u32), o);
    }
}

proof fn lemma_scan_finds(words: Seq<u32>, off: int, mm: bool, ep: bool, depth: u32, op: u32)
    requires
        5 <= off,
        instruction_start(words, 5, off),
        scan_instructions(words, off, mm, ep, depth) is None,
        (op == 14 && !mm) || (op == 15 && !ep),
    ensures
        exists|o: int| instruction_start(words, 5, o) && 0 <= o < words.len() && #[trigger] (words[o] & 0xffffu32) == op,
    decreases words.len() - off,
{
    if off < words.len() {
        let instruction = words[off];
        let count = (instruction >> 16u32) as int;
        if (instruction & 0xffffu32) == op {
            assert(instruction_start(words, 5, off) && 0 <= off < words.len() && (words[off] & 0xffffu32) == op);
        } else {
            lemma_start_step(words, 5, off);
            lemma_scan_finds(
                words,
                off + count,
                mm || opcode(instruction) == 14,
                ep || opcode(instruction) == 15,
                if opcode(instruction) == 54 {
                    saturating_inc(depth)
                } else if opcode(instruction) == 56 {
                    (depth - 1) as u32
                } else {
                    depth
                },
                op,
            );
        }
    }
}

proof fn lemma_scan_tiles(words: Seq<u32>, off: int, mm: bool, ep: bool, depth: u32)
    requires
        5 <= off <= words.len(),
        instruction_start(words, 5, off),
        scan_instructions(words, off, mm, ep, depth) is None,
    ensures
        instruction_start(words, 5, words.len() as int),
    decreases words.len() - off,
{
    if off < words.len() {
        let instruction = words[off];
        lemma_start_step(words, 5, off);
        lemma_scan_tiles(
            words,
            off + (instruction >> 16u32),
            mm || opcode(instruction) == 14,
            ep || opcode(instruction) == 15,
            if opcode(instruction) == 54 {
                saturating_inc(depth)
            } else if opcode(instruction) == 56 {
                (depth - 1) as u32
            } else {
                depth
            },
        );
    }
}

/// The instructions of a module that passes the format checks tile the words
/// after its header: walking them by their word counts, none of which is
/// zero, ends exactly at the module's last word.
pub proof fn lemma_valid_module_tiles(words: Seq<u32>)
    requires
        spirv_structure_error(words) is None,
    ensures
        instruction_start(words, 5, words.len() as int),
{
    if words.len() >= 5 {
        lemma_scan_tiles(words, 5, false, false, 0);
    }
}

/// A module that passes the format checks has a header with the SPIR-V magic
/// number, a non-zero ID bound and a zero schema word, and among the
/// instructions that follow it an `OpMemoryModel` (opcode 14) and an
/// `OpEntryPoint` (opcode 15).
pub proof fn lemma_valid_module_declares(words: Seq<u32>)
    requires
        spirv_structure_error(words) is None,
    ensures
        words.len() >= 5 && words[0] == MAGIC && words[3] != 0 && words[4] == 0,
        exists|o: int| instruction_start(words, 5, o) && 0 <= o < words.len() && #[trigger] (words[o] & 0xffffu32) == 14,
        exists|o: int| instruction_start(words, 5, o) && 0 <= o < words.len() && #[trigger] (words[o] & 0xffffu32) == 15,
{
    lemma_scan_finds(words, 5, false, false, 0, 14);
    lemma_scan_finds(words, 5, false, false, 0, 15);
}

/// Performs format-level checks without requiring SPIRV-Tools or a GPU driver.
/// Semantic validation remains the responsibility of `spirv-val` and the
/// target API.
pub fn validate_structure(words: &[u32]) -> (r: Result<(), &'static str>)
    ensures
        match r {
            Ok(()) => spirv_structure_error(words@) is None,
            Err(reason) => spirv_structure_error(words@) == Some(reason@),
        },
{
    if words.len() < 5 {
        let reason = "SPIR-V module is shorter than its header";
        proof {
            reveal_strlit("SPIR-V module is shorter than its header");
        }
        return Err(reason);
    }
    if words[0] != MAGIC {
        return Err("invalid SPIR-V magic number");
    }
    if words[3] == 0 {
        return Err("SPIR-V ID bound must be greater than zero");
    }
    if words[4] != 0 {
        return Err("reserved SPIR-V schema word must be zero");
    }
    let mut offset: usize = 5;
    let mut has_memory_model = false;
    let mut has_entry_point = false;
    let mut function_depth: u32 = 0;
    while offset < words.len()
        invariant
            5 <= offset <= words@.len(),
            words@.len() >= 5,
            spirv_structure_error(words@) == scan_instructions(
                words@,
                offset as int,
                has_memory_model,
                has_entry_point,
                function_depth,
            ),
        decreases words@.len() - offset,
    {
        let instruction = words[offset];
        let count = (instruction >> 16u32) as usize;
        let op = instruction & 0xffffu32;
        if count == 0 {
            return Err("SPIR-V instruction has zero word count");
        }
        if count > words.len() - offset {
            return Err("SPIR-V instruction extends beyond the module");
        }
        if op == 14 {
            has_memory_model = true;
        } else if op == 15 {
            has_entry_point = true;
        } else if op == 54 {
            function_depth = function_depth.saturating_add(1);
        } else if op == 56 {
            if function_depth == 0 {
                return Err("OpFunctionEnd appears outside a function");
            }
            function_depth = function_depth - 1;
        }
        offset = offset + count;
    }
    if !has_memory_model {
        return Err("SPIR-V module has no memory model");
    }
    if !has_entry_point {
        return Err("SPIR-V module has no entry point");
    }
    if function_depth != 0 {
        return Err("SPIR-V function is not terminated");
    }
    Ok(())
}

/// The four little-endian bytes of one word.
pub open spec fn word_le_bytes(word: u32) -> Seq<u8> {
    seq![
        (word & 0xffu32) as u8,
        ((word >> 8u32) & 0xffu32) as u8,
        ((word >> 16u32) & 0xffu32) as u8,
        ((word >> 24u32) & 0xffu32) as u8,
    ]
}

/// The word whose little-endian bytes are `b0, b1, b2, b3`.
pub open spec fn word_from_le_bytes(b0: u8, b1: u8, b2: u8, b3: u8) -> u32 {
    (b0 as u32) | ((b1 as u32) << 8u32) | ((b2 as u32) << 16u32) | ((b3 as u32) << 24u32)
}

/// Concatenated little-endian bytes of a word sequence.
pub open spec fn words_le_bytes(words: Seq<u32>) -> Seq<u8>
    decreases words.len(),
{
    if words.len() == 0 {
        Seq::empty()
    } else {
        words_le_bytes(words.drop_last()) + word_le_bytes(words.last())
    }
}

/// Words decoded from consecutive little-endian groups of four bytes.
pub open spec fn words_from_le_bytes(bytes: Seq<u8>) -> Seq<u32> {
    Seq::new(
        bytes.len() / 4,
        |i: int| word_from_le_bytes(bytes[4 * i], bytes[4 * i + 1], bytes[4 * i + 2], bytes[4 * i + 3]),
    )
}

pub proof fn lemma_words_le_bytes_len(words: Seq<u32>)
    ensures
        words_le_bytes(words).len() == 4 * words.len(),
    decreases words.len(),
{
    if words.len() > 0 {
        lemma_words_le_bytes_len(words.drop_last());
    }
}

proof fn lemma_words_le_bytes_index(words: Seq<u32>, i: int, k: int)
    requires
        0 <= i < words.len(),
        0 <= k < 4,
    ensures
        words_le_bytes(words)[4 * i + k] == word_le_bytes(words[i])[k],
    decreases words.len(),
{
    lemma_words_le_bytes_len(words.drop_last());
    if i < words.len() - 1 {
        lemma_words_le_bytes_index(words.drop_last(), i, k);
    }
}

proof fn lemma_word_round_trip(word: u32)
    ensures
        word_from_le_bytes(
            word_le_bytes(word)[0],
            word_le_bytes(word)[1],
            word_le_bytes(word)[2],
            word_le_bytes(word)[3],
        ) == word,
{
    let b0 = (word & 0xffu32) as u8;
    let b1 = ((word >> 8u32) & 0xffu32) as u8;
    let b2 = ((word >> 16u32) & 0xffu32) as u8;
    let b3 = ((word >> 24u32) & 0xffu32) as u8;
    assert(((b0 as u32) | ((b1 as u32) << 8u32) | ((b2 as u32) << 16u32) | ((b3 as u32) << 24u32)) == word) by (bit_vector)
        requires
            b0 == (word & 0xffu32) as u8,
            b1 == ((word >> 8u32) & 0xffu32) as u8,
            b2 == ((word >> 16u32) & 0xffu32) as u8,
            b3 == ((word >> 24u32) & 0xffu32) as u8;
}

/// Decoding the little-endian bytes of a word sequence gives back the words.
pub proof fn lemma_le_bytes_round_trip(words: Seq<u32>)
    ensures
        words_le_bytes(words).len() % 4 == 0,
        words_from_le_bytes(words_le_bytes(words)) =~= words,
{
    lemma_words_le_bytes_len(words);
    let bytes = words_le_bytes(words);
    assert(bytes.len() / 4 == words.len()) by (nonlinear_arith)
        requires bytes.len() == 4 * words.len();
    assert(bytes.len() % 4 == 0) by (nonlinear_arith)
        requires bytes.len() == 4 * words.len();
    assert forall|i: int| 0 <= i < words.len() implies #[trigger] words_from_le_bytes(bytes)[i] == words[i] by {
        lemma_words_le_bytes_index(words, i, 0);
        lemma_words_le_bytes_index(words, i, 1);
        lemma_words_le_bytes_index(words, i, 2);
        lemma_words_le_bytes_index(words, i, 3);
        lemma_word_round_trip(words[i]);
    }
}

proof fn lemma_bytes_round_trip(b0: u8, b1: u8, b2: u8, b3: u8)
    ensures
        word_le_bytes(word_from_le_bytes(b0, b1, b2, b3)) =~= seq![b0, b1, b2, b3],
{
    let w = word_from_le_bytes(b0, b1, b2, b3);
    assert((w & 0xffu32) as u8 == b0 && ((w >> 8u32) & 0xffu32) as u8 == b1 && ((w >> 16u32) & 0xffu32) as u8 == b2
        && ((w >> 24u32) & 0xffu32) as u8 == b3) by (bit_vector)
        requires
            w == (b0 as u32) | ((b1 as u32) << 8u32) | ((b2 as u32) << 16u32) | ((b3 as u32) << 24u32);
}

/// Encoding the words that a byte image decodes to gives back the image: a
/// byte image whose length is a multiple of four loses nothing when read as
/// little-endian words.
pub proof fn lemma_le_words_round_trip(bytes: Seq<u8>)
    requires
        bytes.len() % 4 == 0,
    ensures
        words_le_bytes(words_from_le_bytes(bytes)) =~= bytes,
{
    let words = words_from_le_bytes(bytes);
    lemma_words_le_bytes_len(words);
    assert(4 * (bytes.len() / 4) == bytes.len());
    assert forall|j: int| 0 <= j < bytes.len() implies #[trigger] words_le_bytes(words)[j] == bytes[j] by {
        let i = j / 4;
        let k = j % 4;
        assert(j == 4 * i + k);
        lemma_words_le_bytes_index(words, i, k);
        lemma_bytes_round_trip(bytes[4 * i], bytes[4 * i + 1], bytes[4 * i + 2], bytes[4 * i + 3]);
    }
}

/// The little-endian byte image of a word sequence.
pub fn words_as_le_bytes(words: &[u32]) -> (r: Vec<u8>)
    requires
        4 * words@.len() <= usize::MAX,
    ensures
        r@ == words_le_bytes(words@),
{
    let mut bytes: Vec<u8> = Vec::new();
    let mut index: usize = 0;
    while index < words.len()
        invariant
            index <= words@.len(),
            bytes@ == words_le_bytes(words@.subrange(0, index as int)),
        decreases words@.len() - index,
    {
        let word = words[index];
        bytes.push((word & 0xffu32) as u8);
        bytes.push(((word >> 8u32) & 0xffu32) as u8);
        bytes.push(((word >> 16u32) & 0xffu32) as u8);
        bytes.push(((word >> 24u32) & 0xffu32) as u8);
        proof {
            let next = words@.subrange(0, index + 1);
            assert(next.drop_last() =~= words@.subrange(0, index as int));
            assert(bytes@ =~= words_le_bytes(next));
        }
        index = index + 1;
    }
    assert(words@.subrange(0, words@.len() as int) =~= words@);
    bytes
}

} // verus!
