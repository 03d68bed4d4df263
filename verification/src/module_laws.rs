//! What holds of shader modules: their words, the names in them and what
//! renaming an entry point does to each instruction.

use vstd::prelude::*;

use crate::spirv;
use crate::spirv::{Renaming, SpirvError};

verus! {

// ---------------------------------------------------------------------------
// Words

/// A word is the sum of its bytes, each worth 256 times the one before it.
pub proof fn law_words_are_little_endian(word: u32, b0: u8, b1: u8, b2: u8, b3: u8)
    ensures
        word == spirv::word_byte(word, 0) + 256 * spirv::word_byte(word, 1) + 65536
            * spirv::word_byte(word, 2) + 16777216 * spirv::word_byte(word, 3),
        spirv::le_word(b0, b1, b2, b3) == b0 + 256 * b1 + 65536 * b2 + 16777216 * b3,
{
    let upper = word as int / 256;
    assert(word == 256 * upper + word % 256);
    assert(upper == 256 * (upper / 256) + upper % 256);
    assert(upper / 256 == word as int / 65536);
    let top = word as int / 65536;
    assert(top == 256 * (top / 256) + top % 256);
    assert(top / 256 == word as int / 16777216);
}

/// Words lie one behind the other, four bytes each; what is left over at the
/// end of a byte string makes no word.
pub proof fn law_words_lie_in_order(bytes: Seq<u8>, words: Seq<u32>, i: int, k: int)
    requires
        0 <= k < 4,
    ensures
        4 * spirv::words_of(bytes).len() <= bytes.len() < 4 * spirv::words_of(bytes).len() + 4,
        0 <= i < spirv::words_of(bytes).len() ==> spirv::words_of(bytes)[i] == bytes[4 * i] + 256
            * bytes[4 * i + 1] + 65536 * bytes[4 * i + 2] + 16777216 * bytes[4 * i + 3],
        spirv::bytes_of(words).len() == 4 * words.len(),
        0 <= i < words.len() ==> spirv::bytes_of(words)[4 * i + k] == spirv::word_byte(words[i], k),
{
    if 0 <= i < words.len() {
        assert((4 * i + k) / 4 == i && (4 * i + k) % 4 == k);
    }
}

// ---------------------------------------------------------------------------
// Literals

/// A literal is its bytes, followed by at least one and at most four zeros, up
/// to a whole word.
pub proof fn law_literals_are_padded(bytes: Seq<u8>, i: int)
    ensures
        spirv::padded(bytes).len() % 4 == 0,
        bytes.len() + 1 <= spirv::padded(bytes).len() <= bytes.len() + 4,
        0 <= i < bytes.len() ==> spirv::padded(bytes)[i] == bytes[i],
        bytes.len() <= i < spirv::padded(bytes).len() ==> spirv::padded(bytes)[i] == 0,
        spirv::bytes_of(spirv::literal_words(bytes)) == spirv::padded(bytes),
{
    spirv::law_bytes_survive_parsing(spirv::padded(bytes));
}

/// The bytes of a literal are those before its first zero byte, wherever in a
/// word that lies.
pub proof fn law_literals_end_at_the_first_zero(words: Seq<u32>, n: int)
    requires
        0 <= n < 4 * words.len(),
        spirv::bytes_of(words)[n] == 0,
        forall|i: int| 0 <= i < n ==> #[trigger] spirv::bytes_of(words)[i] != 0,
    ensures
        spirv::literal_bytes(words) == Some(spirv::bytes_of(words).take(n)),
        spirv::literal_bytes(words) matches Some(name) && name.len() == n,
{
    spirv::lemma_first_nul_at(spirv::bytes_of(words), n);
}

/// Without a zero byte there is no literal.
pub proof fn law_literals_have_a_zero(words: Seq<u32>)
    requires
        forall|i: int| 0 <= i < 4 * words.len() ==> #[trigger] spirv::bytes_of(words)[i] != 0,
    ensures
        spirv::literal_bytes(words) is None,
{
    spirv::lemma_first_nul_none(spirv::bytes_of(words));
}

/// A literal takes up the words up to and with the first one that has a zero
/// byte.
pub proof fn law_literals_take_whole_words(words: Seq<u32>, n: int, k: int)
    requires
        0 <= n < words.len(),
        0 <= k < 4,
        spirv::word_byte(words[n], k) == 0,
        forall|i: int, j: int|
            0 <= i < n && 0 <= j < 4 ==> #[trigger] spirv::word_byte(words[i], j) != 0,
    ensures
        spirv::literal_len(words) == Some((n + 1) as nat),
{
    assert(spirv::has_nul(words[n]));
    assert forall|i: int| 0 <= i < n implies !spirv::has_nul(#[trigger] words[i]) by {
        if spirv::has_nul(words[i]) {
            let j = choose|j: int| 0 <= j < 4 && #[trigger] spirv::word_byte(words[i], j) == 0;
            assert(spirv::word_byte(words[i], j) != 0);
        }
    }
    spirv::lemma_literal_len_at(words, n);
}

/// Words without a zero byte hold no end of a literal.
pub proof fn law_unterminated_literals_have_no_length(words: Seq<u32>)
    requires
        forall|i: int, j: int|
            0 <= i < words.len() && 0 <= j < 4 ==> #[trigger] spirv::word_byte(words[i], j) != 0,
    ensures
        spirv::literal_len(words) is None,
{
    assert forall|i: int| 0 <= i < words.len() implies !spirv::has_nul(#[trigger] words[i]) by {
        if spirv::has_nul(words[i]) {
            let j = choose|j: int| 0 <= j < 4 && #[trigger] spirv::word_byte(words[i], j) == 0;
            assert(spirv::word_byte(words[i], j) != 0);
        }
    }
    spirv::lemma_literal_len_none(words);
}

// ---------------------------------------------------------------------------
// Instructions

/// An instruction's first word has its length above its opcode, sixteen bits
/// each.
pub proof fn law_first_words_pack_length_and_opcode(first: u32, len: nat, code: u32)
    ensures
        65536 * spirv::instruction_len(first) + spirv::opcode(first) == first,
        spirv::opcode(first) < 65536,
        len < 65536 && code < 65536 && first == 65536 * len + code ==> spirv::instruction_len(first)
            == len && spirv::opcode(first) == code,
        len < 65536 ==> spirv::instruction_len(spirv::entry_point_first(len)) == len,
        spirv::opcode(spirv::entry_point_first(len)) == 15,
{
}

/// An entry point is an instruction with opcode 15 that is long enough to hold
/// a name behind its model and its function.
pub proof fn law_entry_points_hold_a_name(instruction: Seq<u32>)
    requires
        instruction.len() > 0,
    ensures
        instruction[0] % 65536 != 15 ==> !spirv::names_entry_point(instruction),
        instruction.len() <= 3 ==> !spirv::names_entry_point(instruction),
        instruction[0] % 65536 == 15 && instruction.len() > 3 ==> spirv::names_entry_point(
            instruction,
        ),
{
}

/// A rewritten entry point keeps its model and its function, has the new
/// literal in place of the old one, and keeps all that follows it.
pub proof fn law_rewritten_entry_points(
    instruction: Seq<u32>,
    old_words: nat,
    to: Seq<u32>,
    i: int,
)
    requires
        4 <= instruction.len() < 65536,
        3 + old_words <= instruction.len(),
        instruction.len() - old_words + to.len() < 65536,
    ensures
        ({
            let new = spirv::with_name(instruction, old_words, to);
            &&& new.len() + old_words == instruction.len() + to.len()
            &&& new[0] == 65536 * new.len() + 15
            &&& new[1] == instruction[1]
            &&& new[2] == instruction[2]
            &&& 0 <= i < to.len() ==> new[3 + i] == to[i]
            &&& 3 + old_words <= i < instruction.len() ==> new[i - old_words + to.len()]
                == instruction[i]
        }),
{
}

/// An instruction that is no entry point, or one with another name, stays as it
/// is.
pub proof fn law_other_instructions_stay(
    instruction: Seq<u32>,
    from: Seq<u8>,
    to: Seq<u32>,
    name: Seq<u8>,
)
    requires
        instruction.len() > 0,
    ensures
        instruction[0] % 65536 != 15 || instruction.len() <= 3 ==> spirv::renamed_instruction(
            instruction,
            from,
            to,
        ) == (Renaming::Done { words: instruction, renamed: false }),
        instruction.len() > 3 && (spirv::literal_len(instruction.skip(3)) matches Some(n)
            && spirv::literal_bytes(instruction.skip(3).take(n as int)) == Some(name)) && name
            != from ==> spirv::renamed_instruction(instruction, from, to) == (Renaming::Done {
            words: instruction,
            renamed: false,
        }),
{
}

/// An entry point with the name is rewritten; one whose name has no end is
/// faulty.
pub proof fn law_named_entry_points_are_rewritten(
    instruction: Seq<u32>,
    from: Seq<u8>,
    to: Seq<u32>,
    n: nat,
)
    requires
        instruction.len() > 3,
        instruction[0] % 65536 == 15,
    ensures
        spirv::literal_len(instruction.skip(3)) == Some(n) && spirv::literal_bytes(
            instruction.skip(3).take(n as int),
        ) == Some(from) ==> spirv::renamed_instruction(instruction, from, to) == (Renaming::Done {
            words: spirv::with_name(instruction, n, to),
            renamed: true,
        }),
        spirv::literal_len(instruction.skip(3)) is None ==> spirv::renamed_instruction(
            instruction,
            from,
            to,
        ) == Renaming::Failed(SpirvError::UnterminatedEntryPointName),
{
}

// ---------------------------------------------------------------------------
// Streams

/// A stream fails at an instruction of no words and at one that runs past the
/// module's end; at the end it is done.
pub proof fn law_faulty_instructions_are_found(
    words: Seq<u32>,
    offset: nat,
    from: Seq<u8>,
    to: Seq<u32>,
)
    ensures
        offset >= words.len() ==> spirv::renamed_from(words, offset, from, to) == (Renaming::Done {
            words: Seq::empty(),
            renamed: false,
        }),
        offset < words.len() && (words[offset as int] as int) < 65536 ==> spirv::renamed_from(
            words,
            offset,
            from,
            to,
        ) == Renaming::Failed(SpirvError::InvalidInstructionWordCount),
        offset < words.len() && words[offset as int] as int >= 65536 && offset + words[offset as int]
            as int / 65536 > words.len() ==> spirv::renamed_from(words, offset, from, to)
            == Renaming::Failed(SpirvError::InstructionExceedsModule),
{
}

/// A renaming that finds nothing to rename leaves every word as it is.
pub proof fn law_nothing_renamed_changes_nothing(
    words: Seq<u32>,
    offset: nat,
    from: Seq<u8>,
    to: Seq<u32>,
)
    requires
        offset <= words.len(),
        spirv::renamed_from(words, offset, from, to) matches Renaming::Done { renamed, .. }
            && !renamed,
    ensures
        spirv::renamed_from(words, offset, from, to)->words == words.skip(offset as int),
    decreases words.len() - offset,
{
    if offset < words.len() {
        let len = spirv::instruction_len(words[offset as int]);
        let instruction = words.subrange(offset as int, (offset + len) as int);
        law_nothing_renamed_changes_nothing(words, offset + len, from, to);
        assert(instruction + words.skip((offset + len) as int) == words.skip(offset as int));
    } else {
        assert(words.skip(offset as int).len() == 0);
    }
}

/// A whole instruction goes through on its own: what becomes of a stream is
/// what becomes of its first instruction, followed by what becomes of the rest.
pub proof fn law_instructions_go_through_in_order(
    words: Seq<u32>,
    offset: nat,
    from: Seq<u8>,
    to: Seq<u32>,
    len: nat,
    first: Seq<u32>,
    rest: Seq<u32>,
    here: bool,
    later: bool,
)
    requires
        0 < len,
        offset + len <= words.len(),
        words[offset as int] as int / 65536 == len,
        spirv::renamed_instruction(
            words.subrange(offset as int, (offset + len) as int),
            from,
            to,
        ) == (Renaming::Done { words: first, renamed: here }),
        spirv::renamed_from(words, offset + len, from, to) == (Renaming::Done {
            words: rest,
            renamed: later,
        }),
    ensures
        spirv::renamed_from(words, offset, from, to) == (Renaming::Done {
            words: first + rest,
            renamed: here || later,
        }),
{
}

/// A fault in an instruction, or behind it, is the stream's.
pub proof fn law_faults_are_handed_on(
    words: Seq<u32>,
    offset: nat,
    from: Seq<u8>,
    to: Seq<u32>,
    len: nat,
    error: SpirvError,
)
    requires
        0 < len,
        offset + len <= words.len(),
        words[offset as int] as int / 65536 == len,
    ensures
        spirv::renamed_instruction(words.subrange(offset as int, (offset + len) as int), from, to)
            == Renaming::Failed(error) ==> spirv::renamed_from(words, offset, from, to)
            == Renaming::Failed(error),
        spirv::renamed_instruction(words.subrange(offset as int, (offset + len) as int), from, to) is Done
            && spirv::renamed_from(words, offset + len, from, to) == Renaming::Failed(error)
            ==> spirv::renamed_from(words, offset, from, to) == Renaming::Failed(error),
{
}

/// A module's first five words are no instruction: they stay as they are, and
/// the instructions behind them go through.
pub proof fn law_headers_are_kept(words: Seq<u32>, from: Seq<u8>, to: Seq<u32>)
    requires
        words.len() >= 5,
    ensures
        (spirv::renamed_from(words, 5, from, to) matches Renaming::Done { words: rest, renamed }
            ==> spirv::renamed_module(words, from, to) == (Renaming::Done {
            words: words.take(5) + rest,
            renamed,
        })),
        (spirv::renamed_from(words, 5, from, to) matches Renaming::Failed(error)
            ==> spirv::renamed_module(words, from, to) == Renaming::Failed(error)),
{
}

// ---------------------------------------------------------------------------
// Paths

/// A separator is two colons, one behind the other.
pub proof fn law_separators_are_two_colons(s: Seq<char>, i: int)
    ensures
        spirv::separator_at(s, i) ==> 0 <= i && i + 2 <= s.len() && s.subrange(i, i + 2) == seq![
            ':',
            ':',
        ],
        0 <= i && i + 2 <= s.len() && s[i] == ':' && s[i + 1] == ':' ==> spirv::separator_at(s, i),
        0 <= i < s.len() && s[i] != ':' ==> !spirv::separator_at(s, i) && !spirv::separator_at(
            s,
            i - 1,
        ),
{
    if spirv::separator_at(s, i) {
        assert(s.subrange(i, i + 2) =~= seq![':', ':']);
    }
}

} // verus!
