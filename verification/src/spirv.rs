//! SPIR-V module framing and entry-point renaming.
//!
//! A module is a sequence of little-endian 32-bit words: a five-word header
//! followed by instructions, each led by a word that packs its length in words
//! (upper half) and its opcode (lower half).

use vstd::prelude::*;
use vstd::string::*;

verus! {

/// Words in the module header.
pub const HEADER_WORDS: usize = 5;

/// Opcode of `OpEntryPoint`.
pub const OP_ENTRY_POINT: u32 = 15;

/// Why a module was refused.
#[derive(Debug)]
pub enum SpirvError {
    /// The byte length is no whole number of words, or shorter than a header.
    InvalidModuleSize,
    /// An instruction claims to be zero words long.
    InvalidInstructionWordCount,
    /// An instruction runs past the end of the module.
    InstructionExceedsModule,
    /// An entry-point name is not terminated inside its instruction.
    UnterminatedEntryPointName,
    /// No entry point has this name.
    EntryPointNotFound { from: String },
}

/// What the `Debug` formatting of a string gives: the string in quotes, with
/// its special characters escaped.
pub uninterp spec fn debug_text(s: Seq<char>) -> Seq<char>;

/// Formats a string with `{:?}`.
///
/// Trusted: `<str as Debug>::fmt` depends on the characters of the string
/// alone. How it escapes them is not stated.
#[verifier::external_body]
fn debug_string(s: &str) -> (text: String)
    ensures
        text@ == debug_text(s@),
{
    format!("{:?}", s)
}

impl SpirvError {
    /// The error in words.
    pub fn message(&self) -> (text: String)
        ensures
            text@ == match *self {
                SpirvError::InvalidModuleSize => "invalid SPIR-V module size"@,
                SpirvError::InvalidInstructionWordCount => "invalid SPIR-V instruction word count"@,
                SpirvError::InstructionExceedsModule => "SPIR-V instruction exceeds module size"@,
                SpirvError::UnterminatedEntryPointName =>
                    "OpEntryPoint has no null-terminated name"@,
                SpirvError::EntryPointNotFound { from } => "SPIR-V entry point "@ + debug_text(
                    from@,
                ) + " not found"@,
            },
    {
        match self {
            SpirvError::InvalidModuleSize => "invalid SPIR-V module size".to_owned(),
            SpirvError::InvalidInstructionWordCount =>
                "invalid SPIR-V instruction word count".to_owned(),
            SpirvError::InstructionExceedsModule =>
                "SPIR-V instruction exceeds module size".to_owned(),
            SpirvError::UnterminatedEntryPointName =>
                "OpEntryPoint has no null-terminated name".to_owned(),
            SpirvError::EntryPointNotFound { from } => {
                let mut text: String = "SPIR-V entry point ".to_owned();
                let name: String = debug_string(from.as_str());
                text.append(name.as_str());
                text.append(" not found");
                text
            },
        }
    }
}

// ---------------------------------------------------------------------------
// Words and bytes

/// Byte `k` of a little-endian word.
pub open spec fn word_byte(word: u32, k: int) -> u8 {
    if k == 0 {
        (word % 256) as u8
    } else if k == 1 {
        ((word / 256) % 256) as u8
    } else if k == 2 {
        ((word / 65536) % 256) as u8
    } else {
        (word / 16777216) as u8
    }
}

/// The word made of four little-endian bytes.
pub open spec fn le_word(b0: u8, b1: u8, b2: u8, b3: u8) -> u32 {
    (b0 + 256 * b1 + 65536 * b2 + 16777216 * b3) as u32
}

/// The whole words at the start of a byte string.
pub open spec fn words_of(bytes: Seq<u8>) -> Seq<u32> {
    Seq::new(
        bytes.len() / 4,
        |i: int| le_word(bytes[4 * i], bytes[4 * i + 1], bytes[4 * i + 2], bytes[4 * i + 3]),
    )
}

/// The bytes of a word sequence.
pub open spec fn bytes_of(words: Seq<u32>) -> Seq<u8> {
    Seq::new(words.len() * 4, |i: int| word_byte(words[i / 4], i % 4))
}

/// Taking a word apart and putting it together again changes nothing.
proof fn lemma_word_from_bytes(word: u32)
    ensures
        le_word(word_byte(word, 0), word_byte(word, 1), word_byte(word, 2), word_byte(word, 3))
            == word,
{
    let a = word / 256;
    let b = a / 256;
    let c = b / 256;
    assert(word / 65536 == b);
    assert(word / 16777216 == c);
    assert(word == 256 * a + word % 256);
    assert(a == 256 * b + a % 256);
    assert(b == 256 * c + b % 256);
}

/// The bytes of a word made of four bytes are those bytes.
proof fn lemma_bytes_of_word(b0: u8, b1: u8, b2: u8, b3: u8)
    ensures
        word_byte(le_word(b0, b1, b2, b3), 0) == b0,
        word_byte(le_word(b0, b1, b2, b3), 1) == b1,
        word_byte(le_word(b0, b1, b2, b3), 2) == b2,
        word_byte(le_word(b0, b1, b2, b3), 3) == b3,
{
    let word = le_word(b0, b1, b2, b3);
    let a: int = b1 + 256 * b2 + 65536 * b3;
    let b: int = b2 + 256 * b3;
    assert(word == 256 * a + b0);
    assert(word / 256 == a);
    assert(a == 256 * b + b1);
    assert(a / 256 == b);
    assert(word / 65536 == b);
    assert(b / 256 == b3);
    assert(word / 16777216 == b3);
}

/// Serialising words and reading them back gives the same words.
pub proof fn law_words_survive_serialisation(words: Seq<u32>)
    ensures
        words_of(bytes_of(words)) == words,
{
    let bytes = bytes_of(words);
    assert forall|i: int| 0 <= i < words.len() implies words_of(bytes)[i] == words[i] by {
        assert((4 * i) / 4 == i && (4 * i) % 4 == 0);
        assert((4 * i + 1) / 4 == i && (4 * i + 1) % 4 == 1);
        assert((4 * i + 2) / 4 == i && (4 * i + 2) % 4 == 2);
        assert((4 * i + 3) / 4 == i && (4 * i + 3) % 4 == 3);
        lemma_word_from_bytes(words[i]);
    }
    assert(words_of(bytes) =~= words);
}

/// Reading whole words and serialising them gives the same bytes.
pub proof fn law_bytes_survive_parsing(bytes: Seq<u8>)
    requires
        bytes.len() % 4 == 0,
    ensures
        bytes_of(words_of(bytes)) == bytes,
{
    let words = words_of(bytes);
    assert forall|i: int| 0 <= i < bytes.len() implies bytes_of(words)[i] == bytes[i] by {
        let w = i / 4;
        assert(i == 4 * w + i % 4);
        lemma_bytes_of_word(bytes[4 * w], bytes[4 * w + 1], bytes[4 * w + 2], bytes[4 * w + 3]);
    }
    assert(bytes_of(words) =~= bytes);
}

/// Reads the little-endian words of a byte slice whose length is a multiple of four.
fn read_words(bytes: &[u8]) -> (words: Vec<u32>)
    requires
        bytes@.len() % 4 == 0,
    ensures
        words@ == words_of(bytes@),
{
    let mut words: Vec<u32> = Vec::new();
    let mut i: usize = 0;
    while i < bytes.len()
        invariant
            i <= bytes@.len(),
            i % 4 == 0,
            bytes@.len() % 4 == 0,
            words@ =~= words_of(bytes@).take(i as int / 4),
        decreases bytes@.len() - i,
    {
        let word: u32 = bytes[i] as u32 + 256 * (bytes[i + 1] as u32) + 65536 * (bytes[i + 2]
            as u32) + 16777216 * (bytes[i + 3] as u32);
        words.push(word);
        i = i + 4;
    }
    words
}

/// Splits a module into words.
pub fn spirv_words(bytes: &[u8]) -> (result: Result<Vec<u32>, SpirvError>)
    ensures
        bytes@.len() < 20 || bytes@.len() % 4 != 0 <==> result is Err,
        result matches Err(error) ==> error == SpirvError::InvalidModuleSize,
        result matches Ok(words) ==> words@ == words_of(bytes@),
{
    if bytes.len() < 20 || bytes.len() % 4 != 0 {
        return Err(SpirvError::InvalidModuleSize);
    }
    Ok(read_words(bytes))
}

/// Joins words into a module.
pub fn spirv_bytes(words: Vec<u32>) -> (bytes: Vec<u8>)
    ensures
        bytes@ == bytes_of(words@),
{
    let mut bytes: Vec<u8> = Vec::new();
    let mut i: usize = 0;
    while i < words.len()
        invariant
            i <= words@.len(),
            bytes@ =~= bytes_of(words@).take(4 * i),
        decreases words@.len() - i,
    {
        let word: u32 = words[i];
        bytes.push((word % 256) as u8);
        bytes.push(((word / 256) % 256) as u8);
        bytes.push(((word / 65536) % 256) as u8);
        bytes.push((word / 16777216) as u8);
        i = i + 1;
    }
    bytes
}

// ---------------------------------------------------------------------------
// Literal strings

/// A string's bytes, its terminator, and zero padding up to a whole word.
pub open spec fn padded(bytes: Seq<u8>) -> Seq<u8> {
    bytes + Seq::new((4 - bytes.len() % 4) as nat, |i: int| 0u8)
}

/// A literal string as words.
pub open spec fn literal_words(bytes: Seq<u8>) -> Seq<u32> {
    words_of(padded(bytes))
}

/// Whether one of a word's bytes is zero.
pub open spec fn has_nul(word: u32) -> bool {
    exists|k: int| 0 <= k < 4 && #[trigger] word_byte(word, k) == 0
}

/// Words that a literal takes up: up to and with the first word that holds a zero byte.
pub open spec fn literal_len(words: Seq<u32>) -> Option<nat>
    decreases words.len(),
{
    if words.len() == 0 {
        None
    } else if has_nul(words[0]) {
        Some(1)
    } else {
        match literal_len(words.skip(1)) {
            Some(n) => Some(n + 1),
            None => None,
        }
    }
}

/// The bytes of a literal before its terminator.
pub open spec fn literal_bytes(words: Seq<u32>) -> Option<Seq<u8>> {
    first_nul(bytes_of(words))
}

/// The bytes before the first zero byte, if there is one.
pub open spec fn first_nul(bytes: Seq<u8>) -> Option<Seq<u8>>
    decreases bytes.len(),
{
    if bytes.len() == 0 {
        None
    } else if bytes[0] == 0 {
        Some(Seq::empty())
    } else {
        match first_nul(bytes.skip(1)) {
            Some(rest) => Some(seq![bytes[0]] + rest),
            None => None,
        }
    }
}

pub(crate) proof fn lemma_first_nul_at(bytes: Seq<u8>, n: int)
    requires
        0 <= n < bytes.len(),
        bytes[n] == 0,
        forall|i: int| 0 <= i < n ==> bytes[i] != 0,
    ensures
        first_nul(bytes) == Some(bytes.take(n)),
    decreases n,
{
    if n == 0 {
        assert(bytes.take(0) =~= Seq::empty());
    } else {
        lemma_first_nul_at(bytes.skip(1), n - 1);
        assert(seq![bytes[0]] + bytes.skip(1).take(n - 1) =~= bytes.take(n));
    }
}

pub(crate) proof fn lemma_first_nul_none(bytes: Seq<u8>)
    requires
        forall|i: int| 0 <= i < bytes.len() ==> bytes[i] != 0,
    ensures
        first_nul(bytes) is None,
    decreases bytes.len(),
{
    if bytes.len() > 0 {
        lemma_first_nul_none(bytes.skip(1));
    }
}

pub(crate) proof fn lemma_literal_len_at(words: Seq<u32>, n: int)
    requires
        0 <= n < words.len(),
        has_nul(words[n]),
        forall|i: int| 0 <= i < n ==> !has_nul(#[trigger] words[i]),
    ensures
        literal_len(words) == Some((n + 1) as nat),
    decreases n,
{
    if n > 0 {
        assert forall|i: int| 0 <= i < n - 1 implies !has_nul(#[trigger] words.skip(1)[i]) by {
            assert(words.skip(1)[i] == words[i + 1]);
        }
        lemma_literal_len_at(words.skip(1), n - 1);
    }
}

pub(crate) proof fn lemma_literal_len_none(words: Seq<u32>)
    requires
        forall|i: int| 0 <= i < words.len() ==> !has_nul(#[trigger] words[i]),
    ensures
        literal_len(words) is None,
    decreases words.len(),
{
    if words.len() > 0 {
        assert forall|i: int| 0 <= i < words.len() - 1 implies !has_nul(#[trigger] words.skip(1)[i]) by {
            assert(words.skip(1)[i] == words[i + 1]);
        }
        lemma_literal_len_none(words.skip(1));
    }
}

/// Encodes a string as a literal: its bytes, a terminator, zero padding.
pub fn string_words(s: &str) -> (words: Vec<u32>)
    ensures
        words@ == literal_words(s.spec_bytes()),
        words@.len() == s.spec_bytes().len() / 4 + 1,
{
    let mut bytes: Vec<u8> = s.as_bytes_vec();
    let ghost start = bytes@;
    bytes.push(0);
    while bytes.len() % 4 != 0
        invariant
            start.len() < bytes@.len() <= start.len() + (4 - start.len() % 4),
            bytes@ =~= start + Seq::new((bytes@.len() - start.len()) as nat, |i: int| 0u8),
        decreases start.len() + 4 - bytes@.len(),
    {
        bytes.push(0);
    }
    proof {
        assert(bytes@ =~= padded(start));
    }
    read_words(bytes.as_slice())
}

/// Finds how many words a literal takes up at the start of `words`.
pub fn literal_string_word_count(words: &[u32]) -> (count: Option<usize>)
    ensures
        match literal_len(words@) {
            Some(n) => count == Some(n as usize) && 1 <= n <= words@.len(),
            None => count is None,
        },
{
    let mut i: usize = 0;
    while i < words.len()
        invariant
            i <= words@.len(),
            forall|j: int| 0 <= j < i ==> !has_nul(#[trigger] words@[j]),
        decreases words@.len() - i,
    {
        let word: u32 = words[i];
        if word % 256 == 0 || (word / 256) % 256 == 0 || (word / 65536) % 256 == 0 || word
            / 16777216 == 0 {
            proof {
                assert(word_byte(word, 0) == 0 || word_byte(word, 1) == 0 || word_byte(word, 2) == 0
                    || word_byte(word, 3) == 0);
                lemma_literal_len_at(words@, i as int);
            }
            return Some(i + 1);
        }
        i = i + 1;
    }
    proof {
        lemma_literal_len_none(words@);
    }
    None
}

/// Compares two byte slices.
fn same_bytes(a: &[u8], b: &[u8]) -> (same: bool)
    ensures
        same == (a@ == b@),
{
    if a.len() != b.len() {
        return false;
    }
    let mut i: usize = 0;
    while i < a.len()
        invariant
            a@.len() == b@.len(),
            i <= a@.len(),
            forall|j: int| 0 <= j < i ==> a@[j] == b@[j],
        decreases a@.len() - i,
    {
        if a[i] != b[i] {
            return false;
        }
        i = i + 1;
    }
    proof {
        assert(a@ =~= b@);
    }
    true
}

/// Whether the literal at the start of `words` spells `expected`.
///
/// A literal that is never terminated matches nothing.
pub fn literal_string_matches(words: &[u32], expected: &str) -> (matches: bool)
    ensures
        matches == (literal_bytes(words@) == Some(expected.spec_bytes())),
{
    let mut bytes: Vec<u8> = Vec::new();
    let mut i: usize = 0;
    while i < words.len()
        invariant
            i <= words@.len(),
            bytes@ =~= bytes_of(words@).take(4 * i),
        decreases words@.len() - i,
    {
        let word: u32 = words[i];
        bytes.push((word % 256) as u8);
        bytes.push(((word / 256) % 256) as u8);
        bytes.push(((word / 65536) % 256) as u8);
        bytes.push((word / 16777216) as u8);
        i = i + 1;
    }
    let mut n: usize = 0;
    while n < bytes.len()
        invariant
            n <= bytes@.len(),
            bytes@ =~= bytes_of(words@),
            forall|j: int| 0 <= j < n ==> bytes@[j] != 0,
        decreases bytes@.len() - n,
    {
        if bytes[n] == 0 {
            proof {
                lemma_first_nul_at(bytes@, n as int);
            }
            return same_bytes(vstd::slice::slice_subrange(bytes.as_slice(), 0, n), expected.as_bytes());
        }
        n = n + 1;
    }
    proof {
        lemma_first_nul_none(bytes@);
    }
    false
}

// ---------------------------------------------------------------------------
// Entry points

/// Length in words that an instruction's first word claims.
pub open spec fn instruction_len(first: u32) -> nat {
    (first / 65536) as nat
}

/// Opcode in an instruction's first word.
pub open spec fn opcode(first: u32) -> u32 {
    first % 65536
}

/// First word of an entry-point instruction of `len` words; a length that
/// does not fit in sixteen bits keeps its low sixteen.
pub open spec fn entry_point_first(len: nat) -> u32 {
    ((len % 65536) * 65536 + OP_ENTRY_POINT) as u32
}

/// The instructions from some offset on after a renaming: their words, and
/// whether an entry point was renamed.
pub enum Renaming {
    Failed(SpirvError),
    Done { words: Seq<u32>, renamed: bool },
}

impl Renaming {
    /// Puts the words of an earlier instruction in front.
    pub open spec fn after(self, words: Seq<u32>, renamed: bool) -> Renaming {
        match self {
            Renaming::Failed(error) => Renaming::Failed(error),
            Renaming::Done { words: rest, renamed: later } => Renaming::Done {
                words: words + rest,
                renamed: renamed || later,
            },
        }
    }
}

/// Whether an instruction is an entry point that can hold a name.
pub open spec fn names_entry_point(instruction: Seq<u32>) -> bool {
    opcode(instruction[0]) == OP_ENTRY_POINT && instruction.len() >= 4
}

/// An entry-point instruction whose name of `old_words` words is replaced by the literal `to`.
pub open spec fn with_name(instruction: Seq<u32>, old_words: nat, to: Seq<u32>) -> Seq<u32> {
    seq![entry_point_first((instruction.len() - old_words + to.len()) as nat)]
        + instruction.subrange(1, 3) + to + instruction.skip(3 + old_words as int)
}

/// What one instruction becomes when the entry point named `from` is renamed to the literal `to`.
pub open spec fn renamed_instruction(instruction: Seq<u32>, from: Seq<u8>, to: Seq<u32>) -> Renaming {
    if names_entry_point(instruction) {
        let rest = instruction.skip(3);
        match literal_len(rest) {
            None => Renaming::Failed(SpirvError::UnterminatedEntryPointName),
            Some(n) => if literal_bytes(rest.take(n as int)) == Some(from) {
                Renaming::Done { words: with_name(instruction, n, to), renamed: true }
            } else {
                Renaming::Done { words: instruction, renamed: false }
            },
        }
    } else {
        Renaming::Done { words: instruction, renamed: false }
    }
}

/// What the instructions from `offset` on become when every entry point named
/// `from` is renamed to the literal `to`. The first faulty instruction decides
/// the failure.
pub open spec fn renamed_from(words: Seq<u32>, offset: nat, from: Seq<u8>, to: Seq<u32>) -> Renaming
    decreases words.len() - offset,
{
    if offset >= words.len() {
        Renaming::Done { words: Seq::empty(), renamed: false }
    } else {
        let len = instruction_len(words[offset as int]);
        if len == 0 {
            Renaming::Failed(SpirvError::InvalidInstructionWordCount)
        } else if offset + len > words.len() {
            Renaming::Failed(SpirvError::InstructionExceedsModule)
        } else {
            let instruction = words.subrange(offset as int, (offset + len) as int);
            match renamed_instruction(instruction, from, to) {
                Renaming::Failed(error) => Renaming::Failed(error),
                Renaming::Done { words: first, renamed } => renamed_from(
                    words,
                    offset + len,
                    from,
                    to,
                ).after(first, renamed),
            }
        }
    }
}

/// A whole module after renaming.
pub open spec fn renamed_module(words: Seq<u32>, from: Seq<u8>, to: Seq<u32>) -> Renaming {
    renamed_from(words, HEADER_WORDS as nat, from, to).after(
        words.take(HEADER_WORDS as int),
        false,
    )
}

/// Appends `words[from..to]` to `out`.
fn copy_words(out: &mut Vec<u32>, words: &Vec<u32>, from: usize, to: usize)
    requires
        from <= to <= words@.len(),
    ensures
        final(out)@ == old(out)@ + words@.subrange(from as int, to as int),
{
    let ghost start = out@;
    let mut i: usize = from;
    while i < to
        invariant
            from <= i <= to <= words@.len(),
            out@ =~= start + words@.subrange(from as int, i as int),
        decreases to - i,
    {
        out.push(words[i]);
        i = i + 1;
    }
}

/// Appends one instruction to `out`, renamed where it is the entry point `from`.
fn rename_instruction(
    out: &mut Vec<u32>,
    words: &Vec<u32>,
    offset: usize,
    end: usize,
    from: &str,
    replacement: &Vec<u32>,
) -> (result: Result<bool, SpirvError>)
    requires
        offset < end <= words@.len(),
        end - offset <= 65535,
        replacement@.len() <= usize::MAX - 65535,
    ensures
        match renamed_instruction(
            words@.subrange(offset as int, end as int),
            from.spec_bytes(),
            replacement@,
        ) {
            Renaming::Failed(error) => result == Err::<bool, SpirvError>(error),
            Renaming::Done { words: instruction, renamed } => result == Ok::<bool, SpirvError>(
                renamed,
            ) && final(out)@ == old(out)@ + instruction,
        },
{
    let ghost instruction = words@.subrange(offset as int, end as int);
    let first: u32 = words[offset];
    assert(first == instruction[0]);
    if first % 65536 == OP_ENTRY_POINT && end - offset >= 4 {
        let name_start: usize = offset + 3;
        let rest: &[u32] = vstd::slice::slice_subrange(words.as_slice(), name_start, end);
        assert(rest@ =~= instruction.skip(3));
        let name_words: usize = match literal_string_word_count(rest) {
            Some(n) => n,
            None => return Err(SpirvError::UnterminatedEntryPointName),
        };
        let literal: &[u32] = vstd::slice::slice_subrange(rest, 0, name_words);
        assert(literal@ =~= instruction.skip(3).take(name_words as int));
        if literal_string_matches(literal, from) {
            let new_word_count: usize = end - offset - name_words + replacement.len();
            out.push(((new_word_count % 65536) as u32) * 65536 + OP_ENTRY_POINT);
            copy_words(out, words, offset + 1, name_start);
            copy_words(out, replacement, 0, replacement.len());
            copy_words(out, words, name_start + name_words, end);
            assert(out@ =~= old(out)@ + with_name(instruction, name_words as nat, replacement@));
            return Ok(true);
        }
    }
    copy_words(out, words, offset, end);
    Ok(false)
}

/// Renames the entry point `from` to `to` in a module, leaving everything else as it is.
///
/// Equal names leave the bytes untouched and unread. Otherwise the module
/// has to be well framed up to its end and hold an entry point named `from`.
/// The name's literal is replaced as a whole, so that no word of the old one
/// is left behind to be read as an interface ID.
pub fn rename_spirv_entry_point(bytes: Vec<u8>, from: &str, to: &str) -> (result: Result<
    Vec<u8>,
    SpirvError,
>)
    ensures
        from.spec_bytes() == to.spec_bytes() ==> (result matches Ok(same) && same@ == bytes@),
        from.spec_bytes() != to.spec_bytes() ==> {
            if bytes@.len() < 20 || bytes@.len() % 4 != 0 {
                result matches Err(error) && error == SpirvError::InvalidModuleSize
            } else {
                match renamed_module(
                    words_of(bytes@),
                    from.spec_bytes(),
                    literal_words(to.spec_bytes()),
                ) {
                    Renaming::Failed(error) => result matches Err(e) && e == error,
                    Renaming::Done { words, renamed: true } => result matches Ok(out) && out@
                        == bytes_of(words),
                    Renaming::Done { words, renamed: false } => result matches Err(
                        SpirvError::EntryPointNotFound { from: name },
                    ) && name@ == from@,
                }
            }
        },
{
    let to_bytes: &[u8] = to.as_bytes();
    if same_bytes(from.as_bytes(), to_bytes) {
        return Ok(bytes);
    }
    let words: Vec<u32> = match spirv_words(bytes.as_slice()) {
        Ok(words) => words,
        Err(error) => return Err(error),
    };
    let replacement: Vec<u32> = string_words(to);
    assert(to_bytes.len() == to.spec_bytes().len());
    let ghost name = from.spec_bytes();

    let mut out: Vec<u32> = Vec::new();
    copy_words(&mut out, &words, 0, HEADER_WORDS);
    let mut offset: usize = HEADER_WORDS;
    let mut renamed: bool = false;
    while offset < words.len()
        invariant
            words@ == words_of(bytes@),
            HEADER_WORDS <= offset <= words@.len(),
            name == from.spec_bytes(),
            replacement@.len() <= usize::MAX - 65535,
            bytes@.len() >= 20 && bytes@.len() % 4 == 0,
            from.spec_bytes() != to.spec_bytes(),
            replacement@ == literal_words(to.spec_bytes()),
            renamed_module(words@, name, replacement@) == renamed_from(
                words@,
                offset as nat,
                name,
                replacement@,
            ).after(out@, renamed),
        decreases words@.len() - offset,
    {
        let first: u32 = words[offset];
        let word_count: usize = (first / 65536) as usize;
        if word_count == 0 {
            return Err(SpirvError::InvalidInstructionWordCount);
        }
        if word_count > words.len() - offset {
            return Err(SpirvError::InstructionExceedsModule);
        }
        let end: usize = offset + word_count;
        let ghost before = out@;
        let ghost was_renamed = renamed;
        match rename_instruction(&mut out, &words, offset, end, from, &replacement) {
            Ok(now) => {
                renamed = renamed || now;
                proof {
                    lemma_after_twice(
                        renamed_from(words@, end as nat, name, replacement@),
                        before,
                        was_renamed,
                        out@.skip(before.len() as int),
                        now,
                    );
                    let instruction = words@.subrange(offset as int, end as int);
                    let done = renamed_instruction(instruction, name, replacement@);
                    assert(done->words =~= out@.skip(before.len() as int));
                    assert(before + out@.skip(before.len() as int) =~= out@);
                }
            },
            Err(error) => return Err(error),
        }
        offset = end;
    }
    if !renamed {
        return Err(SpirvError::EntryPointNotFound { from: from.to_owned() });
    }
    assert(out@ + Seq::<u32>::empty() =~= out@);
    Ok(spirv_bytes(out))
}

proof fn lemma_after_twice(
    later: Renaming,
    before: Seq<u32>,
    renamed: bool,
    words: Seq<u32>,
    now: bool,
)
    ensures
        later.after(words, now).after(before, renamed) == later.after(before + words, renamed || now),
{
    if let Renaming::Done { words: rest, .. } = later {
        assert(before + (words + rest) =~= before + words + rest);
    }
}

// ---------------------------------------------------------------------------
// What renaming does to the entry points of a module

/// The names that one instruction declares: none, or an entry point's.
pub open spec fn declared_names(instruction: Seq<u32>) -> Seq<Seq<u8>> {
    if names_entry_point(instruction) {
        match literal_len(instruction.skip(3)) {
            Some(n) => match literal_bytes(instruction.skip(3).take(n as int)) {
                Some(name) => seq![name],
                None => Seq::empty(),
            },
            None => Seq::empty(),
        }
    } else {
        Seq::empty()
    }
}

/// The entry-point names in a stream of instructions, in order.
pub open spec fn entry_names(stream: Seq<u32>) -> Seq<Seq<u8>>
    decreases stream.len(),
{
    if stream.len() == 0 {
        Seq::empty()
    } else {
        let len = instruction_len(stream[0]);
        if len == 0 || len > stream.len() {
            Seq::empty()
        } else {
            declared_names(stream.take(len as int)) + entry_names(stream.skip(len as int))
        }
    }
}

/// Whether every instruction that a renaming rewrites keeps a length that its first word can hold.
pub open spec fn renaming_fits(words: Seq<u32>, offset: nat, from: Seq<u8>, to: Seq<u32>) -> bool
    decreases words.len() - offset,
{
    if offset >= words.len() {
        true
    } else {
        let len = instruction_len(words[offset as int]);
        if len == 0 || offset + len > words.len() {
            true
        } else {
            let instruction = words.subrange(offset as int, (offset + len) as int);
            &&& renamed_instruction(instruction, from, to) matches Renaming::Done {
                words: first,
                ..
            } ==> first.len() <= 65535
            &&& renaming_fits(words, offset + len, from, to)
        }
    }
}

/// Replaces one name.
pub open spec fn renamed_name(name: Seq<u8>, from: Seq<u8>, to: Seq<u8>) -> Seq<u8> {
    if name == from {
        to
    } else {
        name
    }
}

proof fn lemma_padded_word(bytes: Seq<u8>, i: int)
    requires
        0 <= i < literal_words(bytes).len(),
    ensures
        forall|k: int|
            0 <= k < 4 ==> #[trigger] word_byte(literal_words(bytes)[i], k) == padded(bytes)[4 * i + k],
{
    let p = padded(bytes);
    assert(p.len() % 4 == 0);
    lemma_bytes_of_word(p[4 * i], p[4 * i + 1], p[4 * i + 2], p[4 * i + 3]);
}

/// Full words of a literal hold no zero byte.
proof fn lemma_full_word(bytes: Seq<u8>, i: int)
    requires
        forall|j: int| 0 <= j < bytes.len() ==> bytes[j] != 0,
        0 <= i < bytes.len() / 4,
    ensures
        !has_nul(literal_words(bytes)[i]),
{
    lemma_padded_word(bytes, i);
    let word = literal_words(bytes)[i];
    assert forall|k: int| 0 <= k < 4 implies #[trigger] word_byte(word, k) != 0 by {
        assert(padded(bytes)[4 * i + k] == bytes[4 * i + k]);
    }
}

/// The last word of a literal holds its terminator.
proof fn lemma_last_word(bytes: Seq<u8>)
    ensures
        literal_words(bytes).len() == bytes.len() / 4 + 1,
        has_nul(literal_words(bytes)[bytes.len() as int / 4]),
{
    let last = bytes.len() as int / 4;
    let k = bytes.len() as int % 4;
    lemma_padded_word(bytes, last);
    assert(padded(bytes)[4 * last + k] == 0);
    assert(word_byte(literal_words(bytes)[last], k) == 0);
}

proof fn lemma_literal_bytes(bytes: Seq<u8>)
    requires
        forall|i: int| 0 <= i < bytes.len() ==> bytes[i] != 0,
    ensures
        literal_bytes(literal_words(bytes)) == Some(bytes),
{
    let p = padded(bytes);
    assert(p.len() % 4 == 0);
    law_bytes_survive_parsing(p);
    lemma_first_nul_at(p, bytes.len() as int);
    assert(p.take(bytes.len() as int) =~= bytes);
}

/// A literal without inner zero bytes is read back as it was written,
/// whatever follows it.
pub proof fn law_literal_reads_back(bytes: Seq<u8>, tail: Seq<u32>)
    requires
        forall|i: int| 0 <= i < bytes.len() ==> bytes[i] != 0,
    ensures
        literal_len(literal_words(bytes) + tail) == Some(literal_words(bytes).len()),
        literal_bytes(literal_words(bytes)) == Some(bytes),
{
    lemma_literal_bytes(bytes);
    lemma_last_word(bytes);
    let words = literal_words(bytes);
    let last = bytes.len() as int / 4;
    assert forall|i: int| 0 <= i < last implies !has_nul(#[trigger] (words + tail)[i]) by {
        lemma_full_word(bytes, i);
    }
    lemma_literal_len_at(words + tail, last);
}

/// The instruction that results from a renaming declares the new name.
proof fn lemma_with_name(instruction: Seq<u32>, n: nat, to: Seq<u8>)
    requires
        names_entry_point(instruction),
        1 <= n <= instruction.len() - 3,
        with_name(instruction, n, literal_words(to)).len() <= 65535,
        forall|i: int| 0 <= i < to.len() ==> to[i] != 0,
    ensures
        ({
            let new = with_name(instruction, n, literal_words(to));
            &&& instruction_len(new[0]) == new.len()
            &&& declared_names(new) == seq![to]
        }),
{
    let literal = literal_words(to);
    let new = with_name(instruction, n, literal);
    let tail = instruction.skip(3 + n as int);
    assert(new.skip(3) =~= literal + tail);
    law_literal_reads_back(to, tail);
    assert((literal + tail).take(literal.len() as int) =~= literal);
    let len = new.len();
    assert((len % 65536) * 65536 + OP_ENTRY_POINT == new[0]);
    assert(new[0] / 65536 == len);
    assert(new[0] % 65536 == 15);
}

/// A literal's length never exceeds the words it is looked for in.
proof fn lemma_literal_len_bounded(words: Seq<u32>)
    ensures
        literal_len(words) matches Some(n) ==> 1 <= n <= words.len(),
    decreases words.len(),
{
    if words.len() > 0 && !has_nul(words[0]) {
        lemma_literal_len_bounded(words.skip(1));
    }
}

proof fn lemma_names_of_concat(first: Seq<u32>, rest: Seq<u32>)
    requires
        first.len() > 0,
        instruction_len(first[0]) == first.len(),
    ensures
        entry_names(first + rest) == declared_names(first) + entry_names(rest),
{
    assert((first + rest).take(first.len() as int) =~= first);
    assert((first + rest).skip(first.len() as int) =~= rest);
}

proof fn lemma_renamed_names(words: Seq<u32>, offset: nat, from: Seq<u8>, to: Seq<u8>)
    requires
        offset <= words.len(),
        forall|i: int| 0 <= i < to.len() ==> to[i] != 0,
        renamed_from(words, offset, from, literal_words(to)) is Done,
        renaming_fits(words, offset, from, literal_words(to)),
    ensures
        entry_names(renamed_from(words, offset, from, literal_words(to))->words) == entry_names(
            words.skip(offset as int),
        ).map_values(|name: Seq<u8>| renamed_name(name, from, to)),
    decreases words.len() - offset,
{
    let literal = literal_words(to);
    let f = |name: Seq<u8>| renamed_name(name, from, to);
    let stream = words.skip(offset as int);
    if offset == words.len() {
        assert(stream =~= Seq::empty());
        assert(entry_names(stream).map_values(f) =~= Seq::empty());
    } else {
        let len = instruction_len(words[offset as int]);
        let instruction = words.subrange(offset as int, (offset + len) as int);
        lemma_renamed_names(words, offset + len, from, to);
        let later = renamed_from(words, offset + len, from, literal);
        let first = renamed_instruction(instruction, from, literal)->words;
        assert(stream =~= instruction + words.skip((offset + len) as int));
        lemma_names_of_concat(instruction, words.skip((offset + len) as int));
        let own = declared_names(instruction);
        if names_entry_point(instruction) {
            let rest = instruction.skip(3);
            lemma_literal_len_bounded(rest);
            let n = literal_len(rest)->0;
            if literal_bytes(rest.take(n as int)) == Some(from) {
                lemma_with_name(instruction, n, to);
                assert(own.map_values(f) =~= seq![to]);
            } else {
                assert(own.map_values(f) =~= own);
            }
        } else {
            assert(own.map_values(f) =~= own);
        }
        lemma_names_of_concat(first, later->words);
        assert((own + entry_names(words.skip((offset + len) as int))).map_values(f)
            =~= own.map_values(f) + entry_names(words.skip((offset + len) as int)).map_values(f));
    }
}

/// A successful renaming keeps the module header, turns every entry point
/// named `from` into one named `to`, and keeps every other entry point's name
/// and the order of all of them.
///
/// This holds as long as `to` has no zero byte and no rewritten
/// instruction grows beyond what its sixteen-bit length can say.
pub proof fn law_renaming_replaces_the_name(words: Seq<u32>, from: Seq<u8>, to: Seq<u8>)
    requires
        words.len() >= HEADER_WORDS,
        forall|i: int| 0 <= i < to.len() ==> to[i] != 0,
        renamed_module(words, from, literal_words(to)) is Done,
        renaming_fits(words, HEADER_WORDS as nat, from, literal_words(to)),
    ensures
        ({
            let out = renamed_module(words, from, literal_words(to))->words;
            &&& out.take(HEADER_WORDS as int) == words.take(HEADER_WORDS as int)
            &&& entry_names(out.skip(HEADER_WORDS as int)) == entry_names(
                words.skip(HEADER_WORDS as int),
            ).map_values(|name: Seq<u8>| renamed_name(name, from, to))
        }),
{
    lemma_renamed_names(words, HEADER_WORDS as nat, from, to);
    let rest = renamed_from(words, HEADER_WORDS as nat, from, literal_words(to))->words;
    let out = renamed_module(words, from, literal_words(to))->words;
    assert(out.take(HEADER_WORDS as int) =~= words.take(HEADER_WORDS as int));
    assert(out.skip(HEADER_WORDS as int) =~= rest);
}

// ---------------------------------------------------------------------------
// Renaming back

/// Whether an instruction can be renamed and renamed back: an entry point named
/// `from` has its name padded with zeros and still has a length that fits with
/// the name `to`, and no entry point is named `to`.
pub open spec fn instruction_reversible(instruction: Seq<u32>, from: Seq<u8>, to: Seq<u8>) -> bool {
    names_entry_point(instruction) ==> (literal_len(instruction.skip(3)) matches Some(n) ==> {
        let name = instruction.skip(3).take(n as int);
        &&& literal_bytes(name) != Some(to)
        &&& literal_bytes(name) == Some(from) ==> name == literal_words(from) && instruction.len()
            - n + literal_words(to).len() <= 65535
    })
}

/// Whether all instructions of a stream can be renamed and renamed back.
pub open spec fn reversible(stream: Seq<u32>, from: Seq<u8>, to: Seq<u8>) -> bool
    decreases stream.len(),
{
    if stream.len() == 0 {
        true
    } else {
        let len = instruction_len(stream[0]);
        if len == 0 || len > stream.len() {
            true
        } else {
            instruction_reversible(stream.take(len as int), from, to) && reversible(
                stream.skip(len as int),
                from,
                to,
            )
        }
    }
}

/// Renaming from an offset on looks at nothing before it.
proof fn lemma_renamed_suffix(words: Seq<u32>, start: nat, offset: nat, from: Seq<u8>, to: Seq<u32>)
    requires
        start + offset <= words.len(),
    ensures
        renamed_from(words.skip(start as int), offset, from, to) == renamed_from(
            words,
            start + offset,
            from,
            to,
        ),
    decreases words.len() - start - offset,
{
    let stream = words.skip(start as int);
    if offset < stream.len() {
        let len = instruction_len(stream[offset as int]);
        if len != 0 && offset + len <= stream.len() {
            assert(stream.subrange(offset as int, (offset + len) as int) =~= words.subrange(
                (start + offset) as int,
                (start + offset + len) as int,
            ));
            lemma_renamed_suffix(words, start, offset + len, from, to);
        }
    }
}

/// Renaming a stream is renaming its first instruction and then the rest.
proof fn lemma_renamed_first(first: Seq<u32>, rest: Seq<u32>, from: Seq<u8>, to: Seq<u32>)
    requires
        first.len() > 0,
        instruction_len(first[0]) == first.len(),
        renamed_instruction(first, from, to) is Done,
    ensures
        ({
            let own = renamed_instruction(first, from, to);
            renamed_from(first + rest, 0, from, to) == renamed_from(rest, 0, from, to).after(
                own->words,
                own->renamed,
            )
        }),
{
    let stream = first + rest;
    assert(stream.subrange(0, first.len() as int) =~= first);
    assert(stream.skip(first.len() as int) =~= rest);
    lemma_renamed_suffix(stream, first.len(), 0, from, to);
}

proof fn lemma_instruction_back(instruction: Seq<u32>, from: Seq<u8>, to: Seq<u8>)
    requires
        instruction.len() > 0,
        instruction_len(instruction[0]) == instruction.len(),
        from != to,
        forall|i: int| 0 <= i < from.len() ==> from[i] != 0,
        forall|i: int| 0 <= i < to.len() ==> to[i] != 0,
        instruction_reversible(instruction, from, to),
        renamed_instruction(instruction, from, literal_words(to)) is Done,
    ensures
        ({
            let there = renamed_instruction(instruction, from, literal_words(to));
            let first = there->words;
            &&& first.len() > 0
            &&& instruction_len(first[0]) == first.len()
            &&& renamed_instruction(first, to, literal_words(from)) == (Renaming::Done {
                words: instruction,
                renamed: there->renamed,
            })
        }),
{
    if names_entry_point(instruction) {
        let rest = instruction.skip(3);
        lemma_literal_len_bounded(rest);
        let n = literal_len(rest)->0;
        if literal_bytes(rest.take(n as int)) == Some(from) {
            let literal = literal_words(to);
            let new = with_name(instruction, n, literal);
            let tail = instruction.skip(3 + n as int);
            lemma_with_name(instruction, n, to);
            law_literal_reads_back(to, tail);
            assert(new.skip(3) =~= literal + tail);
            assert(new.skip(3).take(literal.len() as int) =~= literal);
            assert(new.skip(3 + literal.len() as int) =~= tail);
            assert(new[0] % 65536 == 15);
            let back = with_name(new, literal.len(), literal_words(from));
            assert(new.len() - literal.len() + literal_words(from).len() == instruction.len());
            assert(instruction[0] == (instruction[0] / 65536) * 65536 + instruction[0] % 65536);
            assert(back =~= instruction) by {
                assert(new.subrange(1, 3) =~= instruction.subrange(1, 3));
                assert(literal_words(from) == rest.take(n as int));
                assert(instruction =~= seq![instruction[0]] + instruction.subrange(1, 3)
                    + rest.take(n as int) + tail);
            }
        }
    }
}

proof fn lemma_stream_back(stream: Seq<u32>, from: Seq<u8>, to: Seq<u8>)
    requires
        from != to,
        forall|i: int| 0 <= i < from.len() ==> from[i] != 0,
        forall|i: int| 0 <= i < to.len() ==> to[i] != 0,
        reversible(stream, from, to),
        renamed_from(stream, 0, from, literal_words(to)) is Done,
    ensures
        ({
            let there = renamed_from(stream, 0, from, literal_words(to));
            renamed_from(there->words, 0, to, literal_words(from)) == (Renaming::Done {
                words: stream,
                renamed: there->renamed,
            })
        }),
    decreases stream.len(),
{
    if stream.len() == 0 {
        assert(stream =~= Seq::empty());
    } else {
        let len = instruction_len(stream[0]);
        let instruction = stream.take(len as int);
        let rest = stream.skip(len as int);
        assert(stream.subrange(0, len as int) =~= instruction);
        assert(instruction + rest =~= stream);
        lemma_renamed_first(instruction, rest, from, literal_words(to));
        let own = renamed_instruction(instruction, from, literal_words(to));
        let later = renamed_from(rest, 0, from, literal_words(to));
        lemma_instruction_back(instruction, from, to);
        lemma_stream_back(rest, from, to);
        lemma_renamed_first(own->words, later->words, to, literal_words(from));
    }
}

/// Renaming an entry point and renaming it back gives the same module.
///
/// This holds for different names without zero bytes, where no entry point has
/// the new name already, every literal of the old name is padded with zeros, and
/// no rewritten instruction grows beyond what its sixteen-bit length can say.
pub proof fn law_renaming_back_restores_the_module(bytes: Seq<u8>, from: Seq<u8>, to: Seq<u8>)
    requires
        bytes.len() >= 20,
        bytes.len() % 4 == 0,
        from != to,
        forall|i: int| 0 <= i < from.len() ==> from[i] != 0,
        forall|i: int| 0 <= i < to.len() ==> to[i] != 0,
        reversible(words_of(bytes).skip(HEADER_WORDS as int), from, to),
        renamed_module(words_of(bytes), from, literal_words(to)) is Done,
        renamed_module(words_of(bytes), from, literal_words(to))->renamed,
    ensures
        ({
            let out = bytes_of(renamed_module(words_of(bytes), from, literal_words(to))->words);
            let back = renamed_module(words_of(out), to, literal_words(from));
            &&& out.len() >= 20
            &&& out.len() % 4 == 0
            &&& back is Done
            &&& back->renamed
            &&& bytes_of(back->words) == bytes
        }),
{
    let words = words_of(bytes);
    let header = words.take(HEADER_WORDS as int);
    let stream = words.skip(HEADER_WORDS as int);
    let literal = literal_words(to);
    lemma_renamed_suffix(words, HEADER_WORDS as nat, 0, from, literal);
    let there = renamed_from(stream, 0, from, literal);
    let moved = renamed_module(words, from, literal)->words;
    assert(moved == header + there->words);
    law_words_survive_serialisation(moved);
    lemma_stream_back(stream, from, to);
    assert(moved.skip(HEADER_WORDS as int) =~= there->words);
    assert(moved.take(HEADER_WORDS as int) =~= header);
    lemma_renamed_suffix(moved, HEADER_WORDS as nat, 0, to, literal_words(from));
    assert(header + stream =~= words);
    law_bytes_survive_parsing(bytes);
}

// ---------------------------------------------------------------------------
// Asset names

/// Whether a path separator starts at `i`.
pub open spec fn separator_at(s: Seq<char>, i: int) -> bool {
    0 <= i && i + 1 < s.len() && s[i] == ':' && s[i + 1] == ':'
}

/// The flat name of an entry point: what follows the last `::` of its path.
pub fn asset_entry_name(entry: &str) -> (name: &str)
    ensures
        (forall|i: int| !separator_at(entry@, i)) ==> name@ == entry@,
        forall|i: int|
            #[trigger] separator_at(entry@, i) && (forall|j: int| i < j ==> !separator_at(entry@, j))
                ==> name@ == entry@.skip(i + 2),
{
    let len: usize = entry.unicode_len();
    let mut i: usize = len;
    while i >= 2
        invariant
            i <= len,
            len == entry@.len(),
            forall|j: int| i - 1 <= j ==> !separator_at(entry@, j),
        decreases i,
    {
        if entry.get_char(i - 2) == ':' && entry.get_char(i - 1) == ':' {
            assert(separator_at(entry@, i - 2));
            return entry.substring_char(i, len);
        }
        i = i - 1;
    }
    assert forall|j: int| !separator_at(entry@, j) by {}
    entry
}

/// Records the flat name of an emitted entry point; `false` if it was taken already.
pub fn claim_entry_name(emitted: &mut Vec<String>, name: &str) -> (fresh: bool)
    ensures
        fresh == !(exists|i: int| 0 <= i < old(emitted)@.len() && #[trigger] old(emitted)@[i]@ == name@),
        fresh ==> final(emitted)@.len() == old(emitted)@.len() + 1 && final(emitted)@.drop_last()
            == old(emitted)@ && final(emitted)@.last()@ == name@,
        !fresh ==> final(emitted)@ == old(emitted)@,
{
    let owned: String = name.to_owned();
    let mut i: usize = 0;
    while i < emitted.len()
        invariant
            i <= emitted@.len(),
            emitted@ == old(emitted)@,
            owned@ == name@,
            forall|j: int| 0 <= j < i ==> #[trigger] emitted@[j]@ != name@,
        decreases emitted@.len() - i,
    {
        if emitted[i] == owned {
            return false;
        }
        i = i + 1;
    }
    emitted.push(owned);
    assert(emitted@.drop_last() =~= old(emitted)@);
    true
}

} // verus!
