//! SPIR-V framing and entry-point renaming.

use asha_ui::spirv::{
    asset_entry_name, claim_entry_name, literal_string_matches, literal_string_word_count,
    rename_spirv_entry_point, spirv_bytes, spirv_words, string_words, SpirvError,
};

const HEADER: [u32; 5] = [0x0723_0203, 0x0001_0600, 0, 100, 0];

fn entry_point(name: &str, interface: &[u32]) -> Vec<u32> {
    let mut words = vec![0, 5, 7];
    words.extend(string_words(name));
    words.extend_from_slice(interface);
    words[0] = ((words.len() as u32) << 16) | 15;
    words
}

fn module(instructions: &[Vec<u32>]) -> Vec<u8> {
    let mut words = HEADER.to_vec();
    for instruction in instructions {
        words.extend_from_slice(instruction);
    }
    spirv_bytes(words)
}

#[test]
fn names_are_padded_with_zeros() {
    assert_eq!(string_words(""), vec![0]);
    assert_eq!(string_words("abc"), vec![0x0063_6261]);
    assert_eq!(string_words("main"), vec![0x6e69_616d, 0]);
    assert_eq!(string_words("é"), vec![0x0000_a9c3]);
}

#[test]
fn words_and_bytes_are_inverse() {
    let words = vec![1, 0x0203_0405, u32::MAX, 0, 7];
    let bytes = spirv_bytes(words.clone());
    assert_eq!(bytes[4..8], [5, 4, 3, 2]);
    assert_eq!(spirv_words(&bytes).unwrap(), words);
}

#[test]
fn modules_are_whole_words_and_hold_a_header() {
    assert!(matches!(spirv_words(&[0; 16]), Err(SpirvError::InvalidModuleSize)));
    assert!(matches!(spirv_words(&[0; 21]), Err(SpirvError::InvalidModuleSize)));
    assert_eq!(spirv_words(&[0; 20]).unwrap(), vec![0; 5]);
}

#[test]
fn literals_end_at_their_first_zero_byte() {
    assert_eq!(literal_string_word_count(&[0x6e69_616d, 0, 3]), Some(2));
    assert_eq!(literal_string_word_count(&[0x0063_6261]), Some(1));
    assert_eq!(literal_string_word_count(&[0x6e69_616d]), None);
    assert_eq!(literal_string_word_count(&[]), None);
    assert!(literal_string_matches(&string_words("main"), "main"));
    assert!(!literal_string_matches(&string_words("main"), "mai"));
    assert!(!literal_string_matches(&string_words("main"), "main2"));
    assert!(!literal_string_matches(&[0x6e69_616d], "main"));
}

#[test]
fn renaming_replaces_the_literal_and_keeps_the_interface() {
    let before = module(&[
        vec![(2 << 16) | 17, 1],
        entry_point("ui::quads::ui_vert", &[11, 12]),
        vec![(2 << 16) | 20, 9],
    ]);
    let after = module(&[
        vec![(2 << 16) | 17, 1],
        entry_point("ui_vert", &[11, 12]),
        vec![(2 << 16) | 20, 9],
    ]);
    assert_eq!(rename_spirv_entry_point(before, "ui::quads::ui_vert", "ui_vert").unwrap(), after);
}

#[test]
fn renaming_can_lengthen_a_name() {
    let before = module(&[entry_point("a", &[1]), entry_point("b", &[]), entry_point("a", &[2])]);
    let after = module(&[
        entry_point("a_longer_name", &[1]),
        entry_point("b", &[]),
        entry_point("a_longer_name", &[2]),
    ]);
    assert_eq!(rename_spirv_entry_point(before, "a", "a_longer_name").unwrap(), after);
}

#[test]
fn renaming_back_gives_the_module() {
    let before = module(&[entry_point("x::main", &[4])]);
    let renamed = rename_spirv_entry_point(before.clone(), "x::main", "main").unwrap();
    assert_ne!(renamed, before);
    assert_eq!(rename_spirv_entry_point(renamed, "main", "x::main").unwrap(), before);
}

#[test]
fn equal_names_leave_any_bytes_alone() {
    assert_eq!(rename_spirv_entry_point(vec![1, 2, 3], "main", "main").unwrap(), vec![1, 2, 3]);
}

#[test]
fn broken_modules_are_refused() {
    let refused = |bytes: Vec<u8>| rename_spirv_entry_point(bytes, "a", "b").unwrap_err();
    assert_eq!(refused(vec![0; 3]).message(), "invalid SPIR-V module size");
    assert_eq!(
        refused(module(&[vec![17]])).message(),
        "invalid SPIR-V instruction word count"
    );
    assert_eq!(
        refused(module(&[vec![(3 << 16) | 17, 1]])).message(),
        "SPIR-V instruction exceeds module size"
    );
    assert_eq!(
        refused(module(&[vec![(4 << 16) | 15, 5, 7, 0x6e69_616d]])).message(),
        "OpEntryPoint has no null-terminated name"
    );
    assert_eq!(
        refused(module(&[entry_point("main", &[])])).message(),
        "SPIR-V entry point \"a\" not found"
    );
    let quoted = rename_spirv_entry_point(module(&[]), "a\"b", "b").unwrap_err();
    assert_eq!(quoted.message(), "SPIR-V entry point \"a\\\"b\" not found");
}

#[test]
fn flat_names_are_the_last_segment() {
    assert_eq!(asset_entry_name("ui::quads::ui_vert"), "ui_vert");
    assert_eq!(asset_entry_name("ui_vert"), "ui_vert");
    assert_eq!(asset_entry_name("ui::"), "");
    assert_eq!(asset_entry_name(""), "");
    assert_eq!(asset_entry_name("a:b"), "a:b");
    assert_eq!(asset_entry_name("a:::b"), "b");
}

#[test]
fn flat_names_are_claimed_once() {
    let mut emitted = vec![];
    assert!(claim_entry_name(&mut emitted, "a"));
    assert!(claim_entry_name(&mut emitted, "b"));
    assert!(!claim_entry_name(&mut emitted, "a"));
    assert_eq!(emitted, vec!["a".to_owned(), "b".to_owned()]);
}
