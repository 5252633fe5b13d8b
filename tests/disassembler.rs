use lumina::{
    extract_bin, extract_cms, Message,
    disassemble, disassembly_text, extract_bin_from_bytes, read_c_string, render_lines,
    DisassemblyError, Line, WordInfo,
};

fn raw(bytes: [u8; 4]) -> WordInfo {
    WordInfo { pointer: None, labels: vec![], inline_text: None, text: None, text_words: 1, bytes }
}

fn pointer(to: usize) -> WordInfo {
    WordInfo { pointer: Some(to), ..raw([0, 0, 0, 0]) }
}

fn le(v: u32) -> [u8; 4] {
    v.to_le_bytes()
}

/// An archive image: the header, the data, the pointer table, the label
/// table, then the label texts.
fn image(data: &[u8], pointers: &[u32], labels: &[(u32, &str)]) -> Vec<u8> {
    let mut table = Vec::new();
    let mut texts = Vec::new();
    for p in pointers {
        table.extend_from_slice(&le(*p));
    }
    for (address, text) in labels {
        table.extend_from_slice(&le(*address));
        table.extend_from_slice(&le(texts.len() as u32));
        texts.extend_from_slice(text.as_bytes());
        texts.push(0);
    }
    let size = 0x20 + data.len() + table.len() + texts.len();
    let mut out = Vec::new();
    out.extend_from_slice(&le(size as u32));
    out.extend_from_slice(&le(data.len() as u32));
    out.extend_from_slice(&le(pointers.len() as u32));
    out.extend_from_slice(&le(labels.len() as u32));
    out.resize(0x20, 0);
    out.extend_from_slice(data);
    out.extend_from_slice(&table);
    out.extend_from_slice(&texts);
    out
}

#[test]
fn ids_follow_discovery_order() {
    let words = vec![pointer(16), pointer(20), pointer(16), raw([0; 4]), raw([1; 4]), raw([2; 4])];
    let lines = disassemble(&words);
    assert_eq!(
        lines,
        vec![
            Line::PointerSource(0, None),
            Line::PointerSource(1, None),
            Line::PointerSource(0, None),
            Line::RawWord([0; 4]),
            Line::Destination(0),
            Line::RawWord([1; 4]),
            Line::Destination(1),
            Line::RawWord([2; 4]),
        ]
    );
}

#[test]
fn ids_are_dense_when_destinations_descend() {
    let words = vec![pointer(12), pointer(8), pointer(4), raw([9; 4])];
    let text = disassembly_text(&words);
    assert_eq!(text, "SRC: 0\nDEST: 2\nSRC: 1\nDEST: 1\nSRC: 2\nDEST: 0\n09090909");
}

#[test]
fn destination_precedes_string_content() {
    let mut target = raw(*b"hi\0\0");
    target.text = Some("hi".to_string());
    let words = vec![pointer(8), raw([0; 4]), target, raw([0; 4])];
    let lines = disassemble(&words);
    assert_eq!(
        lines,
        vec![
            Line::PointerSource(0, None),
            Line::RawWord([0; 4]),
            Line::Destination(0),
            Line::PlainString("hi".to_string()),
            Line::RawWord([0; 4]),
        ]
    );
}

#[test]
fn labels_follow_destination_in_order() {
    let mut w = raw([0xab, 0xcd, 0x01, 0xef]);
    w.labels = vec!["first".to_string(), "second".to_string()];
    let words = vec![w, pointer(0)];
    assert_eq!(
        disassembly_text(&words),
        "DEST: 0\nLABEL: first\nLABEL: second\nABCD01EF\nSRC: 0"
    );
}

#[test]
fn inline_text_decorates_pointer_source() {
    let mut a = pointer(4);
    a.inline_text = Some("note".to_string());
    let mut b = pointer(0);
    b.inline_text = Some("   ".to_string());
    let text = disassembly_text(&vec![a, b]);
    assert_eq!(text, "DEST: 1\nSRC: 0 // note\nDEST: 0\nSRC: 1");
    assert_eq!(disassembly_text(&vec![{
        let mut c = pointer(0);
        c.inline_text = Some(String::new());
        c
    }]), "DEST: 0\nSRC: 0");
}

#[test]
fn multi_word_string_consumes_its_span() {
    let mut s = raw(*b"long");
    s.text = Some("longer text".to_string());
    s.text_words = 3;
    let mut inner = raw([5; 4]);
    inner.labels = vec!["hidden".to_string()];
    let words = vec![s, inner, raw([6; 4]), raw([7; 4])];
    let lines = disassemble(&words);
    assert_eq!(lines, vec![Line::PlainString("longer text".to_string()), Line::RawWord([7; 4])]);
    // The line count is one content line per visited word, plus the extra lines.
    assert_eq!(lines.len(), 2);
}

#[test]
fn line_count_adds_headers_to_content() {
    let mut w = raw([1; 4]);
    w.labels = vec!["a".to_string(), "b".to_string()];
    let words = vec![pointer(0), w, pointer(0)];
    let lines = disassemble(&words);
    // Three content lines, one destination line, two labels.
    assert_eq!(lines.len(), 6);
}

#[test]
fn disassembly_is_deterministic() {
    let mut w = raw([1, 2, 3, 4]);
    w.labels = vec!["x".to_string()];
    let words = vec![pointer(8), w, pointer(8), raw([0; 4])];
    assert_eq!(disassemble(&words), disassemble(&words));
    assert_eq!(disassembly_text(&words), disassembly_text(&words));
}

#[test]
fn empty_input_gives_empty_text() {
    assert_eq!(disassembly_text(&vec![]), "");
    assert_eq!(render_lines(&vec![]), "");
}

#[test]
fn large_ids_print_in_decimal() {
    assert_eq!(render_lines(&vec![Line::Destination(1207), Line::PointerSource(10, None)]), "DEST: 1207\nSRC: 10");
}

#[test]
fn c_string_needs_printable_bytes_and_terminator() {
    assert_eq!(read_c_string(b"abc\0def"), Some(b"abc".to_vec()));
    assert_eq!(read_c_string(b"abc"), None);
    assert_eq!(read_c_string(b"\0abc"), None);
    assert_eq!(read_c_string(&[0x08, 0, 0, 0]), None);
    assert_eq!(read_c_string(&[b'a', 0x01, 0]), None);
}

#[test]
fn archive_image_with_pointer_and_label() {
    let mut data = Vec::new();
    data.extend_from_slice(&le(8));
    data.extend_from_slice(&[0; 4]);
    data.extend_from_slice(b"hi\0\0");
    data.extend_from_slice(&[0; 4]);
    let bytes = image(&data, &[0], &[(8, "start")]);
    let text = extract_bin_from_bytes(&bytes).unwrap();
    assert_eq!(text, "SRC: 0\n00000000\nDEST: 0\nLABEL: start\n68690000\n00000000");
}

#[test]
fn archive_pointer_source_reads_inline_text() {
    // The pointer at 0 holds 64, whose first byte is '@' and second zero.
    let mut data = Vec::new();
    data.extend_from_slice(&le(64));
    data.resize(72, 0);
    let bytes = image(&data, &[0], &[]);
    let text = extract_bin_from_bytes(&bytes).unwrap();
    let mut expected = String::from("SRC: 0 // @\n");
    for _ in 0..15 {
        expected.push_str("00000000\n");
    }
    expected.push_str("DEST: 0\n00000000\n00000000");
    assert_eq!(text, expected);
}

#[test]
fn archive_with_unaligned_data_is_refused() {
    let bytes = image(&[1, 2, 3, 4, 5, 6], &[], &[]);
    assert!(matches!(extract_bin_from_bytes(&bytes), Err(DisassemblyError::UnalignedSize(6))));
}

#[test]
fn archive_header_overflow_is_refused() {
    let mut bytes = image(&[0; 8], &[], &[]);
    bytes[12..16].copy_from_slice(&le(0x4000_0000));
    assert!(matches!(extract_bin_from_bytes(&bytes), Err(DisassemblyError::HeaderOverflow)));
}

#[test]
fn truncated_archive_is_an_archive_error() {
    assert!(matches!(extract_bin_from_bytes(&[0; 8]), Err(DisassemblyError::Archive(_))));
}

fn small_image() -> Vec<u8> {
    let mut data = Vec::new();
    data.extend_from_slice(&le(4));
    data.extend_from_slice(&[0xde, 0xad, 0xbe, 0xef]);
    image(&data, &[0], &[])
}

#[test]
fn extract_bin_writes_text_beside_input() {
    let out = extract_bin("d/a.bin", &small_image()).unwrap();
    assert_eq!(out.path, "d/a.txt");
    assert_eq!(out.text, "SRC: 0\nDEST: 0\nDEADBEEF");
    assert_eq!(
        out.messages,
        vec![Message::Success("Extracted bin archive 'd/a.bin' to path 'd/a.txt'".to_string())]
    );
}

#[test]
fn extract_cms_also_disassembles_an_archive() {
    let bytes = small_image();
    let out = extract_cms("d/a.cms", bytes.clone());
    assert_eq!(out.bin.path, "d/a.bin");
    assert_eq!(out.bin.bytes, bytes);
    let text = out.text.unwrap();
    assert_eq!(text.path, "d/a.txt");
    assert_eq!(text.text, "SRC: 0\nDEST: 0\nDEADBEEF");
    assert_eq!(
        out.bin.messages,
        vec![
            Message::Success("Decompressed cms 'd/a.cms' to path 'd/a.bin'".to_string()),
            Message::Success("Extracted bin archive 'd/a.cms' to path 'd/a.txt'".to_string()),
        ]
    );
}

#[test]
fn extract_cms_drops_a_failed_disassembly() {
    let out = extract_cms("a.cms", vec![1, 2, 3]);
    assert_eq!(out.bin.bytes, vec![1, 2, 3]);
    assert!(out.text.is_err());
    assert_eq!(
        out.bin.messages,
        vec![Message::Success("Decompressed cms 'a.cms' to path 'a.bin'".to_string())]
    );
}

#[test]
fn whitespace_inline_text_is_dropped() {
    let mut a = pointer(0);
    a.inline_text = Some("\t \u{3000}\n".to_string());
    let mut b = pointer(0);
    b.inline_text = Some(" x ".to_string());
    assert_eq!(disassembly_text(&vec![a, b]), "DEST: 0\nSRC: 0\nSRC: 0 //  x ");
}

#[test]
fn archive_ids_follow_discovery_order() {
    let mut data = Vec::new();
    data.extend_from_slice(&le(16));
    data.extend_from_slice(&le(20));
    data.extend_from_slice(&le(16));
    data.resize(24, 0);
    let bytes = image(&data, &[0, 4, 8], &[]);
    let text = extract_bin_from_bytes(&bytes).unwrap();
    assert_eq!(text, "SRC: 0\nSRC: 1\nSRC: 0\n00000000\nDEST: 0\n00000000\nDEST: 1\n00000000");
    // Six visited words and two destination lines.
    assert_eq!(text.split('\n').count(), 8);
}

#[test]
fn archive_destination_precedes_text_entry() {
    // The word at 8 refers to the text "hi", stored after the pointer table.
    let mut data = Vec::new();
    data.extend_from_slice(&le(8));
    data.extend_from_slice(&[0; 4]);
    data.extend_from_slice(&le(24));
    data.extend_from_slice(&[0; 4]);
    let mut bytes = image(&data, &[0, 8], &[]);
    bytes.extend_from_slice(b"hi\0");
    let size = bytes.len() as u32;
    bytes[0..4].copy_from_slice(&le(size));
    let text = extract_bin_from_bytes(&bytes).unwrap();
    assert_eq!(text, "SRC: 0\n00000000\nDEST: 0\nhi\n00000000");
}
