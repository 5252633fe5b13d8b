use lumina::{extract_message, pack_message, Message, MessageArchiveError};

#[test]
fn packed_table_extracts_back() {
    let packed = pack_message("d/table.yml", "greeting: hello\nfarewell: good bye\n").unwrap();
    assert_eq!(packed.path, "d/table.m");
    assert_eq!(
        packed.messages,
        vec![Message::Success("Packed message archive 'd/table.yml' to path 'd/table.m'".to_string())]
    );
    let extracted = extract_message("d/table.m", &packed.bytes).unwrap();
    assert_eq!(extracted.path, "d/table.yml");
    assert_eq!(extracted.text, "greeting: hello\nfarewell: good bye\n");
    assert_eq!(
        extracted.messages,
        vec![Message::Success("Extracted message archive from path 'd/table.m' to 'd/table.yml'".to_string())]
    );
}

#[test]
fn malformed_text_is_refused() {
    assert!(matches!(pack_message("a.yml", "- not\n- a map\n"), Err(MessageArchiveError::Text(_))));
}

#[test]
fn short_image_is_refused() {
    assert!(matches!(extract_message("a.m", &[1, 2, 3]), Err(MessageArchiveError::Archive(_))));
}

#[test]
fn overflowing_header_is_refused() {
    let mut raw = vec![0u8; 0x20];
    raw[4..8].copy_from_slice(&0xffff_fff0u32.to_le_bytes());
    raw[8..12].copy_from_slice(&0x10u32.to_le_bytes());
    assert!(matches!(extract_message("a.m", &raw), Err(MessageArchiveError::HeaderOverflow)));
}
