use lumina::{
    compress_bin, container_key, extracted_entry_message, failure_messages, is_extension,
    operation_for, output_path, pack_output_path, packed_message, rejection_messages,
    select_operation, success_message, Message, Modifiers, Operation, PathKind,
};

const PLAIN: Modifiers = Modifiers { command_only: false, shift_only: false };
const COMMAND: Modifiers = Modifiers { command_only: true, shift_only: false };
const SHIFT: Modifiers = Modifiers { command_only: false, shift_only: true };

#[test]
fn directory_is_packed_whatever_is_held() {
    assert_eq!(select_operation(PathKind::Directory, PLAIN, "mods/data"), Operation::PackCmp);
    assert_eq!(select_operation(PathKind::Directory, COMMAND, "mods/data.bin"), Operation::PackCmp);
}

#[test]
fn modifiers_come_before_extension() {
    assert_eq!(select_operation(PathKind::File, COMMAND, "a.cmp"), Operation::CompressBin);
    assert_eq!(select_operation(PathKind::File, SHIFT, "a.cmp"), Operation::DecompressBin);
}

#[test]
fn extension_selects_operation() {
    assert_eq!(select_operation(PathKind::File, PLAIN, "x/a.cmp"), Operation::ExtractCmp);
    assert_eq!(select_operation(PathKind::File, PLAIN, "x/a.cms"), Operation::ExtractCms);
    assert_eq!(select_operation(PathKind::File, PLAIN, "x/a.m"), Operation::ExtractMessage);
    assert_eq!(select_operation(PathKind::File, PLAIN, "x/a.bin"), Operation::ExtractBin);
    assert_eq!(select_operation(PathKind::File, PLAIN, "x/a.yml"), Operation::PackMessage);
    assert_eq!(select_operation(PathKind::File, PLAIN, "foo.xyz"), Operation::UnsupportedExtension);
    assert_eq!(select_operation(PathKind::File, PLAIN, "noext"), Operation::UnsupportedExtension);
    assert_eq!(select_operation(PathKind::Other, PLAIN, "a.bin"), Operation::BadPath);
    assert_eq!(operation_for(PathKind::File, PLAIN, &Some("yml".to_string())), Operation::PackMessage);
    assert_eq!(operation_for(PathKind::File, PLAIN, &None), Operation::UnsupportedExtension);
}

#[test]
fn extension_test_reads_the_last_dot() {
    assert!(is_extension("dir/a.tar.cmp", "cmp"));
    assert!(!is_extension("dir/a.cmpx", "cmp"));
    assert!(!is_extension("dir/cmp", "cmp"));
    assert!(!is_extension(".cmp", "cmp"));
}

#[test]
fn unsupported_file_gives_two_errors() {
    let messages = rejection_messages(Operation::UnsupportedExtension, "foo.xyz").unwrap();
    assert_eq!(
        messages,
        vec![
            Message::Error("Failed to process path 'foo.xyz".to_string()),
            Message::Error("Unsupported file extension for path 'foo.xyz'".to_string()),
        ]
    );
    let bad = rejection_messages(Operation::BadPath, "gone").unwrap();
    assert_eq!(bad[1], Message::Error("Bad path 'gone'".to_string()));
    assert!(rejection_messages(Operation::ExtractBin, "a.bin").is_none());
}

#[test]
fn failure_has_path_then_detail() {
    assert_eq!(
        failure_messages("a.cms", "corrupt stream"),
        vec![
            Message::Error("Failed to process path 'a.cms".to_string()),
            Message::Error("corrupt stream".to_string()),
        ]
    );
}

#[test]
fn output_paths_follow_the_operation() {
    assert_eq!(output_path(Operation::CompressBin, "d/a.bin"), Some("d/a.cms".to_string()));
    assert_eq!(output_path(Operation::DecompressBin, "d/a.cms"), Some("d/a.bin".to_string()));
    assert_eq!(output_path(Operation::ExtractCms, "d/a.cms"), Some("d/a.bin".to_string()));
    assert_eq!(output_path(Operation::ExtractBin, "d/a.bin"), Some("d/a.txt".to_string()));
    assert_eq!(output_path(Operation::ExtractMessage, "d/a.m"), Some("d/a.yml".to_string()));
    assert_eq!(output_path(Operation::PackMessage, "d/a.yml"), Some("d/a.m".to_string()));
    assert_eq!(output_path(Operation::PackCmp, "d/a"), None);
}

#[test]
fn compress_writes_lz10_beside_input() {
    let raw: Vec<u8> = b"abcabcabcabcabcabcabcabc hello hello hello".to_vec();
    let out = compress_bin("d/a.bin", &raw).unwrap();
    assert_eq!(out.path, "d/a.cms");
    assert_eq!(out.bytes[0], 0x10);
    assert_eq!(out.bytes[1] as usize + out.bytes[2] as usize * 0x100 + out.bytes[3] as usize * 0x10000, raw.len());
    assert_ne!(out.bytes, raw);
    assert_eq!(
        out.messages,
        vec![Message::Success("Compressed path 'd/a.bin' to path 'd/a.cms'".to_string())]
    );
}

#[test]
fn compression_round_trips() {
    for raw in [vec![], vec![7u8], b"aaaaaaaaaaaaaaaaaaaaaaaaaaaaaaaaaaab".to_vec(), (0..=255u8).cycle().take(5000).collect()] {
        let out = compress_bin("x", &raw).unwrap();
        assert_eq!(nintendo_lz::decompress_arr(&out.bytes).unwrap(), raw);
    }
}

#[test]
fn oversized_input_is_refused() {
    let raw = vec![0u8; 0x1000001];
    assert!(compress_bin("big.bin", &raw).is_err());
}

#[test]
fn success_messages_name_both_paths() {
    assert_eq!(
        success_message(Operation::ExtractBin, "a.bin", "a.txt"),
        Some(Message::Success("Extracted bin archive 'a.bin' to path 'a.txt'".to_string()))
    );
    assert_eq!(
        success_message(Operation::ExtractMessage, "a.m", "a.yml"),
        Some(Message::Success("Extracted message archive from path 'a.m' to 'a.yml'".to_string()))
    );
    assert_eq!(
        success_message(Operation::DecompressBin, "a.cms", "a.bin"),
        Some(Message::Success("Decompressed path 'a.cms' to path 'a.bin'".to_string()))
    );
    assert_eq!(success_message(Operation::BadPath, "a", "b"), None);
}

#[test]
fn container_keys_use_forward_slashes() {
    assert_eq!(container_key("a\\x.txt"), "a/x.txt");
    assert_eq!(container_key("b/y.txt"), "b/y.txt");
    assert_eq!(container_key(""), "");
}

#[test]
fn pack_output_appends_cmp() {
    assert_eq!(pack_output_path("mods/data"), "mods/data.cmp");
    assert_eq!(pack_output_path("mods/data.v1"), "mods/data.v1.cmp");
}

#[test]
fn packing_two_files_reports_the_count() {
    assert_eq!(
        packed_message(2, "mods/data", "mods/data.cmp"),
        Message::Success("Packed '2' files under path 'mods/data' to cmp 'mods/data.cmp'".to_string())
    );
    assert_eq!(
        extracted_entry_message("out/a/x.txt"),
        Message::Success("Extracted cmp file to path 'out/a/x.txt'".to_string())
    );
}
