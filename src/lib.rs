//! Tools for game-data archives: a disassembler that turns a binary archive
//! into annotated text lines, and a bounded pipeline that schedules file
//! operations on dropped paths.

use vstd::prelude::*;

pub mod archive;
pub mod messages;
pub mod ops;
pub mod pipeline;
pub mod text;
pub mod unpacker;

pub use ops::{
    compress_bin, container_key, extract_bin, extract_cms, CmsOutput, TextOutput, extracted_entry_message, failure_messages, is_extension,
    operation_for, output_path, pack_output_path, packed_message, rejection_messages,
    select_operation, success_message, FileOutput, Operation, PathKind,
};
pub use messages::{extract_message, pack_message, MessageArchiveError};
pub use pipeline::{
    BacklogTask, Dispatch, MainState, Message, Modifiers, Received, Task, MAX_WORKERS,
};
pub use unpacker::{
    disassemble, disassembly_text, extract_bin_from_bytes, read_c_string, render_lines,
    unpack_bin_archive, DisassemblyError, Line, WordInfo,
};

verus! {

} // verus!
