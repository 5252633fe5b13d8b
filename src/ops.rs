//! The file operations that a work item runs: which one a dropped path
//! selects, and the parts of them that compute.

use vstd::prelude::*;
use vstd::string::*;
use crate::archive::{header_sizes_fit, image_parses, le_u32};
use crate::pipeline::{Message, MessageView, Modifiers, messages_view};
use crate::unpacker::{extract_bin_from_bytes, is_image_disassembly, opt_view, DisassemblyError};

verus! {

/// What a dropped path is on disk.
#[derive(Clone, Copy, PartialEq, Eq, Structural, Debug)]
pub enum PathKind {
    Directory,
    File,
    /// Neither a file nor a directory.
    Other,
}

/// The one operation that a work item runs.
#[derive(Clone, Copy, PartialEq, Eq, Structural, Debug)]
pub enum Operation {
    /// Pack a directory into a `.cmp` container.
    PackCmp,
    /// Compress a file into `.cms`.
    CompressBin,
    /// Decompress a file into `.bin`.
    DecompressBin,
    /// Extract a `.cmp` container into a directory.
    ExtractCmp,
    /// Decompress a `.cms` file, then try to disassemble it.
    ExtractCms,
    /// Extract a `.m` message archive into `.yml`.
    ExtractMessage,
    /// Disassemble a `.bin` archive into `.txt`.
    ExtractBin,
    /// Pack a `.yml` message table into `.m`.
    PackMessage,
    /// A file whose extension no operation takes.
    UnsupportedExtension,
    /// A path that is neither a file nor a directory.
    BadPath,
}

/// The extension of a path, as `std::path::Path::extension` gives it.
pub uninterp spec fn extension_of(path: Seq<char>) -> Option<Seq<char>>;

/// The path with its extension replaced, as `std::path::Path::with_extension` gives it.
pub uninterp spec fn with_extension_of(path: Seq<char>, extension: Seq<char>) -> Seq<char>;

/// The LZ10 stream of `nintendo_lz::compress` for some bytes.
pub uninterp spec fn lz10_of(bytes: Seq<u8>) -> Seq<u8>;

/// Whether `s` holds no path separator.
pub open spec fn no_separator(s: Seq<char>) -> bool {
    forall|k: int| 0 <= k < s.len() ==> s[k] != '/'
}

/// The extensions that operations write hold no separator.
proof fn lemma_extensions_plain()
    ensures
        no_separator("cms"@),
        no_separator("bin"@),
        no_separator("txt"@),
        no_separator("yml"@),
        no_separator("m"@),
        no_separator("cmp"@),
        no_separator(".cmp"@),
{
    reveal_strlit("cms");
    reveal_strlit("bin");
    reveal_strlit("txt");
    reveal_strlit("yml");
    reveal_strlit("m");
    reveal_strlit("cmp");
    reveal_strlit(".cmp");
}

/// Relies on `std::path::Path::extension`: the part of the file name after
/// its last dot, if the name has one that does not start it. Being part of
/// one file name, it holds no separator.
#[verifier::external_body]
fn path_extension(path: &str) -> (r: Option<String>)
    ensures
        opt_view(r) == extension_of(path@),
        r matches Some(e) ==> no_separator(e@),
{
    std::path::Path::new(path).extension().map(|e| e.to_string_lossy().into_owned())
}

/// Relies on `std::path::Path::with_extension`: the path with the extension
/// of its file name replaced by `extension`, which must hold no separator
/// (it panics on one).
#[verifier::external_body]
fn path_with_extension(path: &str, extension: &str) -> (r: String)
    requires
        no_separator(extension@),
    ensures
        r@ == with_extension_of(path@, extension@),
{
    std::path::Path::new(path).with_extension(extension).to_string_lossy().into_owned()
}

/// Relies on `nintendo_lz::compress` at `CompressionLevel::LZ10`: below
/// `0x1000000` input bytes, a 4-byte header (the `0x10` tag, then the input
/// length in 24 bits, little-endian) followed by the compressed stream. It
/// refuses more than `0x1000000` bytes and nothing else: the stream goes
/// into a `Vec`, which takes any write.
#[verifier::external_body]
fn lz10_compress(bytes: &[u8]) -> (r: Result<Vec<u8>, String>)
    ensures
        bytes@.len() > 0x1000000 <==> r is Err,
        r matches Ok(v) ==> v@ == lz10_of(bytes@),
        r matches Ok(v) ==> bytes@.len() < 0x1000000 ==> v@.len() >= 4 && v@[0] == 0x10
            && v@[1] as int + v@[2] as int * 0x100 + v@[3] as int * 0x10000 == bytes@.len(),
{
    let mut out: Vec<u8> = Vec::new();
    let level = nintendo_lz::CompressionLevel::LZ10;
    match nintendo_lz::compress(bytes, &mut std::io::Cursor::new(&mut out), level) {
        Ok(()) => Ok(out),
        Err(e) => Err(e.to_string()),
    }
}

/// The operation that a dropped path selects: a directory is packed; a
/// file is compressed while only the command key is held, decompressed
/// while only shift is held, and otherwise goes by its extension.
pub open spec fn operation_spec(kind: PathKind, modifiers: Modifiers, extension: Option<Seq<char>>) -> Operation {
    match kind {
        PathKind::Directory => Operation::PackCmp,
        PathKind::Other => Operation::BadPath,
        PathKind::File => if modifiers.command_only {
            Operation::CompressBin
        } else if modifiers.shift_only {
            Operation::DecompressBin
        } else if extension == Some(seq!['c', 'm', 'p']) {
            Operation::ExtractCmp
        } else if extension == Some(seq!['c', 'm', 's']) {
            Operation::ExtractCms
        } else if extension == Some(seq!['m']) {
            Operation::ExtractMessage
        } else if extension == Some(seq!['b', 'i', 'n']) {
            Operation::ExtractBin
        } else if extension == Some(seq!['y', 'm', 'l']) {
            Operation::PackMessage
        } else {
            Operation::UnsupportedExtension
        },
    }
}

fn has_text(o: &Option<String>, text: &str) -> (r: bool)
    ensures
        r == (opt_view(*o) == Some(text@)),
{
    match o {
        Some(s) => {
            let t = String::from_str(text);
            s.eq(&t)
        },
        None => false,
    }
}

/// The operation for a path of the given kind whose extension is `extension`.
pub fn operation_for(kind: PathKind, modifiers: Modifiers, extension: &Option<String>) -> (r: Operation)
    ensures
        r == operation_spec(kind, modifiers, opt_view(*extension)),
{
    proof {
        reveal_strlit("cmp");
        reveal_strlit("cms");
        reveal_strlit("m");
        reveal_strlit("bin");
        reveal_strlit("yml");
        assert("cmp"@ =~= seq!['c', 'm', 'p']);
        assert("cms"@ =~= seq!['c', 'm', 's']);
        assert("m"@ =~= seq!['m']);
        assert("bin"@ =~= seq!['b', 'i', 'n']);
        assert("yml"@ =~= seq!['y', 'm', 'l']);
    }
    match kind {
        PathKind::Directory => Operation::PackCmp,
        PathKind::Other => Operation::BadPath,
        PathKind::File => if modifiers.command_only {
            Operation::CompressBin
        } else if modifiers.shift_only {
            Operation::DecompressBin
        } else if has_text(extension, "cmp") {
            Operation::ExtractCmp
        } else if has_text(extension, "cms") {
            Operation::ExtractCms
        } else if has_text(extension, "m") {
            Operation::ExtractMessage
        } else if has_text(extension, "bin") {
            Operation::ExtractBin
        } else if has_text(extension, "yml") {
            Operation::PackMessage
        } else {
            Operation::UnsupportedExtension
        },
    }
}

/// The operation that a dropped path selects.
pub fn select_operation(kind: PathKind, modifiers: Modifiers, path: &str) -> (r: Operation)
    ensures
        r == operation_spec(kind, modifiers, extension_of(path@)),
{
    let extension = path_extension(path);
    operation_for(kind, modifiers, &extension)
}

/// Whether the path's extension is `extension`.
pub fn is_extension(path: &str, extension: &str) -> (r: bool)
    ensures
        r == (extension_of(path@) == Some(extension@)),
{
    let e = path_extension(path);
    has_text(&e, extension)
}

/// The extension of the file that an operation writes beside its input.
pub open spec fn output_extension(op: Operation) -> Option<Seq<char>> {
    match op {
        Operation::CompressBin => Some("cms"@),
        Operation::DecompressBin => Some("bin"@),
        Operation::ExtractCms => Some("bin"@),
        Operation::ExtractBin => Some("txt"@),
        Operation::ExtractMessage => Some("yml"@),
        Operation::PackMessage => Some("m"@),
        _ => None,
    }
}

/// The path of the file that an operation writes for the input `path`,
/// for the operations that write one file beside their input.
pub fn output_path(op: Operation, path: &str) -> (r: Option<String>)
    ensures
        match output_extension(op) {
            Some(e) => r is Some && r->Some_0@ == with_extension_of(path@, e),
            None => r is None,
        },
{
    proof { lemma_extensions_plain(); }
    match op {
        Operation::CompressBin => Some(path_with_extension(path, "cms")),
        Operation::DecompressBin => Some(path_with_extension(path, "bin")),
        Operation::ExtractCms => Some(path_with_extension(path, "bin")),
        Operation::ExtractBin => Some(path_with_extension(path, "txt")),
        Operation::ExtractMessage => Some(path_with_extension(path, "yml")),
        Operation::PackMessage => Some(path_with_extension(path, "m")),
        _ => None,
    }
}

/// `lead`, the first path, `mid`, the second path, and a closing quote.
pub open spec fn two_paths(lead: Seq<char>, a: Seq<char>, mid: Seq<char>, b: Seq<char>) -> Seq<char> {
    lead + a + mid + b + "'"@
}

fn two_path_text(lead: &str, a: &str, mid: &str, b: &str) -> (r: String)
    ensures
        r@ == two_paths(lead@, a@, mid@, b@),
{
    let mut s = String::from_str(lead);
    s.append(a);
    s.append(mid);
    s.append(b);
    s.append("'");
    s
}

/// The text of the success message of an operation that read `input` and
/// wrote `output`.
pub open spec fn success_text(op: Operation, input: Seq<char>, output: Seq<char>) -> Option<Seq<char>> {
    match op {
        Operation::CompressBin => Some(two_paths("Compressed path '"@, input, "' to path '"@, output)),
        Operation::DecompressBin => Some(two_paths("Decompressed path '"@, input, "' to path '"@, output)),
        Operation::ExtractCms => Some(two_paths("Decompressed cms '"@, input, "' to path '"@, output)),
        Operation::ExtractBin => Some(two_paths("Extracted bin archive '"@, input, "' to path '"@, output)),
        Operation::ExtractMessage => Some(
            two_paths("Extracted message archive from path '"@, input, "' to '"@, output),
        ),
        Operation::PackMessage => Some(two_paths("Packed message archive '"@, input, "' to path '"@, output)),
        _ => None,
    }
}

/// The success message of an operation that read `input` and wrote `output`.
pub fn success_message(op: Operation, input: &str, output: &str) -> (r: Option<Message>)
    ensures
        match success_text(op, input@, output@) {
            Some(t) => r is Some && r->Some_0@ == MessageView::Success(t),
            None => r is None,
        },
{
    let text = match op {
        Operation::CompressBin => two_path_text("Compressed path '", input, "' to path '", output),
        Operation::DecompressBin => two_path_text("Decompressed path '", input, "' to path '", output),
        Operation::ExtractCms => two_path_text("Decompressed cms '", input, "' to path '", output),
        Operation::ExtractBin => two_path_text("Extracted bin archive '", input, "' to path '", output),
        Operation::ExtractMessage => two_path_text("Extracted message archive from path '", input, "' to '", output),
        Operation::PackMessage => two_path_text("Packed message archive '", input, "' to path '", output),
        _ => return None,
    };
    Some(Message::Success(text))
}

/// The two error messages of a work item that failed: the path, then the
/// failure's detail.
pub open spec fn failure_view(path: Seq<char>, detail: Seq<char>) -> Seq<MessageView> {
    seq![
        MessageView::Error("Failed to process path '"@ + path),
        MessageView::Error(detail),
    ]
}

/// The messages of a work item that failed with `detail`.
pub fn failure_messages(path: &str, detail: &str) -> (r: Vec<Message>)
    ensures
        messages_view(r@) == failure_view(path@, detail@),
{
    let mut head = String::from_str("Failed to process path '");
    head.append(path);
    let r = vec![Message::Error(head), Message::Error(String::from_str(detail))];
    proof {
        assert(messages_view(r@) =~= failure_view(path@, detail@));
    }
    r
}

/// The failure detail of a path that selects no operation.
pub open spec fn rejection_detail(op: Operation, path: Seq<char>) -> Option<Seq<char>> {
    match op {
        Operation::UnsupportedExtension => Some("Unsupported file extension for path '"@ + path + "'"@),
        Operation::BadPath => Some("Bad path '"@ + path + "'"@),
        _ => None,
    }
}

/// The messages of a work item whose path selects no operation: two error
/// messages, and nothing for a path that selects one.
pub fn rejection_messages(op: Operation, path: &str) -> (r: Option<Vec<Message>>)
    ensures
        match rejection_detail(op, path@) {
            Some(d) => r is Some && messages_view(r->Some_0@) == failure_view(path@, d),
            None => r is None,
        },
{
    let mut detail = match op {
        Operation::UnsupportedExtension => String::from_str("Unsupported file extension for path '"),
        Operation::BadPath => String::from_str("Bad path '"),
        _ => return None,
    };
    detail.append(path);
    detail.append("'");
    Some(failure_messages(path, detail.as_str()))
}

/// What an operation hands back for writing: the file and its bytes, and
/// the messages to log.
pub struct FileOutput {
    pub path: String,
    pub bytes: Vec<u8>,
    pub messages: Vec<Message>,
}

/// Compresses the bytes `raw` read from `path` with LZ10, for writing
/// beside it with the `cms` extension.
pub fn compress_bin(path: &str, raw: &[u8]) -> (r: Result<FileOutput, String>)
    ensures
        raw@.len() > 0x1000000 <==> r is Err,
        r matches Ok(o) ==> {
            &&& o.path@ == with_extension_of(path@, "cms"@)
            &&& o.bytes@ == lz10_of(raw@)
            &&& messages_view(o.messages@) == seq![MessageView::Success(
                two_paths("Compressed path '"@, path@, "' to path '"@, o.path@),
            )]
        },
{
    proof { lemma_extensions_plain(); }
    let bytes = match lz10_compress(raw) {
        Ok(b) => b,
        Err(e) => return Err(e),
    };
    let out = path_with_extension(path, "cms");
    let text = two_path_text("Compressed path '", path, "' to path '", out.as_str());
    let messages = vec![Message::Success(text)];
    proof {
        assert(messages_view(messages@) =~= seq![MessageView::Success(
            two_paths("Compressed path '"@, path@, "' to path '"@, out@),
        )]);
    }
    Ok(FileOutput { path: out, bytes, messages })
}

/// A container entry's key: the relative path with every `\` turned into `/`.
pub open spec fn key_of(relative: Seq<char>) -> Seq<char> {
    relative.map_values(|c: char| if c == '\\' { '/' } else { c })
}

/// The key under which a file at `relative` (below the packed directory)
/// is stored in a container.
pub fn container_key(relative: &str) -> (r: String)
    ensures
        r@ == key_of(relative@),
{
    let n = relative.unicode_len();
    let mut out = String::new();
    let mut k: usize = 0;
    while k < n
        invariant
            n == relative@.len(),
            k <= n,
            out@ == key_of(relative@.take(k as int)),
        decreases n - k,
    {
        let c = relative.get_char(k);
        if c == '\\' {
            out.append("/");
            proof { reveal_strlit("/"); }
        } else {
            let piece = relative.substring_char(k, k + 1);
            out.append(piece);
        }
        proof {
            assert(key_of(relative@.take(k + 1)) =~= key_of(relative@.take(k as int)).push(
                if c == '\\' { '/' } else { c },
            ));
            assert(out@ =~= key_of(relative@.take(k + 1)));
        }
        k = k + 1;
    }
    proof {
        assert(relative@.take(n as int) =~= relative@);
    }
    out
}

/// The container that packing the directory `path` writes: `.cmp` appended
/// to the directory's extension, if it has one, else the extension `cmp`.
pub open spec fn pack_output_of(path: Seq<char>) -> Seq<char> {
    match extension_of(path) {
        Some(e) => with_extension_of(path, e + ".cmp"@),
        None => with_extension_of(path, "cmp"@),
    }
}

/// The path of the container that packing the directory `path` writes.
pub fn pack_output_path(path: &str) -> (r: String)
    ensures
        r@ == pack_output_of(path@),
{
    proof { lemma_extensions_plain(); }
    match path_extension(path) {
        Some(e) => {
            let ext = e.concat(".cmp");
            proof {
                assert forall|k: int| 0 <= k < ext@.len() implies ext@[k] != '/' by {
                    if k >= e@.len() {
                        assert(ext@[k] == ".cmp"@[k - e@.len()]);
                    }
                }
            }
            path_with_extension(path, ext.as_str())
        },
        None => path_with_extension(path, "cmp"),
    }
}

/// The text of the message that packing `count` files of `path` into
/// `output` logs.
pub open spec fn packed_text(count: nat, path: Seq<char>, output: Seq<char>) -> Seq<char> {
    "Packed '"@ + crate::text::decimal(count) + "' files under path '"@ + path + "' to cmp '"@ + output + "'"@
}

/// The message that packing `count` files of `path` into `output` logs.
pub fn packed_message(count: usize, path: &str, output: &str) -> (r: Message)
    ensures
        r@ == MessageView::Success(packed_text(count as nat, path@, output@)),
{
    let mut s = String::from_str("Packed '");
    crate::text::push_decimal(&mut s, count);
    s.append("' files under path '");
    s.append(path);
    s.append("' to cmp '");
    s.append(output);
    s.append("'");
    Message::Success(s)
}

/// The message that extracting one container entry to `path` logs.
pub fn extracted_entry_message(path: &str) -> (r: Message)
    ensures
        r@ == MessageView::Success("Extracted cmp file to path '"@ + path@ + "'"@),
{
    let mut s = String::from_str("Extracted cmp file to path '");
    s.append(path);
    s.append("'");
    Message::Success(s)
}

/// A text file to write, and the messages to log.
pub struct TextOutput {
    pub path: String,
    pub text: String,
    pub messages: Vec<Message>,
}

/// Whether `r` is what disassembling the image `raw`, read from `path`,
/// gives: the text to write beside it with the `txt` extension and its
/// message, or the failure, as `extract_bin_from_bytes` states them.
pub open spec fn bin_extraction(path: Seq<char>, raw: Seq<u8>, r: Result<TextOutput, DisassemblyError>) -> bool {
    &&& (r matches Err(DisassemblyError::HeaderOverflow)) <==> !header_sizes_fit(raw)
    &&& r matches Err(DisassemblyError::UnalignedSize(n)) ==> n == le_u32(raw, 4) && n % 4 != 0
    &&& header_sizes_fit(raw) && raw.len() >= 0x20 && le_u32(raw, 4) % 4 != 0 ==> r is Err
    &&& header_sizes_fit(raw) && image_parses(raw) && le_u32(raw, 4) % 4 == 0 ==> r is Ok
    &&& r matches Err(DisassemblyError::Archive(_)) ==> header_sizes_fit(raw) && !image_parses(raw)
    &&& r matches Ok(o) ==> {
        &&& o.path@ == with_extension_of(path, "txt"@)
        &&& is_image_disassembly(raw, o.text@)
        &&& messages_view(o.messages@) == seq![MessageView::Success(
            success_text(Operation::ExtractBin, path, o.path@)->Some_0,
        )]
    }
}

/// Disassembles the archive image `raw`, read from `path`, for writing
/// beside it with the `txt` extension. It succeeds exactly when
/// `extract_bin_from_bytes` does, with the same text.
pub fn extract_bin(path: &str, raw: &[u8]) -> (r: Result<TextOutput, DisassemblyError>)
    ensures
        bin_extraction(path@, raw@, r),
{
    proof { lemma_extensions_plain(); }
    let text = match extract_bin_from_bytes(raw) {
        Ok(t) => t,
        Err(e) => return Err(e),
    };
    let out = path_with_extension(path, "txt");
    let message = success_message(Operation::ExtractBin, path, out.as_str()).unwrap();
    let messages = vec![message];
    proof {
        assert(messages_view(messages@) =~= seq![MessageView::Success(
            success_text(Operation::ExtractBin, path@, out@)->Some_0,
        )]);
    }
    Ok(TextOutput { path: out, text, messages })
}

/// What extracting a compressed archive writes: the decompressed bytes, and
/// the outcome of disassembling them.
pub struct CmsOutput {
    pub bin: FileOutput,
    pub text: Result<TextOutput, DisassemblyError>,
}

/// Extracts a compressed archive read from `path`, given its decompressed
/// bytes: they are written beside it with the `bin` extension, and a
/// disassembly with the `txt` extension is attempted as well. When that
/// fails, its failure is not logged: the messages are the decompression's
/// alone.
pub fn extract_cms(path: &str, decompressed: Vec<u8>) -> (r: CmsOutput)
    ensures
        r.bin.path@ == with_extension_of(path@, "bin"@),
        r.bin.bytes@ == decompressed@,
        bin_extraction(path@, decompressed@, r.text),
        messages_view(r.bin.messages@) == seq![MessageView::Success(
            success_text(Operation::ExtractCms, path@, r.bin.path@)->Some_0,
        )] + match r.text {
            Ok(t) => messages_view(t.messages@),
            Err(_) => seq![],
        },
{
    proof { lemma_extensions_plain(); }
    let out = path_with_extension(path, "bin");
    let first = success_message(Operation::ExtractCms, path, out.as_str()).unwrap();
    let mut messages = vec![first];
    let ghost m0 = messages@;
    let text = extract_bin(path, decompressed.as_slice());
    match &text {
        Ok(t) => {
            let m = success_message(Operation::ExtractBin, path, t.path.as_str()).unwrap();
            messages.push(m);
        },
        Err(_) => {},
    }
    let r = CmsOutput { bin: FileOutput { path: out, bytes: decompressed, messages }, text };
    proof {
        assert(messages_view(r.bin.messages@) =~= seq![MessageView::Success(
            success_text(Operation::ExtractCms, path@, r.bin.path@)->Some_0,
        )] + match r.text {
            Ok(t) => messages_view(t.messages@),
            Err(_) => seq![],
        });
    }
    r
}

} // verus!
