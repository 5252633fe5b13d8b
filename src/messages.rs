//! Message archives: keyed string tables stored as archives, and the
//! human-editable key/value text form they are extracted to.

use vstd::prelude::*;
use crate::archive::{header_fits, header_sizes_fit};
use crate::ops::{
    output_path, success_message, success_text, with_extension_of, FileOutput, Operation, TextOutput,
};
use crate::pipeline::{Message, MessageView, messages_view};

verus! {

#[verifier::external_type_specification]
#[verifier::external_body]
pub struct ExTextArchive(mila::TextArchive);

#[verifier::external_type_specification]
#[verifier::external_body]
pub struct ExTextArchiveError(mila::TextArchiveError);

#[verifier::external_type_specification]
#[verifier::external_body]
pub struct ExYamlError(serde_yaml::Error);

/// Whether `mila::TextArchive::from_bytes` reads the image without error.
pub uninterp spec fn text_image_parses(image: Seq<u8>) -> bool;

/// Whether `serde_yaml::from_str` reads the text as an ordered map of strings.
pub uninterp spec fn yaml_reads(text: Seq<char>) -> bool;

/// Whether `mila::TextArchive::serialize` writes an archive with this title
/// and these pairs without error (it fails on text it cannot encode).
pub uninterp spec fn archive_serializes(title: Seq<char>, entries: Seq<(Seq<char>, Seq<char>)>) -> bool;

/// The key/message pairs that a text archive holds, in its order.
pub uninterp spec fn text_entries(a: mila::TextArchive) -> Seq<(Seq<char>, Seq<char>)>;

/// The title that a text archive holds.
pub uninterp spec fn text_title(a: mila::TextArchive) -> Seq<char>;

/// The pairs that `mila::TextArchive::from_bytes` reads from an image.
pub uninterp spec fn image_entries(image: Seq<u8>) -> Seq<(Seq<char>, Seq<char>)>;

/// The image that `mila::TextArchive::serialize` writes for a title and pairs.
pub uninterp spec fn archive_image_of(title: Seq<char>, entries: Seq<(Seq<char>, Seq<char>)>) -> Seq<u8>;

/// The key/value text that `serde_yaml::to_string` writes for the pairs,
/// taken as an ordered map.
pub uninterp spec fn yaml_of(entries: Seq<(Seq<char>, Seq<char>)>) -> Seq<char>;

/// The pairs that `serde_yaml::from_str` reads from a key/value text, as an
/// ordered map of strings.
pub uninterp spec fn yaml_entries(text: Seq<char>) -> Seq<(Seq<char>, Seq<char>)>;

/// The views of key/message pairs.
pub open spec fn entries_view(v: Seq<(String, String)>) -> Seq<(Seq<char>, Seq<char>)> {
    v.map_values(|e: (String, String)| (e.0@, e.1@))
}

/// A message with each `\n` escape (a backslash, then `n`) turned into a
/// line break, left to right.
pub open spec fn unescaped(m: Seq<char>) -> Seq<char>
    decreases m.len(),
{
    if m.len() < 2 {
        m
    } else if m[0] == '\\' && m[1] == 'n' {
        seq!['\n'] + unescaped(m.skip(2))
    } else {
        seq![m[0]] + unescaped(m.skip(1))
    }
}

/// The pairs after storing `v` under `k`: an older pair of that key leaves,
/// and the new one goes last.
pub open spec fn set_entry(
    es: Seq<(Seq<char>, Seq<char>)>,
    k: Seq<char>,
    v: Seq<char>,
) -> Seq<(Seq<char>, Seq<char>)> {
    es.filter(|e: (Seq<char>, Seq<char>)| e.0 != k).push((k, v))
}

/// The pairs of an empty archive after storing the first `n` of `es` in order.
pub open spec fn stored(es: Seq<(Seq<char>, Seq<char>)>, n: int) -> Seq<(Seq<char>, Seq<char>)>
    decreases n,
{
    if n <= 0 {
        seq![]
    } else {
        set_entry(stored(es, n - 1), es[n - 1].0, unescaped(es[n - 1].1))
    }
}

/// Relies on `mila::TextArchive::from_bytes`, which reads the image with
/// `mila::BinArchive::from_bytes` (see `parse_archive`) and then its entries.
#[verifier::external_body]
fn text_archive_from_bytes(raw: &[u8]) -> (r: Result<mila::TextArchive, mila::TextArchiveError>)
    requires
        header_sizes_fit(raw@),
    ensures
        r is Ok <==> text_image_parses(raw@),
        r matches Ok(a) ==> text_entries(a) == image_entries(raw@),
{
    mila::TextArchive::from_bytes(raw)
}

/// Relies on `mila::TextArchive::get_entries`: the key/message pairs, in
/// the archive's order.
#[verifier::external_body]
fn text_archive_entries(archive: &mila::TextArchive) -> (r: Vec<(String, String)>)
    ensures
        entries_view(r@) == text_entries(*archive),
{
    archive.get_entries().iter().map(|(k, v)| (k.clone(), v.clone())).collect()
}

/// Relies on `mila::TextArchive::new`: an archive with an empty title and
/// no entries.
#[verifier::external_body]
fn text_archive_new() -> (r: mila::TextArchive)
    ensures
        text_entries(r) == Seq::<(Seq<char>, Seq<char>)>::empty(),
        text_title(r) == Seq::<char>::empty(),
{
    mila::TextArchive::new()
}

/// Relies on `mila::TextArchive::set_message`: stores `message`, with its
/// `\n` escapes turned into line breaks, under `key`, which goes last in
/// the linked map's order.
#[verifier::external_body]
fn text_archive_set_message(archive: &mut mila::TextArchive, key: &str, message: &str)
    ensures
        text_entries(*final(archive)) == set_entry(text_entries(*old(archive)), key@, unescaped(message@)),
        text_title(*final(archive)) == text_title(*old(archive)),
{
    archive.set_message(key, message)
}

/// Relies on `mila::TextArchive::serialize`: the archive's image, written
/// from its title and entries.
#[verifier::external_body]
fn text_archive_serialize(archive: &mila::TextArchive) -> (r: Result<Vec<u8>, mila::TextArchiveError>)
    ensures
        r is Ok <==> archive_serializes(text_title(*archive), text_entries(*archive)),
        r matches Ok(v) ==> v@ == archive_image_of(text_title(*archive), text_entries(*archive)),
{
    archive.serialize()
}

/// Relies on `serde_yaml::to_string`: the key/value text of the pairs, as
/// an ordered map. It fails only where the value's `Serialize` impl does,
/// which a map of strings never does.
#[verifier::external_body]
fn yaml_of_entries(entries: Vec<(String, String)>) -> (r: Result<String, serde_yaml::Error>)
    ensures
        r is Ok,
        r matches Ok(t) ==> t@ == yaml_of(entries_view(entries@)),
{
    let map: indexmap::IndexMap<String, String> = entries.into_iter().collect();
    serde_yaml::to_string(&map)
}

/// Relies on `serde_yaml::from_str`: the pairs of a key/value text, read as
/// an ordered map of strings.
#[verifier::external_body]
fn entries_of_yaml(text: &str) -> (r: Result<Vec<(String, String)>, serde_yaml::Error>)
    ensures
        r is Ok <==> yaml_reads(text@),
        r matches Ok(v) ==> entries_view(v@) == yaml_entries(text@),
{
    serde_yaml::from_str::<indexmap::IndexMap<String, String>>(text).map(|m| m.into_iter().collect())
}

/// Why a message archive could not be converted.
#[derive(Debug)]
pub enum MessageArchiveError {
    /// The archive could not be read or written.
    Archive(mila::TextArchiveError),
    /// The key/value text could not be read or written.
    Text(serde_yaml::Error),
    /// The image's header sizes overflow 32 bits.
    HeaderOverflow,
}

/// Extracts the message archive `raw`, read from `path`, to its key/value
/// text, for writing beside it with the `yml` extension.
pub fn extract_message(path: &str, raw: &[u8]) -> (r: Result<TextOutput, MessageArchiveError>)
    ensures
        (r matches Err(MessageArchiveError::HeaderOverflow)) <==> !header_sizes_fit(raw@),
        (r matches Err(MessageArchiveError::Archive(_))) <==> (header_sizes_fit(raw@) && !text_image_parses(raw@)),
        !(r matches Err(MessageArchiveError::Text(_))),
        header_sizes_fit(raw@) && text_image_parses(raw@) ==> r is Ok,
        r matches Ok(o) ==> {
            &&& o.path@ == with_extension_of(path@, "yml"@)
            &&& o.text@ == yaml_of(image_entries(raw@))
            &&& messages_view(o.messages@) == seq![MessageView::Success(
                success_text(Operation::ExtractMessage, path@, o.path@)->Some_0,
            )]
        },
{
    if !header_fits(raw) {
        return Err(MessageArchiveError::HeaderOverflow);
    }
    let archive = match text_archive_from_bytes(raw) {
        Ok(a) => a,
        Err(e) => return Err(MessageArchiveError::Archive(e)),
    };
    let entries = text_archive_entries(&archive);
    let text = match yaml_of_entries(entries) {
        Ok(t) => t,
        Err(e) => return Err(MessageArchiveError::Text(e)),
    };
    let out = output_path(Operation::ExtractMessage, path).unwrap();
    let message = success_message(Operation::ExtractMessage, path, out.as_str()).unwrap();
    let messages = vec![message];
    proof {
        assert(messages_view(messages@) =~= seq![MessageView::Success(
            success_text(Operation::ExtractMessage, path@, out@)->Some_0,
        )]);
    }
    Ok(TextOutput { path: out, text, messages })
}

/// Packs the key/value text `text`, read from `path`, into a message
/// archive, for writing beside it with the `m` extension. Entries keep the
/// text's order.
pub fn pack_message(path: &str, text: &str) -> (r: Result<FileOutput, MessageArchiveError>)
    ensures
        r matches Ok(o) ==> {
            &&& o.path@ == with_extension_of(path@, "m"@)
            &&& o.bytes@ == archive_image_of(Seq::empty(), stored(yaml_entries(text@), yaml_entries(text@).len() as int))
            &&& messages_view(o.messages@) == seq![MessageView::Success(
                success_text(Operation::PackMessage, path@, o.path@)->Some_0,
            )]
        },
        !(r matches Err(MessageArchiveError::HeaderOverflow)),
        (r matches Err(MessageArchiveError::Text(_))) <==> !yaml_reads(text@),
        (r matches Err(MessageArchiveError::Archive(_))) <==> (yaml_reads(text@) && !archive_serializes(
            Seq::empty(),
            stored(yaml_entries(text@), yaml_entries(text@).len() as int),
        )),
        yaml_reads(text@) && archive_serializes(
            Seq::empty(),
            stored(yaml_entries(text@), yaml_entries(text@).len() as int),
        ) ==> r is Ok,
{
    let entries = match entries_of_yaml(text) {
        Ok(e) => e,
        Err(e) => return Err(MessageArchiveError::Text(e)),
    };
    let ghost es = entries_view(entries@);
    let mut archive = text_archive_new();
    let mut k: usize = 0;
    while k < entries.len()
        invariant
            k <= entries@.len(),
            es == entries_view(entries@),
            text_entries(archive) == stored(es, k as int),
            text_title(archive) == Seq::<char>::empty(),
        decreases entries@.len() - k,
    {
        let (key, message) = &entries[k];
        text_archive_set_message(&mut archive, key.as_str(), message.as_str());
        k = k + 1;
    }
    let bytes = match text_archive_serialize(&archive) {
        Ok(b) => b,
        Err(e) => return Err(MessageArchiveError::Archive(e)),
    };
    let out = output_path(Operation::PackMessage, path).unwrap();
    let message = success_message(Operation::PackMessage, path, out.as_str()).unwrap();
    let messages = vec![message];
    proof {
        assert(messages_view(messages@) =~= seq![MessageView::Success(
            success_text(Operation::PackMessage, path@, out@)->Some_0,
        )]);
    }
    Ok(FileOutput { path: out, bytes, messages })
}

} // verus!
