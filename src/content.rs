//! How a fetched file is shown: inline as text, or streamed as it is.
use vstd::prelude::*;
use vstd::utf8::{encode_utf8, valid_utf8};
use crate::text::{chars_of, ends_with_chars, starts_with_chars};

verus! {

/// A file fetched from storage.
#[derive(Debug, PartialEq, Eq)]
pub struct Blob {
    pub path: String,
    pub mime: String,
    pub content: Vec<u8>,
}

/// What the page does with the requested file.
#[derive(Debug, PartialEq, Eq)]
pub enum FileContent {
    /// Stream the bytes with the file's own mime type; no listing is built.
    Passthrough,
    /// Show the listing, with the text of the file if there is one.
    Inline { content: Option<String>, is_rust_source: bool },
}

/// A mime type of the `text` family.
pub open spec fn is_text_mime(mime: Seq<char>) -> bool {
    seq!['t', 'e', 'x', 't'].is_prefix_of(mime)
}

/// A path with the `.rs` extension.
pub open spec fn is_rust_path(path: Seq<char>) -> bool {
    let ext = seq!['.', 'r', 's'];
    path.len() >= ext.len() && path.skip(path.len() - ext.len()) == ext
}

/// Relies on `String::from_utf8`: it succeeds exactly on valid UTF-8, and the
/// string then holds those bytes.
#[verifier::external_body]
fn decode_utf8(b: &Vec<u8>) -> (r: Option<String>)
    ensures
        r is Some <==> valid_utf8(b@),
        r matches Some(s) ==> encode_utf8(s@) == b@,
{
    String::from_utf8(b.clone()).ok()
}

/// Decides how the requested file is shown. Nothing fetched, or an empty
/// file, shows nothing; a non-empty file outside the `text` family is
/// streamed; a non-empty text file is shown decoded (nothing when it is not
/// valid UTF-8), marked as Rust source by its extension.
pub fn classify_blob(blob: Option<&Blob>) -> (r: FileContent)
    ensures
        blob is None ==> r == (FileContent::Inline { content: None, is_rust_source: false }),
        blob matches Some(blob) ==> classified(*blob, r),
{
    match blob {
        None => FileContent::Inline { content: None, is_rust_source: false },
        Some(b) => classify_fetched(b),
    }
}

/// How a fetched file is shown.
pub open spec fn classified(blob: Blob, r: FileContent) -> bool {
    &&& (r is Passthrough <==> !is_text_mime(blob.mime@) && blob.content@.len() > 0)
    &&& r matches FileContent::Inline { content, is_rust_source } ==> {
            &&& is_rust_source == (is_text_mime(blob.mime@) && blob.content@.len() > 0
                && is_rust_path(blob.path@))
            &&& (content is Some <==> (is_text_mime(blob.mime@) && blob.content@.len() > 0
                && valid_utf8(blob.content@)))
            &&& content matches Some(s) ==> encode_utf8(s@) == blob.content@
        }
}

fn classify_fetched(blob: &Blob) -> (r: FileContent)
    ensures
        classified(*blob, r),
{
    let text: Vec<char> = vec!['t', 'e', 'x', 't'];
    let rs: Vec<char> = vec!['.', 'r', 's'];
    let mime = chars_of(blob.mime.as_str());
    let is_text = starts_with_chars(&mime, &text);
    let empty = blob.content.len() == 0;
    if !is_text && !empty {
        FileContent::Passthrough
    } else if is_text && !empty {
        let path = chars_of(blob.path.as_str());
        FileContent::Inline {
            content: decode_utf8(&blob.content),
            is_rust_source: ends_with_chars(&path, &rs),
        }
    } else {
        FileContent::Inline { content: None, is_rust_source: false }
    }
}

} // verus!
