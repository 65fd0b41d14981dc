//! A whole document for display: its bytes as base64, below a size cap, and
//! the page that a viewer opens at.
use vstd::prelude::*;
use base64::Engine;

verus! {

/// The largest document, in bytes, that is handed out whole.
pub const MAX_DOCUMENT_BYTES: u64 = 50 * 1024 * 1024;

/// Why a document cannot be handed out.
#[derive(Debug, Clone, Copy, PartialEq, Eq, Structural)]
pub enum DocumentError {
    NotFound,
    TooLarge,
}

impl DocumentError {
    /// A message for the user.
    pub fn message(&self) -> String {
        match self {
            DocumentError::NotFound => String::from_str("the document does not exist"),
            DocumentError::TooLarge => String::from_str("the document is larger than 50 MiB"),
        }
    }
}

/// What the base64 crate's standard engine makes of some bytes.
pub uninterp spec fn base64_of(b: Seq<u8>) -> Seq<char>;

/// Relies on `base64::engine::general_purpose::STANDARD.encode`: standard
/// alphabet with padding, four characters for each started group of three
/// bytes. The length bound keeps its buffer size from overflowing.
#[verifier::external_body]
fn base64_encode(data: &Vec<u8>) -> (r: String)
    requires
        data@.len() <= MAX_DOCUMENT_BYTES,
    ensures
        r@ == base64_of(data@),
        r@.len() == 4 * ((data@.len() + 2) / 3),
{
    base64::engine::general_purpose::STANDARD.encode(data)
}

/// Whether a document of `file_size` bytes may be read to be handed out.
pub fn check_document_size(file_size: u64) -> (r: Result<(), DocumentError>)
    ensures
        r is Err <==> file_size > MAX_DOCUMENT_BYTES,
        r matches Err(e) ==> e == DocumentError::TooLarge,
{
    if file_size > MAX_DOCUMENT_BYTES {
        Err(DocumentError::TooLarge)
    } else {
        Ok(())
    }
}

/// The document's bytes as base64, when neither its recorded size nor the
/// bytes read exceed the cap.
pub fn get_pdf_base64(file_size: u64, data: &Vec<u8>) -> (r: Result<String, DocumentError>)
    ensures
        r is Err <==> (file_size > MAX_DOCUMENT_BYTES || data@.len() > MAX_DOCUMENT_BYTES),
        r matches Err(e) ==> e == DocumentError::TooLarge,
        r matches Ok(s) ==> s@ == base64_of(data@) && s@.len() == 4 * ((data@.len() + 2) / 3),
{
    if file_size > MAX_DOCUMENT_BYTES || data.len() as u64 > MAX_DOCUMENT_BYTES {
        Err(DocumentError::TooLarge)
    } else {
        Ok(base64_encode(data))
    }
}

/// The page a viewer opens at: the requested page (1 when none is), within
/// `1..=total_pages` (1 when the document has no page).
pub fn viewer_page(requested: Option<u32>, total_pages: u32) -> (r: u32)
    ensures
        r == if total_pages == 0 {
            1
        } else {
            match requested {
                Some(p) => if p < 1 {
                    1
                } else if p > total_pages {
                    total_pages
                } else {
                    p
                },
                None => 1,
            }
        },
        1 <= r,
        total_pages >= 1 ==> r <= total_pages,
{
    let p = match requested {
        Some(p) => p,
        None => 1,
    };
    let p = if p > total_pages { total_pages } else { p };
    if p < 1 { 1 } else { p }
}

/// What a viewer shows of a document.
pub struct PdfViewerData {
    pub file_path: String,
    pub total_pages: u32,
    pub current_page: u32,
    pub page_content: String,
}

} // verus!
