//! The ingestion pipeline as a whole: a raw backup document is sanitized,
//! then read into a `TextLog`.

use vstd::prelude::*;
use crate::model::{LogView, TextLog};
use crate::sanitize::{cleanup, cleanup_html_escapes, SanitizeError};
use crate::tree::same_text;
use crate::xml::{log_outcome, parse_log, result_view, ParseError, ParseErrorView};

verus! {

/// The two kinds of file a log is read from.
#[derive(Clone, Copy, Debug, PartialEq, Eq, Structural)]
pub enum InputFormat {
    /// A backup document, to be sanitized and read as XML.
    Xml,
    /// A log written out earlier as JSON.
    Json,
}

/// The format of a file by its extension: `xml` or `json`; any other
/// extension, or none, is not recognized.
pub fn input_format(extension: Option<&str>) -> (r: Option<InputFormat>)
    ensures
        r == match extension {
            Some(e) => if e@ == "xml"@ {
                Some(InputFormat::Xml)
            } else if e@ == "json"@ {
                Some(InputFormat::Json)
            } else {
                None
            },
            None => None::<InputFormat>,
        },
{
    match extension {
        Some(e) => if same_text(e, "xml") {
            Some(InputFormat::Xml)
        } else if same_text(e, "json") {
            Some(InputFormat::Json)
        } else {
            None
        },
        None => None,
    }
}

/// Why a backup document could not be read.
#[derive(Debug, PartialEq, Eq)]
pub enum IngestError {
    /// The character references could not be repaired.
    Sanitize(SanitizeError),
    /// The repaired document is not a valid backup.
    Parse(ParseError),
}

/// The content of an `IngestError`.
pub enum IngestErrorView {
    Sanitize(SanitizeError),
    Parse(ParseErrorView),
}

impl View for IngestError {
    type V = IngestErrorView;

    open spec fn view(&self) -> IngestErrorView {
        match self {
            IngestError::Sanitize(e) => IngestErrorView::Sanitize(*e),
            IngestError::Parse(e) => IngestErrorView::Parse(e@),
        }
    }
}

/// The log that the raw backup document `raw` describes once sanitized.
pub open spec fn backup_outcome(raw: Seq<char>) -> Result<LogView, IngestErrorView> {
    match cleanup(raw) {
        Err(e) => Err(IngestErrorView::Sanitize(e)),
        Ok(text) => match log_outcome(text) {
            Ok(log) => Ok(log),
            Err(e) => Err(IngestErrorView::Parse(e)),
        },
    }
}

/// Reads a raw backup document: repairs its split surrogate references,
/// then reads its messages.
pub fn read_backup(raw: &str) -> (r: Result<TextLog, IngestError>)
    ensures
        result_view(r) == backup_outcome(raw@),
{
    match cleanup_html_escapes(raw) {
        Err(e) => Err(IngestError::Sanitize(e)),
        Ok(text) => match parse_log(text) {
            Ok(log) => Ok(log),
            Err(e) => Err(IngestError::Parse(e)),
        },
    }
}

} // verus!
