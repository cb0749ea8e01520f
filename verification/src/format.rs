//! The document formats.

use vstd::prelude::*;
use crate::text;

verus! {

/// A format that a document can be written in.
#[derive(Clone, Copy, Debug, PartialEq, Eq, Structural)]
pub enum Format {
    Djot,
    Markdown,
    Xml,
    Html,
}

/// The format that a file name's extension stands for, whatever its case.
pub open spec fn format_of(extension: Seq<char>) -> Option<Format> {
    let ext = text::lower(extension);
    if ext == "dj"@ || ext == "djot"@ {
        Some(Format::Djot)
    } else if ext == "md"@ || ext == "markdown"@ {
        Some(Format::Markdown)
    } else if ext == "xml"@ {
        Some(Format::Xml)
    } else if ext == "html"@ || ext == "htm"@ {
        Some(Format::Html)
    } else {
        None
    }
}

/// The format that a file name's extension stands for.
pub fn detect_format(extension: &str) -> (r: Option<Format>)
    ensures
        r == format_of(extension@),
{
    let chars = text::chars_of(extension);
    let ext = text::lower_string(chars.as_slice(), 0, chars.len());
    let ext = ext.as_str();
    assert(chars@.subrange(0, chars@.len() as int) =~= chars@);
    if text::str_eq(ext, "dj") || text::str_eq(ext, "djot") {
        Some(Format::Djot)
    } else if text::str_eq(ext, "md") || text::str_eq(ext, "markdown") {
        Some(Format::Markdown)
    } else if text::str_eq(ext, "xml") {
        Some(Format::Xml)
    } else if text::str_eq(ext, "html") || text::str_eq(ext, "htm") {
        Some(Format::Html)
    } else {
        None
    }
}

impl Format {
    /// The name of a format.
    pub open spec fn named(self) -> Seq<char> {
        match self {
            Format::Djot => "djot"@,
            Format::Markdown => "markdown"@,
            Format::Xml => "xml"@,
            Format::Html => "html"@,
        }
    }

    /// The name of the format.
    pub fn name(self) -> (r: &'static str)
        ensures
            r@ == self.named(),
    {
        match self {
            Format::Djot => "djot",
            Format::Markdown => "markdown",
            Format::Xml => "xml",
            Format::Html => "html",
        }
    }
}

} // verus!
