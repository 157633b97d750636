use vstd::prelude::*;

verus! {

/// The failures a parse can surface: an unreadable source, malformed XML
/// markup, a malformed attribute, byte content that is not valid UTF-8 text,
/// or an undecodable percent-encoded cover reference.
///
/// A document that is well-formed XML but missing expected elements is not an
/// error; it simply yields a document model with absent or empty fields.
#[derive(Debug, Clone, Copy, PartialEq, Eq, Structural)]
pub enum OpfParseError {
    /// The source could not be read.
    Io,
    /// The tokenizer reported malformed markup.
    Xml,
    /// An attribute could not be decoded.
    XmlAttr,
    /// Element or attribute byte content is not valid UTF-8 text.
    Utf8,
    /// A percent-encoded reference did not decode to valid UTF-8 text.
    UrlDecode,
    /// A referenced cover file is missing.
    CoverNotFound,
}

} // verus!
