//! The external commands that report on the node, what they hand back, and
//! how they fail.

use vstd::prelude::*;
use crate::command::ndnsec::dump::CertificateInfo;
use crate::command::ndnsec::list::CertificateList;
use crate::command::nfdc::NfdcStatus;

pub mod ndnsec;
pub mod nfdc;
pub mod text;

verus! {

/// Why a command gave no snapshot. Each variant carries the diagnostic text.
#[derive(Debug, PartialEq, Eq)]
pub enum Error {
    /// The command failed for a reason that has no variant of its own.
    OutputError(String),
    /// Nothing matched what was asked for.
    NotFound(String),
    /// A face address could not be brought to canonical form.
    CanonizeError(String),
    /// Several items matched where one was asked for.
    Ambiguous(String),
    /// No route: the request was answered by a negative acknowledgement.
    Nack(String),
    /// The output was not the XML expected.
    XmlParsingError(String),
    /// The output did not follow the expected text layout.
    ParsingError(String),
    /// The command could not be run or read.
    IoError(String),
    /// The output was not UTF-8.
    FromUtf8Error(String),
}

/// An error, its text taken by its characters.
pub enum ErrorView {
    OutputError(Seq<char>),
    NotFound(Seq<char>),
    CanonizeError(Seq<char>),
    Ambiguous(Seq<char>),
    Nack(Seq<char>),
    XmlParsingError(Seq<char>),
    ParsingError(Seq<char>),
    IoError(Seq<char>),
    FromUtf8Error(Seq<char>),
}

impl View for Error {
    type V = ErrorView;

    open spec fn view(&self) -> ErrorView {
        match self {
            Error::OutputError(text) => ErrorView::OutputError(text@),
            Error::NotFound(text) => ErrorView::NotFound(text@),
            Error::CanonizeError(text) => ErrorView::CanonizeError(text@),
            Error::Ambiguous(text) => ErrorView::Ambiguous(text@),
            Error::Nack(text) => ErrorView::Nack(text@),
            Error::XmlParsingError(text) => ErrorView::XmlParsingError(text@),
            Error::ParsingError(text) => ErrorView::ParsingError(text@),
            Error::IoError(text) => ErrorView::IoError(text@),
            Error::FromUtf8Error(text) => ErrorView::FromUtf8Error(text@),
        }
    }
}

impl Clone for Error {
    /// The same error with the same text.
    fn clone(&self) -> (r: Error)
        ensures
            r@ == self@,
    {
        match self {
            Error::OutputError(text) => Error::OutputError(text.clone()),
            Error::NotFound(text) => Error::NotFound(text.clone()),
            Error::CanonizeError(text) => Error::CanonizeError(text.clone()),
            Error::Ambiguous(text) => Error::Ambiguous(text.clone()),
            Error::Nack(text) => Error::Nack(text.clone()),
            Error::XmlParsingError(text) => Error::XmlParsingError(text.clone()),
            Error::ParsingError(text) => Error::ParsingError(text.clone()),
            Error::IoError(text) => Error::IoError(text.clone()),
            Error::FromUtf8Error(text) => Error::FromUtf8Error(text.clone()),
        }
    }
}

/// The error that an exit code stands for, with what the command wrote to
/// its error stream.
pub open spec fn exit_error(code: Option<i32>, diagnostic: Seq<char>) -> ErrorView {
    match code {
        Some(3) => ErrorView::NotFound(diagnostic),
        Some(4) => ErrorView::CanonizeError(diagnostic),
        Some(5) => ErrorView::Ambiguous(diagnostic),
        Some(6) => ErrorView::Nack(diagnostic),
        _ => ErrorView::OutputError(diagnostic),
    }
}

impl ErrorView {
    /// The diagnostic text that the error carries.
    pub open spec fn text(self) -> Seq<char> {
        match self {
            ErrorView::OutputError(text) => text,
            ErrorView::NotFound(text) => text,
            ErrorView::CanonizeError(text) => text,
            ErrorView::Ambiguous(text) => text,
            ErrorView::Nack(text) => text,
            ErrorView::XmlParsingError(text) => text,
            ErrorView::ParsingError(text) => text,
            ErrorView::IoError(text) => text,
            ErrorView::FromUtf8Error(text) => text,
        }
    }
}

impl Error {
    /// The text by which the error is reported: the diagnostic text it
    /// carries.
    pub fn message(&self) -> (text: String)
        ensures
            text@ == self@.text(),
    {
        match self {
            Error::OutputError(text) => text.clone(),
            Error::NotFound(text) => text.clone(),
            Error::CanonizeError(text) => text.clone(),
            Error::Ambiguous(text) => text.clone(),
            Error::Nack(text) => text.clone(),
            Error::XmlParsingError(text) => text.clone(),
            Error::ParsingError(text) => text.clone(),
            Error::IoError(text) => text.clone(),
            Error::FromUtf8Error(text) => text.clone(),
        }
    }

    /// Tells why a command failed, from the code it exited with and from what
    /// it wrote to its error stream: 3 is nothing found, 4 a face address
    /// that has no canonical form, 5 an ambiguous match, 6 a negative
    /// acknowledgement; any other code, or none, is a failure of no special
    /// kind.
    pub fn from_exit_code(code: Option<i32>, diagnostic: String) -> (e: Error)
        ensures
            e@ == exit_error(code, diagnostic@),
    {
        match code {
            Some(3) => Error::NotFound(diagnostic),
            Some(4) => Error::CanonizeError(diagnostic),
            Some(5) => Error::Ambiguous(diagnostic),
            Some(6) => Error::Nack(diagnostic),
            _ => Error::OutputError(diagnostic),
        }
    }
}

/// What a source of snapshots hands back.
#[derive(Debug, PartialEq)]
pub enum Snapshot {
    /// Total memory of the host, in bytes.
    HostTotalMemory(u64),
    /// The forwarder's status report.
    NfdStatus(NfdcStatus),
    /// The certificate inventory.
    CertificateList(CertificateList),
    /// The details of one identity's certificate.
    CertificateInfo(CertificateInfo),
}

} // verus!
