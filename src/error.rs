use vstd::prelude::*;

verus! {

/// Declared so that errors of the operating system can be carried unchanged.
#[verifier::external_type_specification]
#[verifier::external_body]
pub struct ExIoError(std::io::Error);

/// Everything that can go wrong while building, decoding or running a transfer.
#[derive(Debug)]
pub enum TFTPError {
    /// An i/o error occurred.
    IOError(std::io::Error),
    /// The opcode in a received header was invalid (valid values are 1-5).
    InvalidOpcode(u16),
    /// The filename is invalid: it holds a null byte, or it is not null terminated.
    InvalidFilename(Vec<u8>),
    /// The filename was the empty string.
    EmptyFilename,
    /// The mode of a request was empty.
    EmptyMode,
    /// The mode of a request is not one of "mail", "netascii" or "octet" (in any
    /// letter case), or it is not null terminated.
    InvalidMode(Vec<u8>),
    /// The header was too short to parse.
    InvalidHeaderLen,
    /// A data packet carries more than the largest payload of a block.
    InvalidDataLen,
    /// A string that was to be placed into a header contains a null character, or
    /// a received message is not null terminated.
    InvalidString,
    /// The UDP connection suddenly closed.
    ConnectionClosed,
    /// Received data from the wrong source address.
    WrongHost,
    /// A string in a header was not valid UTF-8; it carries the offending bytes.
    InvalidUnicodeString(Vec<u8>),
    /// The file is too large for the 24-bit block space.
    FileTooLarge,
    /// No packet arrived in time (also the outcome of a synthetic drop).
    Timeout,
    /// The peer sent an ERROR packet; it carries the peer's message.
    PeerError(String),
}

/// What a [`TFTPError`] says, with byte strings as sequences.
pub enum ErrorView {
    IOError,
    InvalidOpcode(u16),
    InvalidFilename(Seq<u8>),
    EmptyFilename,
    EmptyMode,
    InvalidMode(Seq<u8>),
    InvalidHeaderLen,
    InvalidDataLen,
    InvalidString,
    ConnectionClosed,
    WrongHost,
    InvalidUnicodeString(Seq<u8>),
    FileTooLarge,
    Timeout,
    PeerError(Seq<char>),
}

impl View for TFTPError {
    type V = ErrorView;

    open spec fn view(&self) -> ErrorView {
        match self {
            TFTPError::IOError(_) => ErrorView::IOError,
            TFTPError::InvalidOpcode(op) => ErrorView::InvalidOpcode(*op),
            TFTPError::InvalidFilename(b) => ErrorView::InvalidFilename(b@),
            TFTPError::EmptyFilename => ErrorView::EmptyFilename,
            TFTPError::EmptyMode => ErrorView::EmptyMode,
            TFTPError::InvalidMode(b) => ErrorView::InvalidMode(b@),
            TFTPError::InvalidHeaderLen => ErrorView::InvalidHeaderLen,
            TFTPError::InvalidDataLen => ErrorView::InvalidDataLen,
            TFTPError::InvalidString => ErrorView::InvalidString,
            TFTPError::ConnectionClosed => ErrorView::ConnectionClosed,
            TFTPError::WrongHost => ErrorView::WrongHost,
            TFTPError::InvalidUnicodeString(b) => ErrorView::InvalidUnicodeString(b@),
            TFTPError::FileTooLarge => ErrorView::FileTooLarge,
            TFTPError::Timeout => ErrorView::Timeout,
            TFTPError::PeerError(m) => ErrorView::PeerError(m@),
        }
    }
}

} // verus!
