//! Answers that either side gives in one byte, and their messages.

use vstd::prelude::*;
use vstd::utf8::encode_utf8;

use crate::wire::push_all;

verus! {

/// An answer with a one-byte code and a message for people.
pub trait Code {
    /// The code that goes over the wire.
    spec fn code(&self) -> u8;

    /// The message, as text.
    spec fn text(&self) -> Seq<char>;

    fn get_code(&self) -> (code: u8)
        ensures
            code == self.code(),
    ;

    fn get_message(&self) -> (message: Vec<u8>)
        ensures
            message@ == encode_utf8(self.text()),
    ;

    /// The code followed by `message`.
    fn respond(&self, message: Vec<u8>) -> (buf: Vec<u8>)
        ensures
            buf@ == seq![self.code()] + message@,
    {
        let mut buf: Vec<u8> = Vec::with_capacity(16);
        buf.push(self.get_code());
        push_all(&mut buf, &message);
        assert(buf@ =~= seq![self.code()] + message@);
        buf
    }
}

pub(crate) fn text_bytes(text: &str) -> (bytes: Vec<u8>)
    ensures
        bytes@ == encode_utf8(text@),
{
    vstd::slice::slice_to_vec(text.as_bytes())
}

#[derive(Clone, Copy, Debug, PartialEq, Eq, Structural)]
pub enum TransferSuccess {
    Success,
}

impl Code for TransferSuccess {
    open spec fn code(&self) -> u8 {
        20
    }

    open spec fn text(&self) -> Seq<char> {
        "ok"@
    }

    fn get_code(&self) -> u8 {
        match self {
            TransferSuccess::Success => 20,
        }
    }

    fn get_message(&self) -> Vec<u8> {
        match self {
            TransferSuccess::Success => text_bytes("ok"),
        }
    }
}

#[derive(Clone, Copy, Debug, PartialEq, Eq, Structural)]
pub enum ErrorTransfer {
    InvalidLength,
    InvalidHash,
    Overflow,
    NotFound,
    NotInitialized,
    AlreadyInitialized,
    ThisFileExists,
    InternalServerError,
    TooFast,
    HashesDoNotMatch,
    Forbidden,
    Locked,
    InvalidRequest,
    InvalidFileName,
    Closed,
}

impl Code for ErrorTransfer {
    open spec fn code(&self) -> u8 {
        match self {
            Self::InvalidLength => 40,
            Self::Overflow => 40,
            Self::ThisFileExists => 41,
            Self::InvalidRequest => 42,
            Self::InvalidFileName => 43,
            Self::NotFound => 44,
            Self::NotInitialized => 45,
            Self::AlreadyInitialized => 46,
            Self::HashesDoNotMatch => 47,
            Self::Forbidden => 48,
            Self::InvalidHash => 49,
            Self::InternalServerError => 50,
            Self::TooFast => 51,
            Self::Locked => 53,
            Self::Closed => 10,
        }
    }

    open spec fn text(&self) -> Seq<char> {
        match self {
            Self::InvalidLength => "40 invalid length"@,
            Self::InvalidHash => "49 invalid hash"@,
            Self::Overflow => "40 request too big"@,
            Self::InvalidRequest => "42 invalid request"@,
            Self::InvalidFileName => "43 invalid file name"@,
            Self::NotFound => "44 not found"@,
            Self::NotInitialized => "45 not initialized"@,
            Self::AlreadyInitialized => "46 already initialized"@,
            Self::HashesDoNotMatch => "47 hashes do not match"@,
            Self::ThisFileExists => "41 file with this name already exists"@,
            Self::Forbidden => "48 forbiden"@,
            Self::InternalServerError => "50 internal server error"@,
            Self::TooFast => "51 too fast"@,
            Self::Locked => "53 requested file is locked"@,
            Self::Closed => "10 closed"@,
        }
    }

    fn get_code(&self) -> u8 {
        match self {
            Self::InvalidLength => 40,
            Self::Overflow => 40,
            Self::ThisFileExists => 41,
            Self::InvalidRequest => 42,
            Self::InvalidFileName => 43,
            Self::NotFound => 44,
            Self::NotInitialized => 45,
            Self::AlreadyInitialized => 46,
            Self::HashesDoNotMatch => 47,
            Self::Forbidden => 48,
            Self::InvalidHash => 49,
            Self::InternalServerError => 50,
            Self::TooFast => 51,
            Self::Locked => 53,
            Self::Closed => 10,
        }
    }

    fn get_message(&self) -> Vec<u8> {
        let text: &str = match self {
            Self::InvalidLength => "40 invalid length",
            Self::InvalidHash => "49 invalid hash",
            Self::Overflow => "40 request too big",
            Self::InvalidRequest => "42 invalid request",
            Self::InvalidFileName => "43 invalid file name",
            Self::NotFound => "44 not found",
            Self::NotInitialized => "45 not initialized",
            Self::AlreadyInitialized => "46 already initialized",
            Self::HashesDoNotMatch => "47 hashes do not match",
            Self::ThisFileExists => "41 file with this name already exists",
            Self::Forbidden => "48 forbiden",
            Self::InternalServerError => "50 internal server error",
            Self::TooFast => "51 too fast",
            Self::Locked => "53 requested file is locked",
            Self::Closed => "10 closed",
        };
        text_bytes(text)
    }
}

/// Whether a text begins with a two-digit number and a space.
pub open spec fn starts_with_number(text: Seq<char>, n: u8) -> bool {
    text.len() >= 3 && text[0] as int == 48 + n / 10 && text[1] as int == 48 + n % 10
        && text[2] == ' '
}

/// Every refusal's message begins with the refusal's own code.
pub proof fn message_begins_with_code(e: ErrorTransfer)
    ensures
        starts_with_number(e.text(), e.code()),
{
    reveal_strlit("40 invalid length");
    reveal_strlit("49 invalid hash");
    reveal_strlit("40 request too big");
    reveal_strlit("42 invalid request");
    reveal_strlit("43 invalid file name");
    reveal_strlit("44 not found");
    reveal_strlit("45 not initialized");
    reveal_strlit("46 already initialized");
    reveal_strlit("47 hashes do not match");
    reveal_strlit("41 file with this name already exists");
    reveal_strlit("48 forbiden");
    reveal_strlit("50 internal server error");
    reveal_strlit("51 too fast");
    reveal_strlit("53 requested file is locked");
    reveal_strlit("10 closed");
}

/// No refusal can be taken for a success.
pub proof fn errors_are_not_success(e: ErrorTransfer, s: TransferSuccess)
    ensures
        e.code() != s.code(),
{
}

/// Refusals can be told apart by their codes, but for a message that is too short and one that is
/// too big.
pub proof fn refusals_can_be_told_apart(a: ErrorTransfer, b: ErrorTransfer)
    requires
        a.code() == b.code(),
    ensures
        a == b || (a.code() == 40 && (a is InvalidLength || a is Overflow) && (b is InvalidLength
            || b is Overflow)),
{
}

} // verus!
