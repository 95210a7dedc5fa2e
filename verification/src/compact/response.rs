//! Refusals of the compact protocol, and answers that carry a message.

use vstd::prelude::*;
use vstd::utf8::encode_utf8;

use crate::response::{starts_with_number, text_bytes, Code, TransferSuccess};
use crate::wire::zeros;

verus! {

#[derive(Clone, Copy, Debug, PartialEq, Eq, Structural)]
pub enum ErrorTransfer {
    InvalidLength,
    InvalidUuid,
    Overflow,
    NotFound,
    NotInitialized,
    AlreadyInitialized,
    ThisFileExists,
    InternalServerError,
    TooFast,
}

impl Code for ErrorTransfer {
    open spec fn code(&self) -> u8 {
        match self {
            Self::InvalidLength => 40,
            Self::InvalidUuid => 40,
            Self::Overflow => 40,
            Self::NotFound => 44,
            Self::NotInitialized => 45,
            Self::AlreadyInitialized => 46,
            Self::ThisFileExists => 41,
            Self::InternalServerError => 50,
            Self::TooFast => 51,
        }
    }

    open spec fn text(&self) -> Seq<char> {
        match self {
            Self::InvalidLength => "40 invalid length"@,
            Self::InvalidUuid => "40 invalid uuid"@,
            Self::Overflow => "40 request too big"@,
            Self::NotFound => "44 not found"@,
            Self::NotInitialized => "45 not initialized"@,
            Self::AlreadyInitialized => "46 already initialized"@,
            Self::ThisFileExists => "41 file with this name already exists"@,
            Self::InternalServerError => "50 internal server error"@,
            Self::TooFast => "51 too fast"@,
        }
    }

    fn get_code(&self) -> u8 {
        match self {
            Self::InvalidLength => 40,
            Self::InvalidUuid => 40,
            Self::Overflow => 40,
            Self::NotFound => 44,
            Self::NotInitialized => 45,
            Self::AlreadyInitialized => 46,
            Self::ThisFileExists => 41,
            Self::InternalServerError => 50,
            Self::TooFast => 51,
        }
    }

    fn get_message(&self) -> Vec<u8> {
        let text: &str = match self {
            Self::InvalidLength => "40 invalid length",
            Self::InvalidUuid => "40 invalid uuid",
            Self::Overflow => "40 request too big",
            Self::NotFound => "44 not found",
            Self::NotInitialized => "45 not initialized",
            Self::AlreadyInitialized => "46 already initialized",
            Self::ThisFileExists => "41 file with this name already exists",
            Self::InternalServerError => "50 internal server error",
            Self::TooFast => "51 too fast",
        };
        text_bytes(text)
    }
}

/// Every refusal's message begins with the refusal's own code.
pub proof fn message_begins_with_code(e: ErrorTransfer)
    ensures
        starts_with_number(e.text(), e.code()),
{
    lemma_texts();
}

proof fn lemma_texts()
    ensures
        forall|e: ErrorTransfer| #[trigger] e.text().len() <= 37,
        forall|e: ErrorTransfer| starts_with_number(#[trigger] e.text(), e.code()),
        forall|e: ErrorTransfer| vstd::utf8::is_ascii_chars(#[trigger] e.text()),
{
    reveal_strlit("40 invalid length");
    reveal_strlit("40 invalid uuid");
    reveal_strlit("40 request too big");
    reveal_strlit("44 not found");
    reveal_strlit("45 not initialized");
    reveal_strlit("46 already initialized");
    reveal_strlit("41 file with this name already exists");
    reveal_strlit("50 internal server error");
    reveal_strlit("51 too fast");
}

/// The longest message of a refusal, in bytes, leaves room in every answer.
pub proof fn lemma_message_len(e: ErrorTransfer)
    ensures
        encode_utf8(e.text()).len() <= 37,
{
    lemma_texts();
    vstd::utf8::is_ascii_chars_encode_utf8(e.text());
}

/// Bytes filled up with zeros to a length of `n`.
pub open spec fn filled(bytes: Seq<u8>, n: nat) -> Seq<u8> {
    bytes + zeros((n - bytes.len()) as nat)
}

fn long_answer(code: u8, message: &Vec<u8>) -> (buf: [u8; 128])
    requires
        message@.len() <= 127,
    ensures
        buf@ == filled(seq![code] + message@, 128),
{
    let mut buf: [u8; 128] = [0u8; 128];
    buf[0] = code;
    let mut i: usize = 0;
    while i < message.len()
        invariant
            i <= message@.len() <= 127,
            buf@.len() == 128,
            buf@[0] == code,
            forall|k: int| 0 <= k < i ==> buf@[k + 1] == message@[k],
            forall|k: int| i < k < 128 ==> buf@[k] == 0,
        decreases message@.len() - i,
    {
        buf[i + 1] = message[i];
        i += 1;
    }
    assert(buf@ =~= filled(seq![code] + message@, 128));
    buf
}

/// The code and the message of a result.
pub open spec fn feedback_of(feedback: Result<TransferSuccess, ErrorTransfer>) -> Seq<u8> {
    match feedback {
        Ok(s) => seq![s.code()] + encode_utf8(s.text()),
        Err(e) => seq![e.code()] + encode_utf8(e.text()),
    }
}

proof fn lemma_ok_len()
    ensures
        encode_utf8(TransferSuccess::Success.text()).len() == 2,
{
    reveal_strlit("ok");
    vstd::utf8::is_ascii_chars_encode_utf8("ok"@);
}

/// A result as an answer of 128 bytes: its code, then its message.
pub fn send_feedback(feedback: Result<TransferSuccess, ErrorTransfer>) -> (buf: [u8; 128])
    ensures
        buf@ == filled(feedback_of(feedback), 128),
{
    match feedback {
        Ok(val) => {
            proof {
                lemma_ok_len();
            }
            long_answer(val.get_code(), &val.get_message())
        },
        Err(e) => {
            proof {
                lemma_message_len(e);
            }
            long_answer(e.get_code(), &e.get_message())
        },
    }
}

/// The answer of thirty-two bytes that lets a transfer begin.
pub fn begin_answer() -> (buf: [u8; 32])
    ensures
        buf@ == filled(
            feedback_of(Ok::<TransferSuccess, ErrorTransfer>(TransferSuccess::Success)),
            32,
        ),
{
    let message: Vec<u8> = TransferSuccess::Success.get_message();
    let mut buf: [u8; 32] = [0u8; 32];
    buf[0] = TransferSuccess::Success.get_code();
    proof {
        lemma_ok_len();
    }
    buf[1] = message[0];
    buf[2] = message[1];
    assert(buf@ =~= filled(seq![20u8] + message@, 32));
    buf
}

/// Refusals can be told apart by their codes, but for those of malformed messages.
pub proof fn refusals_can_be_told_apart(a: ErrorTransfer, b: ErrorTransfer)
    requires
        a.code() == b.code(),
    ensures
        a == b || a.code() == 40,
        a.code() != 20,
        a.code() == 40 ==> a is InvalidLength || a is InvalidUuid || a is Overflow,
{
}

/// A result is answered by its own code, and success by no code of a refusal.
pub proof fn feedback_begins_with_its_code(e: ErrorTransfer)
    ensures
        feedback_of(Ok::<TransferSuccess, ErrorTransfer>(TransferSuccess::Success))[0] == 20,
        feedback_of(Err::<TransferSuccess, ErrorTransfer>(e))[0] == e.code(),
        feedback_of(Err::<TransferSuccess, ErrorTransfer>(e)).skip(1) == encode_utf8(e.text()),
        e.code() != 20,
{
    assert(feedback_of(Err::<TransferSuccess, ErrorTransfer>(e)).skip(1) =~= encode_utf8(e.text()));
}

} // verus!
