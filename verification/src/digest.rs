//! Digests of files, and the exchange that ends a transfer.

use vstd::prelude::*;

use crate::wire::{push_all, MSG_ACK_FAIL, MSG_ACK_OK, MSG_HASH_RESPONSE};

verus! {

/// The BLAKE3 digest of a byte string.
pub uninterp spec fn blake3_digest(bytes: Seq<u8>) -> Seq<u8>;

/// Calls `blake3::hash` and takes the thirty-two bytes of its result.
#[verifier::external_body]
fn blake3_bytes(bytes: &[u8]) -> (digest: [u8; 32])
    ensures
        digest@ == blake3_digest(bytes@),
{
    *blake3::hash(bytes).as_bytes()
}

/// The digest of a file with these contents.
pub fn hash_file(contents: &[u8]) -> (digest: [u8; 32])
    ensures
        digest@ == blake3_digest(contents@),
{
    blake3_bytes(contents)
}

/// The receiver's message with the digest of what it received.
pub fn hash_response(digest: &[u8; 32]) -> (message: Vec<u8>)
    ensures
        message@ == seq![24u8] + digest@,
{
    let mut message: Vec<u8> = Vec::new();
    message.push(MSG_HASH_RESPONSE);
    push_all(&mut message, digest.as_slice());
    assert(message@ =~= seq![24u8] + digest@);
    message
}

/// What the sender makes of the receiver's digest.
#[derive(Clone, Copy, Debug, PartialEq, Eq, Structural)]
pub enum HashVerdict {
    /// The message holds no digest.
    NoDigest,
    Same,
    Different,
}

/// Compares the sender's digest with the one in the receiver's message.
pub open spec fn verdict_on(message: Seq<u8>, own: Seq<u8>) -> HashVerdict {
    if message[0] != 24 {
        HashVerdict::NoDigest
    } else if message.subrange(1, 33) == own {
        HashVerdict::Same
    } else {
        HashVerdict::Different
    }
}

/// The sender's judgement of the receiver's message.
pub fn judge_hash(message: &[u8; 33], own: &[u8; 32]) -> (verdict: HashVerdict)
    ensures
        verdict == verdict_on(message@, own@),
{
    if message[0] != MSG_HASH_RESPONSE {
        return HashVerdict::NoDigest;
    }
    let mut i: usize = 0;
    while i < 32
        invariant
            i <= 32,
            message@[0] == 24,
            forall|k: int| 0 <= k < i ==> message@[k + 1] == own@[k],
        decreases 32 - i,
    {
        if message[i + 1] != own[i] {
            assert(message@.subrange(1, 33)[i as int] != own@[i as int]);
            return HashVerdict::Different;
        }
        i += 1;
    }
    assert(message@.subrange(1, 33) =~= own@);
    HashVerdict::Same
}

/// The sender's last byte, where it sends one.
pub fn final_byte(verdict: HashVerdict) -> (byte: Option<u8>)
    ensures
        byte == (match verdict {
            HashVerdict::NoDigest => None,
            HashVerdict::Same => Some(20u8),
            HashVerdict::Different => Some(44u8),
        }),
{
    match verdict {
        HashVerdict::NoDigest => None,
        HashVerdict::Same => Some(MSG_ACK_OK),
        HashVerdict::Different => Some(MSG_ACK_FAIL),
    }
}

/// Whether the sender's last byte tells the receiver that the file arrived whole.
pub fn transfer_confirmed(byte: u8) -> (yes: bool)
    ensures
        yes == (byte == 20),
{
    byte == MSG_ACK_OK
}

/// A transfer is confirmed just where both sides have the same digest: the receiver's message is
/// judged the same, and the last byte confirms, exactly then.
pub proof fn transfers_are_confirmed_on_equal_digests(sender: [u8; 32], receiver: [u8; 32])
    ensures
        (verdict_on(seq![24u8] + receiver@, sender@) is Same) == (sender@ == receiver@),
        (verdict_on(seq![24u8] + receiver@, sender@) is Different) == (sender@ != receiver@),
{
    let message = seq![24u8] + receiver@;
    assert(message.subrange(1, 33) =~= receiver@);
}

/// Only a message that begins with the code for a digest is taken for one.
pub proof fn only_digests_are_judged(message: Seq<u8>, own: Seq<u8>)
    ensures
        (verdict_on(message, own) is NoDigest) == (message[0] != 24),
{
}

} // verus!
