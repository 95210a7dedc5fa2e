//! Identifiers of users, folders, files and transfers.

use vstd::prelude::*;

verus! {

/// A 128-bit identifier, held as its sixteen bytes in textual order.
#[derive(Clone, Copy, Debug, Eq)]
pub struct Uuid {
    pub bytes: [u8; 16],
}

impl vstd::std_specs::cmp::PartialEqSpecImpl for Uuid {
    open spec fn obeys_eq_spec() -> bool {
        true
    }

    open spec fn eq_spec(&self, other: &Self) -> bool {
        *self == *other
    }
}

impl PartialEq for Uuid {
    fn eq(&self, other: &Self) -> (same: bool) {
        let mut i: usize = 0;
        while i < 16
            invariant
                i <= 16,
                forall|k: int| 0 <= k < i ==> self.bytes@[k] == other.bytes@[k],
            decreases 16 - i,
        {
            if self.bytes[i] != other.bytes[i] {
                return false;
            }
            i += 1;
        }
        assert(self.bytes =~= other.bytes);
        true
    }
}

/// The identifier that has these sixteen bytes.
pub open spec fn uuid_of(bytes: Seq<u8>) -> Uuid {
    choose|u: Uuid| #[trigger] u.bytes@ == bytes
}

/// An identifier is the one that has its bytes.
pub proof fn lemma_uuid_of(u: Uuid)
    ensures
        uuid_of(u.bytes@) == u,
{
    lemma_same_bytes(uuid_of(u.bytes@), u);
}

/// The mixed-endian layout: the first three fields byte-reversed, the rest as it stands.
pub open spec fn swap_fields(b: Seq<u8>) -> Seq<u8> {
    seq![
        b[3], b[2], b[1], b[0], b[5], b[4], b[7], b[6], b[8], b[9], b[10], b[11], b[12], b[13],
        b[14], b[15],
    ]
}

/// Whether the version and variant bits are those of a random identifier.
pub open spec fn is_v4(b: Seq<u8>) -> bool {
    b.len() == 16 && b[6] / 16 == 4 && b[8] / 64 == 2
}

pub open spec fn hex_digit(n: int) -> char {
    if n < 10 {
        (n + 48) as char
    } else {
        (n + 87) as char
    }
}

/// The hyphenated lower-case text of an identifier: groups of 8, 4, 4, 4 and 12 digits.
pub open spec fn uuid_text(b: Seq<u8>) -> Seq<char> {
    Seq::new(
        36,
        |i: int|
            {
                let hyphens: int = if i < 8 {
                    0
                } else if i < 13 {
                    1
                } else if i < 18 {
                    2
                } else if i < 23 {
                    3
                } else {
                    4
                };
                if i == 8 || i == 13 || i == 18 || i == 23 {
                    '-'
                } else if (i - hyphens) % 2 == 0 {
                    hex_digit(b[(i - hyphens) / 2] as int / 16)
                } else {
                    hex_digit(b[(i - hyphens) / 2] as int % 16)
                }
            },
    )
}

/// What the `uuid` crate reads in a text: the sixteen bytes, or nothing where it refuses the text.
pub uninterp spec fn uuid_parsed(text: Seq<char>) -> Option<Seq<u8>>;

/// Calls `uuid::Uuid::from_bytes_le`, which reverses the bytes of the first three fields.
#[verifier::external_body]
fn bytes_from_le(le: [u8; 16]) -> (bytes: [u8; 16])
    ensures
        bytes@ == swap_fields(le@),
{
    *uuid::Uuid::from_bytes_le(le).as_bytes()
}

/// Calls `uuid::Uuid::to_bytes_le`, which reverses the bytes of the first three fields.
#[verifier::external_body]
fn bytes_to_le(bytes: [u8; 16]) -> (le: [u8; 16])
    ensures
        le@ == swap_fields(bytes@),
{
    uuid::Uuid::from_bytes(bytes).to_bytes_le()
}

/// Calls `uuid::Uuid::new_v4`. The bytes are random but for the version and variant bits; that
/// two calls differ is not claimed.
#[verifier::external_body]
fn random_bytes() -> (bytes: [u8; 16])
    ensures
        is_v4(bytes@),
{
    *uuid::Uuid::new_v4().as_bytes()
}

/// Calls `uuid::Uuid::parse_str` and drops the reason of a refusal.
#[verifier::external_body]
fn parse_text(text: &str) -> (bytes: Option<[u8; 16]>)
    ensures
        match bytes {
            Some(b) => uuid_parsed(text@) == Some(b@),
            None => uuid_parsed(text@) is None,
        },
{
    match uuid::Uuid::parse_str(text) {
        Ok(id) => Some(*id.as_bytes()),
        Err(_) => None,
    }
}

/// Calls `to_string` on a `uuid::Uuid`: the hyphenated lower-case form, which
/// `uuid::Uuid::parse_str` reads back.
#[verifier::external_body]
fn text_of(bytes: [u8; 16]) -> (text: String)
    ensures
        text@ == uuid_text(bytes@),
        uuid_parsed(text@) == Some(bytes@),
{
    uuid::Uuid::from_bytes(bytes).to_string()
}

impl Uuid {
    /// A fresh random identifier.
    pub fn new_v4() -> (id: Uuid)
        ensures
            is_v4(id.bytes@),
    {
        Uuid { bytes: random_bytes() }
    }

    /// Reads an identifier from sixteen bytes in the mixed-endian layout of the wire.
    pub fn from_bytes_le(le: [u8; 16]) -> (id: Uuid)
        ensures
            id.bytes@ == swap_fields(le@),
    {
        Uuid { bytes: bytes_from_le(le) }
    }

    /// The sixteen bytes in the mixed-endian layout of the wire.
    pub fn to_bytes_le(&self) -> (le: [u8; 16])
        ensures
            le@ == swap_fields(self.bytes@),
    {
        bytes_to_le(self.bytes)
    }

    /// Reads an identifier from text; `None` where the text is no identifier.
    pub fn from_text(text: &str) -> (id: Option<Uuid>)
        ensures
            match id {
                Some(u) => uuid_parsed(text@) == Some(u.bytes@),
                None => uuid_parsed(text@) is None,
            },
    {
        match parse_text(text) {
            Some(bytes) => Some(Uuid { bytes }),
            None => None,
        }
    }

    /// The hyphenated lower-case text, which `from_text` reads back.
    pub fn to_text(&self) -> (text: String)
        ensures
            text@ == uuid_text(self.bytes@),
            uuid_parsed(text@) == Some(self.bytes@),
    {
        text_of(self.bytes)
    }

    /// Reads the sixteen bytes of `buf` from `at`, in the mixed-endian layout of the wire.
    pub fn read_le(buf: &[u8], at: usize) -> (id: Uuid)
        requires
            at + 16 <= buf.len(),
        ensures
            id.bytes@ == swap_fields(buf@.subrange(at as int, at + 16)),
            id == uuid_of(swap_fields(buf@.subrange(at as int, at + 16))),
    {
        let id: Uuid = Uuid::from_bytes_le(read_16(buf, at));
        proof {
            lemma_uuid_of(id);
        }
        id
    }

    /// Reads the sixteen bytes of `buf` from `at` as they stand.
    pub fn read(buf: &[u8], at: usize) -> (id: Uuid)
        requires
            at + 16 <= buf.len(),
        ensures
            id.bytes@ == buf@.subrange(at as int, at + 16),
            id == uuid_of(buf@.subrange(at as int, at + 16)),
    {
        let id = Uuid { bytes: read_16(buf, at) };
        proof {
            lemma_uuid_of(id);
        }
        id
    }
}

fn read_16(buf: &[u8], at: usize) -> (out: [u8; 16])
    requires
        at + 16 <= buf.len(),
    ensures
        out@ == buf@.subrange(at as int, at + 16),
{
    let mut out: [u8; 16] = [0u8; 16];
    let mut i: usize = 0;
    while i < 16
        invariant
            i <= 16,
            at + 16 <= buf.len(),
            forall|k: int| 0 <= k < i ==> out@[k] == buf@[at + k],
        decreases 16 - i,
    {
        out[i] = buf[at + i];
        i += 1;
    }
    assert(out@ =~= buf@.subrange(at as int, at + 16));
    out
}

/// Identifiers survive the mixed-endian layout: writing and then reading, or reading and then
/// writing, changes nothing.
pub proof fn lemma_le_roundtrip(b: Seq<u8>)
    requires
        b.len() == 16,
    ensures
        swap_fields(swap_fields(b)) == b,
{
    assert(swap_fields(swap_fields(b)) =~= b);
}

/// Two identifiers with the same bytes are the same identifier.
pub proof fn lemma_same_bytes(a: Uuid, b: Uuid)
    requires
        a.bytes@ == b.bytes@,
    ensures
        a == b,
{
    assert(a.bytes =~= b.bytes);
}

} // verus!
