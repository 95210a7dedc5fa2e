//! Requests of the compact protocol.

use vstd::prelude::*;

use crate::compact::receiver::{chunk_location, stored_chunk};
use crate::compact::response::ErrorTransfer;
use crate::compact::size::COMPACT_PAYLOAD;
use crate::response::{Code, TransferSuccess};
use crate::wire::{be_value, copy_range, read_u16, read_u64, CHUNK_SIZE};

verus! {

#[derive(Clone, Copy, Debug, PartialEq, Eq, Structural)]
pub enum RequestType {
    /// The transfer, the file's size, and its name behind the name's length.
    Init,
    /// The number of a chunk, its length, and its bytes.
    ChunkTransfer,
    Disconnect,
    Unknown,
}

/// The request that a code stands for.
pub open spec fn request_of(code: u8) -> RequestType {
    match code {
        0 => RequestType::Disconnect,
        1 => RequestType::Init,
        2 => RequestType::ChunkTransfer,
        _ => RequestType::Unknown,
    }
}

impl RequestType {
    pub fn get_type(code: u8) -> (kind: Self)
        ensures
            kind == request_of(code),
    {
        match code {
            0 => Self::Disconnect,
            1 => Self::Init,
            2 => Self::ChunkTransfer,
            _ => Self::Unknown,
        }
    }
}

/// A request, and what follows its first byte.
#[derive(Debug)]
pub struct Request {
    pub request_type: RequestType,
    pub contents: Vec<u8>,
}

impl Request {
    /// Reads a request. Unknown ones are refused.
    pub fn decipher(data: &[u8; CHUNK_SIZE]) -> (request: Result<Request, ErrorTransfer>)
        ensures
            match request {
                Ok(r) => r.request_type == request_of(data@[0]) && r.request_type
                    != RequestType::Unknown && r.contents@ == data@.skip(1),
                Err(e) => request_of(data@[0]) == RequestType::Unknown && e
                    == ErrorTransfer::NotFound,
            },
    {
        let kind: RequestType = RequestType::get_type(data[0]);
        if kind == RequestType::Unknown {
            return Err(ErrorTransfer::NotFound);
        }
        let contents: Vec<u8> = copy_range(data.as_slice(), 1, CHUNK_SIZE);
        assert(data@.subrange(1, CHUNK_SIZE as int) =~= data@.skip(1));
        Ok(Request { request_type: kind, contents })
    }
}

/// What a request to store a chunk writes: these bytes of this chunk, at this place of the file.
#[derive(Debug)]
pub struct ChunkWrite {
    pub id: u64,
    pub bytes: Vec<u8>,
    pub location: u64,
}

/// Whether the chunk lies within the contents of a request, at a place that can be written to.
pub open spec fn writable(contents: Seq<u8>) -> bool {
    &&& 11 + be_value(contents.subrange(9, 11)) <= contents.len()
    &&& be_value(contents.subrange(1, 9)) * COMPACT_PAYLOAD <= u64::MAX
}

/// What is to be written for a request that comes after a transfer has begun: for a chunk the
/// bytes that its contents hold, otherwise nothing.
pub fn requested_write(data: &[u8; CHUNK_SIZE]) -> (write: Option<ChunkWrite>)
    requires
        request_of(data@[0]) == RequestType::ChunkTransfer ==> writable(data@.skip(1)),
    ensures
        match write {
            Some(w) => request_of(data@[0]) == RequestType::ChunkTransfer && (w.id, w.bytes@)
                == stored_chunk(data@.skip(1)) && w.location == w.id * COMPACT_PAYLOAD,
            None => request_of(data@[0]) != RequestType::ChunkTransfer,
        },
{
    match Request::decipher(data) {
        Ok(req) => {
            if req.request_type != RequestType::ChunkTransfer {
                return None;
            }
            let contents: &[u8] = req.contents.as_slice();
            let id: u64 = read_u64(contents, 1);
            let size: u16 = read_u16(contents, 9);
            let bytes: Vec<u8> = copy_range(contents, 11, 11 + size as usize);
            Some(ChunkWrite { id, bytes, location: chunk_location(id) })
        },
        Err(_) => None,
    }
}

/// The result of a request that comes after a transfer has begun. `written` says whether a chunk
/// could be written: what `requested_write` gives. A request to disconnect has no result.
pub fn handle_request(data: &[u8; CHUNK_SIZE], written: bool) -> (result: Result<
    TransferSuccess,
    ErrorTransfer,
>)
    requires
        request_of(data@[0]) != RequestType::Disconnect,
        request_of(data@[0]) == RequestType::ChunkTransfer ==> writable(data@.skip(1)),
    ensures
        result == (match request_of(data@[0]) {
            RequestType::Init => Err::<TransferSuccess, ErrorTransfer>(
                ErrorTransfer::AlreadyInitialized,
            ),
            RequestType::ChunkTransfer => if written {
                Ok(TransferSuccess::Success)
            } else {
                Err(ErrorTransfer::InternalServerError)
            },
            _ => Err(ErrorTransfer::NotFound),
        }),
{
    let req: Request = match Request::decipher(data) {
        Ok(r) => r,
        Err(_) => return Err(ErrorTransfer::NotFound),
    };
    match req.request_type {
        RequestType::Init => Err(ErrorTransfer::AlreadyInitialized),
        RequestType::ChunkTransfer => if written {
            Ok(TransferSuccess::Success)
        } else {
            Err(ErrorTransfer::InternalServerError)
        },
        _ => Err(ErrorTransfer::NotFound),
    }
}

} // verus!
