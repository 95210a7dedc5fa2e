//! What a first message asks for.

use vstd::prelude::*;

verus! {

/// The kinds of request, told apart by the first byte of a first message.
#[derive(Clone, Copy, Debug, PartialEq, Eq, Structural)]
pub enum RequestType {
    /// Upload a new file.
    Init,
    /// Resume an upload.
    Reinit,
    ChunkTransfer,
    /// Download a file.
    GetFile,
    /// Resume a download.
    ReinitGetFile,
    Disconnect,
    CompletionCheck,
    Verification,
    GetMap,
    Register,
    Unknown,
    Delete,
    GuestRequestFile,
    ShareLink,
    LoginAttempt,
    CreateFolder,
    DeleteFolder,
    MapTracker,
}

/// The request that a code stands for.
pub open spec fn request_of(code: u8) -> RequestType {
    match code {
        0 => RequestType::Disconnect,
        1 => RequestType::Init,
        2 => RequestType::ChunkTransfer,
        3 => RequestType::CompletionCheck,
        4 => RequestType::Verification,
        5 => RequestType::GetFile,
        6 => RequestType::ReinitGetFile,
        8 => RequestType::Register,
        9 => RequestType::GetMap,
        10 => RequestType::Reinit,
        100 => RequestType::ShareLink,
        200 => RequestType::GuestRequestFile,
        255 => RequestType::Delete,
        _ => RequestType::Unknown,
    }
}

impl RequestType {
    pub fn get_type(code: u8) -> (kind: Self)
        ensures
            kind == request_of(code),
    {
        match code {
            0 => Self::Disconnect,
            1 => Self::Init,
            10 => Self::Reinit,
            2 => Self::ChunkTransfer,
            3 => Self::CompletionCheck,
            4 => Self::Verification,
            5 => Self::GetFile,
            6 => Self::ReinitGetFile,
            8 => Self::Register,
            9 => Self::GetMap,
            100 => Self::ShareLink,
            200 => Self::GuestRequestFile,
            255 => Self::Delete,
            _ => Self::Unknown,
        }
    }
}

/// Known requests have codes of their own: two codes that mean the same request are equal, unless
/// neither is known.
pub proof fn request_codes_are_distinct(a: u8, b: u8)
    requires
        request_of(a) == request_of(b),
        request_of(a) != RequestType::Unknown,
    ensures
        a == b,
{
}

} // verus!
