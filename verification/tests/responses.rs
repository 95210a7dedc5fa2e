use filecloud::errors::{is_connection_broken, IoFailure};
use filecloud::request::RequestType;
use filecloud::response::{Code, ErrorTransfer, TransferSuccess};

#[test]
fn every_error_has_its_code_and_message() {
    let all: [(ErrorTransfer, u8, &str); 15] = [
        (ErrorTransfer::InvalidLength, 40, "40 invalid length"),
        (ErrorTransfer::InvalidHash, 49, "49 invalid hash"),
        (ErrorTransfer::Overflow, 40, "40 request too big"),
        (ErrorTransfer::NotFound, 44, "44 not found"),
        (ErrorTransfer::NotInitialized, 45, "45 not initialized"),
        (ErrorTransfer::AlreadyInitialized, 46, "46 already initialized"),
        (ErrorTransfer::ThisFileExists, 41, "41 file with this name already exists"),
        (ErrorTransfer::InternalServerError, 50, "50 internal server error"),
        (ErrorTransfer::TooFast, 51, "51 too fast"),
        (ErrorTransfer::HashesDoNotMatch, 47, "47 hashes do not match"),
        (ErrorTransfer::Forbidden, 48, "48 forbiden"),
        (ErrorTransfer::Locked, 53, "53 requested file is locked"),
        (ErrorTransfer::InvalidRequest, 42, "42 invalid request"),
        (ErrorTransfer::InvalidFileName, 43, "43 invalid file name"),
        (ErrorTransfer::Closed, 10, "10 closed"),
    ];
    for (error, code, message) in all {
        assert_eq!(error.get_code(), code);
        assert_eq!(error.get_message(), message.as_bytes());
        assert!(message.starts_with(&code.to_string()));
        assert_ne!(error.get_code(), TransferSuccess::Success.get_code());
    }
}

#[test]
fn success_is_twenty() {
    assert_eq!(TransferSuccess::Success.get_code(), 20);
    assert_eq!(TransferSuccess::Success.get_message(), b"ok");
}

#[test]
fn responses_begin_with_the_code() {
    assert_eq!(TransferSuccess::Success.respond(Vec::new()), [20]);
    assert_eq!(ErrorTransfer::Locked.respond(vec![1, 2, 3]), [53, 1, 2, 3]);
}

#[test]
fn request_codes_are_recognised() {
    let known = [
        (0, RequestType::Disconnect),
        (1, RequestType::Init),
        (10, RequestType::Reinit),
        (2, RequestType::ChunkTransfer),
        (3, RequestType::CompletionCheck),
        (4, RequestType::Verification),
        (5, RequestType::GetFile),
        (6, RequestType::ReinitGetFile),
        (8, RequestType::Register),
        (9, RequestType::GetMap),
        (100, RequestType::ShareLink),
        (200, RequestType::GuestRequestFile),
        (255, RequestType::Delete),
    ];
    for code in 0..=255u8 {
        let expected =
            known.iter().find(|k| k.0 == code).map_or(RequestType::Unknown, |k| k.1);
        assert_eq!(RequestType::get_type(code), expected);
    }
}

#[test]
fn broken_connections_are_told_from_other_failures() {
    for e in [
        IoFailure::BrokenPipe,
        IoFailure::ConnectionReset,
        IoFailure::ConnectionAborted,
        IoFailure::NotConnected,
        IoFailure::WriteZero,
        IoFailure::UnexpectedEof,
    ] {
        assert!(is_connection_broken(&e));
    }
    for e in [IoFailure::WouldBlock, IoFailure::TimedOut, IoFailure::Other] {
        assert!(!is_connection_broken(&e));
    }
}
