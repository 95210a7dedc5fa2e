use chrono::DateTime;
use filecloud::clock::{Timestamp, FIRST_SECOND, LAST_SECOND};
use filecloud::ids::Uuid;

const SAMPLE: [u8; 16] =
    [0xa1, 0xa2, 0xa3, 0xa4, 0xb1, 0xb2, 0xc1, 0xc2, 0xd1, 0xd2, 0xd3, 0xd4, 0xd5, 0xd6, 0xd7, 0xd8];

const SAMPLE_LE: [u8; 16] =
    [0xa4, 0xa3, 0xa2, 0xa1, 0xb2, 0xb1, 0xc2, 0xc1, 0xd1, 0xd2, 0xd3, 0xd4, 0xd5, 0xd6, 0xd7, 0xd8];

#[test]
fn little_endian_fields_are_swapped() {
    let id = Uuid { bytes: SAMPLE };
    assert_eq!(id.to_bytes_le(), SAMPLE_LE);
    assert_eq!(Uuid::from_bytes_le(SAMPLE_LE).bytes, SAMPLE);
    assert_eq!(Uuid::from_bytes_le(id.to_bytes_le()), id);
    assert_ne!(Uuid::from_bytes_le(SAMPLE), id);
}

#[test]
fn identifiers_are_written_in_groups() {
    let id = Uuid { bytes: SAMPLE };
    assert_eq!(id.to_text(), "a1a2a3a4-b1b2-c1c2-d1d2-d3d4d5d6d7d8");
    assert_eq!(id.to_text(), uuid::Uuid::from_bytes(SAMPLE).to_string());
}

#[test]
fn written_identifiers_are_read_back() {
    for _ in 0..50 {
        let id = Uuid::new_v4();
        assert_eq!(Uuid::from_text(&id.to_text()), Some(id));
    }
    assert_eq!(
        Uuid::from_text("{A1A2A3A4-B1B2-C1C2-D1D2-D3D4D5D6D7D8}"),
        Some(Uuid { bytes: SAMPLE })
    );
    assert_eq!(
        Uuid::from_text("a1a2a3a4b1b2c1c2d1d2d3d4d5d6d7d8"),
        Some(Uuid { bytes: SAMPLE })
    );
}

#[test]
fn other_text_is_no_identifier() {
    for text in ["", "null", "a1a2a3a4", "g1a2a3a4-b1b2-c1c2-d1d2-d3d4d5d6d7d8"] {
        assert_eq!(Uuid::from_text(text), None);
    }
}

#[test]
fn random_identifiers_are_of_version_four() {
    let first = Uuid::new_v4();
    let second = Uuid::new_v4();
    assert_ne!(first, second);
    for id in [first, second] {
        assert_eq!(id.bytes[6] >> 4, 4);
        assert_eq!(id.bytes[8] >> 6, 2);
    }
}

#[test]
fn identifiers_are_read_out_of_messages() {
    let mut buf = vec![7u8, 7];
    buf.extend_from_slice(&SAMPLE);
    assert_eq!(Uuid::read(&buf, 2), Uuid { bytes: SAMPLE });
    assert_eq!(Uuid::read_le(&buf, 2), Uuid { bytes: SAMPLE_LE });
}

#[test]
fn the_clock_shows_the_time() {
    let now = Timestamp::now();
    assert!(now.nanos < 1_000_000_000);
    assert!(DateTime::from_timestamp(now.secs, now.nanos).is_some());
    let wall = std::time::SystemTime::now()
        .duration_since(std::time::UNIX_EPOCH)
        .unwrap()
        .as_secs() as i64;
    assert!((wall - now.secs).abs() <= 5);
}

#[test]
fn the_calendar_has_ends() {
    assert!(DateTime::from_timestamp(FIRST_SECOND, 0).is_some());
    assert!(DateTime::from_timestamp(FIRST_SECOND - 1, 0).is_none());
    assert!(DateTime::from_timestamp(LAST_SECOND, 999_999_999).is_some());
    assert!(DateTime::from_timestamp(LAST_SECOND + 1, 0).is_none());
}
