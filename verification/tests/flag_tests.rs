use passthrough_fs::flags::decode_flags;
use passthrough_fs::flags::ACCESS_READ_ONLY;
use passthrough_fs::flags::ACCESS_READ_WRITE;
use passthrough_fs::flags::ACCESS_WRITE_ONLY;
use passthrough_fs::flags::APPEND_BIT;
use passthrough_fs::flags::TRUNCATE_BIT;

#[test]
fn read_only_flags_request_reading_alone() {
    let intent = decode_flags(ACCESS_READ_ONLY);
    assert!(intent.read);
    assert!(!intent.write);
    assert!(!intent.append);
    assert!(!intent.truncate);
}

#[test]
fn write_only_flags_request_writing_alone() {
    let intent = decode_flags(ACCESS_WRITE_ONLY);
    assert!(!intent.read);
    assert!(intent.write);
}

#[test]
fn read_write_flags_request_both() {
    let intent = decode_flags(ACCESS_READ_WRITE);
    assert!(intent.read);
    assert!(intent.write);
}

#[test]
fn append_and_truncate_bits_are_read_beside_the_access_mode() {
    let intent = decode_flags(ACCESS_WRITE_ONLY | APPEND_BIT);
    assert!(intent.write);
    assert!(intent.append);
    assert!(!intent.truncate);

    let intent = decode_flags(ACCESS_READ_WRITE | TRUNCATE_BIT);
    assert!(intent.read && intent.write);
    assert!(intent.truncate);
    assert!(!intent.append);
}
