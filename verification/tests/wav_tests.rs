use silero_rs::wav::is_riff_header;

#[test]
fn a_riff_container_is_recognised() {
    assert!(is_riff_header(b"RIFF"));
    assert!(is_riff_header(b"RIFF\x24\x08\x00\x00WAVEfmt "));
}

#[test]
fn other_beginnings_are_not_riff() {
    assert!(!is_riff_header(b"RIFX"));
    assert!(!is_riff_header(b"riff"));
    assert!(!is_riff_header(b"OggS"));
    assert!(!is_riff_header(b"XIFF"));
    assert!(!is_riff_header(b"RXFF"));
    assert!(!is_riff_header(b"RIXF"));
    assert!(!is_riff_header(&[0, 0, 0, 0]));
}

#[test]
fn fewer_than_four_bytes_are_not_riff() {
    assert!(!is_riff_header(b""));
    assert!(!is_riff_header(b"RIF"));
}
