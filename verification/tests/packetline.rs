use gix_plumbing::packetline::{
    band_to_write, data_to_write, delim_to_write, error_to_write, flush_to_write, response_end_to_write, text_to_write,
    write_band, write_error, write_packet_line, write_text, BandRef, Channel, Error, ErrorRef, PacketLineRef, TextRef,
    MAX_DATA_LEN,
};

#[test]
fn special_lines() {
    let mut out = Vec::new();
    assert_eq!(flush_to_write(&mut out), 4);
    assert_eq!(delim_to_write(&mut out), 4);
    assert_eq!(response_end_to_write(&mut out), 4);
    assert_eq!(out, b"000000010002".to_vec());
}

#[test]
fn data_lines_carry_their_length_in_hex() {
    let mut out = Vec::new();
    assert_eq!(data_to_write(b"hello\n", &mut out), Ok(10));
    assert_eq!(out, b"000ahello\n".to_vec());
    out.clear();
    assert_eq!(write_packet_line(&PacketLineRef::Data(b"a"), &mut out), Ok(5));
    assert_eq!(write_packet_line(&PacketLineRef::Flush, &mut out), Ok(4));
    assert_eq!(out, b"0005a0000".to_vec());
}

#[test]
fn errors_bands_and_text() {
    let mut out = Vec::new();
    assert_eq!(error_to_write(b"oops", &mut out), Ok(12));
    assert_eq!(out, b"000cERR oops".to_vec());
    out.clear();
    assert_eq!(write_error(&ErrorRef(b"x"), &mut out), Ok(9));
    assert_eq!(out, b"0009ERR x".to_vec());
    out.clear();
    assert_eq!(band_to_write(Channel::Progress, b"50%", &mut out), Ok(8));
    assert_eq!(out, b"0008\x0250%".to_vec());
    out.clear();
    assert_eq!(write_band(&BandRef::Error(b"e"), &mut out), Ok(6));
    assert_eq!(out, b"0006\x03e".to_vec());
    out.clear();
    assert_eq!(text_to_write(b"hi", &mut out), Ok(7));
    assert_eq!(out, b"0007hi\n".to_vec());
    out.clear();
    assert_eq!(write_text(&TextRef(b"hi\n"), &mut out), Ok(7), "a newline is only added if there is none");
    assert_eq!(out, b"0007hi\n".to_vec());
}

#[test]
fn invalid_lines_are_rejected_without_writing() {
    let mut out = b"keep".to_vec();
    assert_eq!(data_to_write(b"", &mut out), Err(Error::EmptyLine));
    let large = vec![b'a'; MAX_DATA_LEN + 1];
    assert_eq!(data_to_write(&large, &mut out), Err(Error::DataTooLong { len: MAX_DATA_LEN + 1 }));
    assert_eq!(out, b"keep".to_vec());
    let max = vec![b'a'; MAX_DATA_LEN];
    assert_eq!(data_to_write(&max, &mut out), Ok(65520));
    assert_eq!(&out[4..8], b"fff0");
}
