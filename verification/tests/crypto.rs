use budget::crypto::{string_to_u8_array, u8_array_to_string, STRBYTES};

#[test]
fn test_string_to_u8_array_pads_with_zero_bytes_to_STRBYTES_len() {
    let padded = "abc";
    let result = string_to_u8_array(&padded);
    assert_eq!(result[0], b'a');
    assert_eq!(result[1], b'b');
    assert_eq!(result[2], b'c');
    for i in 4..STRBYTES {
        assert_eq!(result[i], 0);
    }
}

#[test]
fn test_u8_array_to_string_reads_up_to_first_nul() {
    let mut buffer = [0u8; STRBYTES];
    buffer[0] = b'a';
    buffer[1] = b'b';
    buffer[2] = b'c';
    let result = u8_array_to_string(&buffer);
    assert_eq!(result.unwrap(), "abc");
}

#[test]
fn test_u8_array_to_string_rejects_invalid_utf8() {
    let mut buffer = [0u8; STRBYTES];
    buffer[0] = 0xff;
    buffer[1] = 0xfe;
    let result = u8_array_to_string(&buffer);
    assert!(result.is_err());
}
