use dns_packet::is_valid_name;
use dns_packet::parse_name;
use dns_packet::DnsError;

#[test]
fn name_without_compression() {
    let buf: Vec<u8> = vec![
        7, b'e', b'x', b'a', b'm', b'p', b'l', b'e', 3, b'c', b'o', b'm', 0,
    ];
    let mut offset: usize = 0;
    let name = parse_name(&buf, &mut offset).unwrap();
    assert_eq!(name, "example.com");
    assert_eq!(offset, 13);
}

#[test]
fn name_with_compression_pointer() {
    // "example.com" fully encoded at offset 0, a pointer to it at offset 20.
    let mut buf: Vec<u8> = vec![
        7, b'e', b'x', b'a', b'm', b'p', b'l', b'e', 3, b'c', b'o', b'm', 0,
    ];
    while buf.len() < 20 {
        buf.push(0);
    }
    buf.push(0xC0);
    buf.push(0x00);
    let mut offset: usize = 20;
    let name = parse_name(&buf, &mut offset).unwrap();
    assert_eq!(name, "example.com");
    assert_eq!(offset, 22);
}

#[test]
fn label_suffix_after_pointerless_prefix() {
    // A name that starts with a label and ends in a pointer: the pointer's
    // target supplies the suffix, and the cursor moves past only 2 bytes.
    let mut buf: Vec<u8> = vec![3, b'c', b'o', b'm', 0];
    // At offset 5: [3]"www" then a pointer back to offset 0.
    buf.extend_from_slice(&[3, b'w', b'w', b'w', 0xC0, 0x00]);
    let mut offset: usize = 5;
    let name = parse_name(&buf, &mut offset).unwrap();
    assert_eq!(name, "www.com");
    assert_eq!(offset, 11);
}

#[test]
fn label_length_past_end_is_malformed() {
    let buf: Vec<u8> = vec![5, b'a', b'b'];
    let mut offset: usize = 0;
    assert_eq!(parse_name(&buf, &mut offset), Err(DnsError::MalformedInput));
    assert_eq!(offset, 0);
}

#[test]
fn reserved_label_header_bits_are_malformed() {
    // Top bits 01 and 10 are neither a length nor a pointer.
    let buf: Vec<u8> = vec![0x41, b'a', 0];
    let mut offset: usize = 0;
    assert_eq!(parse_name(&buf, &mut offset), Err(DnsError::MalformedInput));
    let buf2: Vec<u8> = vec![0x81, b'a', 0];
    let mut offset2: usize = 0;
    assert_eq!(parse_name(&buf2, &mut offset2), Err(DnsError::MalformedInput));
}

#[test]
fn pointer_cycle_is_malformed() {
    // A pointer at offset 0 that points at itself would recurse forever;
    // the bounded decoder rejects it instead.
    let buf: Vec<u8> = vec![0xC0, 0x00];
    let mut offset: usize = 0;
    assert_eq!(parse_name(&buf, &mut offset), Err(DnsError::MalformedInput));
}

#[test]
fn pointer_past_end_is_malformed() {
    let buf: Vec<u8> = vec![0xC0, 0x50];
    let mut offset: usize = 0;
    assert_eq!(parse_name(&buf, &mut offset), Err(DnsError::MalformedInput));
}

#[test]
fn truncated_pointer_is_malformed() {
    let buf: Vec<u8> = vec![0xC0];
    let mut offset: usize = 0;
    assert_eq!(parse_name(&buf, &mut offset), Err(DnsError::MalformedInput));
}

#[test]
fn utf8_label_decodes() {
    // "caf\u{e9}" is 5 bytes of UTF-8 for 4 characters.
    let buf: Vec<u8> = vec![5, b'c', b'a', b'f', 0xC3, 0xA9, 0];
    let mut offset: usize = 0;
    let name = parse_name(&buf, &mut offset).unwrap();
    assert_eq!(name, "caf\u{e9}");
    assert_eq!(offset, 7);
}

#[test]
fn invalid_utf8_label_is_malformed() {
    let buf: Vec<u8> = vec![2, 0xFF, 0xFF, 0];
    let mut offset: usize = 0;
    assert_eq!(parse_name(&buf, &mut offset), Err(DnsError::MalformedInput));
}

#[test]
fn empty_name_is_single_zero_byte() {
    let buf: Vec<u8> = vec![0, 9, 9];
    let mut offset: usize = 0;
    let name = parse_name(&buf, &mut offset).unwrap();
    assert_eq!(name, "");
    assert_eq!(offset, 1);
}

#[test]
fn valid_name_judgments() {
    assert!(is_valid_name("example.com"));
    assert!(is_valid_name("a"));
    assert!(is_valid_name("caf\u{e9}.example"));
    assert!(!is_valid_name(""));
    assert!(!is_valid_name(".com"));
    assert!(!is_valid_name("com."));
    assert!(!is_valid_name("a..b"));
    let long_label = "x".repeat(64);
    assert!(!is_valid_name(&long_label));
    let just_fits = "x".repeat(63);
    assert!(is_valid_name(&just_fits));
}
