use dogel::ids::is_valid_message_id;

#[test]
fn validates_128_bit_hex_message_ids() {
    assert!(is_valid_message_id("0123456789ABCDEF0123456789ABCDEF"));
    assert!(is_valid_message_id("0123456789abcdef0123456789abcdef"));
    assert!(!is_valid_message_id(""));
    assert!(!is_valid_message_id("0123456789ABCDEF"));
    assert!(!is_valid_message_id("0123456789ABCDEF0123456789ABCDEG"));
}
