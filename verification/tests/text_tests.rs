use essentia_payment_plugin::errors::{
    ChannelError, ConfigurationError, EscrowError, InvoiceError, PaymentError, RoutingError,
};
use essentia_payment_plugin::index::KeyIndex;
use essentia_payment_plugin::text::{
    bytes_equal, bytes_less, bytes_to_hex, chars_of, digit_char, digit_value, hex_digit,
    hex_value, parse_decimal, read_hex, same_text, string_from_chars, u64_to_decimal,
};

#[test]
fn hex_of_bytes() {
    assert_eq!(bytes_to_hex(&[]), "");
    assert_eq!(bytes_to_hex(&[0x00, 0x0f, 0xa0, 0xff, 0x49]), "000fa0ff49");
    assert_eq!(hex_digit(11), 'b');
    assert_eq!(hex_digit(200), 'f');
    assert_eq!(hex_value('c'), Some(12));
    assert_eq!(hex_value('C'), None);
    assert_eq!(hex_value('g'), None);
}

#[test]
fn hex_is_read_back() {
    let chars: Vec<char> = "xx00ff1a2bzz".chars().collect();
    assert_eq!(read_hex(&chars, 2, 4), Some(vec![0x00, 0xff, 0x1a, 0x2b]));
    assert_eq!(read_hex(&chars, 2, 5), None);
    assert_eq!(read_hex(&chars, 0, 1), None);
    assert_eq!(read_hex(&chars, 4, 0), Some(vec![]));
    assert_eq!(read_hex(&chars, 10, 2), None);
}

#[test]
fn decimal_of_numbers() {
    assert_eq!(u64_to_decimal(0), "0");
    assert_eq!(u64_to_decimal(7), "7");
    assert_eq!(u64_to_decimal(10), "10");
    assert_eq!(u64_to_decimal(100_000), "100000");
    assert_eq!(u64_to_decimal(u64::MAX), "18446744073709551615");
    assert_eq!(digit_char(4), '4');
    assert_eq!(digit_char(12), '9');
    assert_eq!(digit_value('8'), Some(8));
    assert_eq!(digit_value('a'), None);
}

#[test]
fn decimal_is_parsed() {
    assert_eq!(parse_decimal("0"), Some(0));
    assert_eq!(parse_decimal("00042"), Some(42));
    assert_eq!(parse_decimal("+42"), Some(42));
    assert_eq!(parse_decimal("18446744073709551615"), Some(u64::MAX));
    assert_eq!(parse_decimal("18446744073709551616"), None);
    assert_eq!(parse_decimal("99999999999999999999999"), None);
    assert_eq!(parse_decimal(""), None);
    assert_eq!(parse_decimal("+"), None);
    assert_eq!(parse_decimal("-1"), None);
    assert_eq!(parse_decimal("12a"), None);
    assert_eq!(parse_decimal("1 2"), None);
    assert_eq!(parse_decimal("++1"), None);
    for n in [0u64, 9, 10, 99, 12345, u64::MAX] {
        assert_eq!(parse_decimal(&u64_to_decimal(n)), Some(n));
    }
}

#[test]
fn keys_are_compared_byte_by_byte() {
    let mut a = [5u8; 33];
    let mut b = [5u8; 33];
    assert!(bytes_equal(&a, &b));
    assert!(!bytes_less(&a, &b));
    b[32] = 6;
    assert!(!bytes_equal(&a, &b));
    assert!(bytes_less(&a, &b));
    assert!(!bytes_less(&b, &a));
    a[0] = 6;
    assert!(bytes_less(&b, &a));
    assert!(!bytes_less(&a, &b));
}

#[test]
fn strings_and_characters() {
    assert_eq!(chars_of("a\u{e9}z"), vec!['a', '\u{e9}', 'z']);
    assert_eq!(string_from_chars(&vec!['o', 'k', '\u{2615}']), "ok\u{2615}");
    assert!(same_text("abc", "abc"));
    assert!(!same_text("abc", "abd"));
    assert!(!same_text("abc", "ab"));
    assert!(same_text("", ""));
}

#[test]
fn errors_have_messages() {
    assert_eq!(
        PaymentError::Channel(ChannelError::UnknownChannel).message(),
        "Channel error: Unknown channel"
    );
    assert_eq!(
        PaymentError::Invoice(InvoiceError::Expired).message(),
        "Invoice error: Invoice has expired"
    );
    assert_eq!(
        PaymentError::Invoice(InvoiceError::EmptyDescription).message(),
        "Invoice error: Description cannot be empty"
    );
    assert_eq!(
        PaymentError::Routing(RoutingError::NoPath).message(),
        "Routing error: No path to destination"
    );
    assert_eq!(
        PaymentError::InsufficientFunds { needed: 5000, available: 1000 }.message(),
        "Insufficient funds: Need 5000 sats, have 1000"
    );
    assert_eq!(PaymentError::Timeout.message(), "Payment timeout: Attempt exceeded the configured timeout");
    assert_eq!(
        PaymentError::Configuration(ConfigurationError::UnknownKey).message(),
        "Configuration error: Unknown key"
    );
    assert_eq!(
        PaymentError::Escrow(EscrowError::PreimageMismatch).message(),
        "Escrow error: Preimage does not match payment hash"
    );
    assert_eq!(ChannelError::InvalidPeerKey.describe(), "Invalid peer public key");
}

#[test]
fn key_index_finds_what_was_inserted() {
    let mut index = KeyIndex::new();
    assert_eq!(index.get(&[0u8; 32]), None);
    let mut a = [1u8; 32];
    let mut b = [1u8; 32];
    a[20] = 7;
    b[20] = 8;
    index.insert(a, 0);
    index.insert(b, 1);
    index.insert([2u8; 32], 2);
    assert_eq!(index.get(&a), Some(0));
    assert_eq!(index.get(&b), Some(1));
    assert_eq!(index.get(&[2u8; 32]), Some(2));
    assert_eq!(index.get(&[1u8; 32]), None);
    assert_eq!(index.get(&[3u8; 32]), None);
}
