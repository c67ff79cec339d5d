use essentia_payment_plugin::errors::{InvoiceError, PaymentError};
use essentia_payment_plugin::implementation::invoices::{decode_invoice, encode_invoice};
use essentia_payment_plugin::{InvoiceGenerator, InvoiceProvider, PaymentConfig};

#[test]
fn invoice_expires_an_hour_after_issue_by_default() {
    let mut registry = InvoiceGenerator::new(PaymentConfig::default());
    let invoice = registry.issue(Some(1000), "coffee", [5u8; 32], 1_700_000_000, None).unwrap();
    assert_eq!(invoice.amount, Some(1000));
    assert_eq!(invoice.description, "coffee");
    assert_eq!(invoice.expiry, 1_700_003_600);
    assert_eq!(invoice.payment_hash, [5u8; 32]);
    assert_eq!(invoice.payment_secret, None);
    assert_eq!(registry.verify_at(&invoice, 1_700_000_000), Ok(true));
    assert_eq!(registry.verify_at(&invoice, 1_700_003_600), Ok(true));
    assert_eq!(registry.verify_at(&invoice, 1_700_003_601), Err(PaymentError::Invoice(InvoiceError::Expired)));
}

#[test]
fn generated_invoice_verifies_at_once() {
    let mut registry = InvoiceGenerator::new(PaymentConfig::default());
    let invoice = registry.generate_invoice(Some(1000), "coffee").unwrap();
    assert_eq!(invoice.amount, Some(1000));
    assert_eq!(invoice.description, "coffee");
    assert_eq!(registry.verify(&invoice), Ok(true));
    assert_eq!(registry.verify(&invoice), Ok(true));
    assert_eq!(registry.verify_invoice(&invoice), Ok(true));
    assert_eq!(registry.issued_count(), 1);
    assert!(invoice.expiry >= 1_700_000_000 + 3600);
    let other = registry.generate_invoice(None, "tea").unwrap();
    assert_ne!(other.payment_hash, invoice.payment_hash);
    assert_eq!(registry.lookup(&other.payment_hash).unwrap().description, "tea");
}

#[test]
fn expired_invoice_fails_verification() {
    let mut registry = InvoiceGenerator::new(PaymentConfig::default());
    let invoice = registry.issue(Some(1), "late", [1u8; 32], 5_000, Some(10)).unwrap();
    assert_eq!(invoice.expiry, 10);
    assert_eq!(registry.verify(&invoice), Err(PaymentError::Invoice(InvoiceError::Expired)));
}

#[test]
fn empty_description_is_refused() {
    let mut registry = InvoiceGenerator::new(PaymentConfig::default());
    assert_eq!(
        registry.generate_invoice(Some(1), "").unwrap_err(),
        PaymentError::Invoice(InvoiceError::EmptyDescription)
    );
    assert_eq!(
        registry.issue(Some(1), "", [1u8; 32], 0, None).unwrap_err(),
        PaymentError::Invoice(InvoiceError::EmptyDescription)
    );
    assert_eq!(registry.issued_count(), 0);
}

#[test]
fn payment_hashes_are_unique_in_the_registry() {
    let mut registry = InvoiceGenerator::new(PaymentConfig::default());
    registry.issue(Some(1), "a", [1u8; 32], 0, None).unwrap();
    assert_eq!(
        registry.issue(Some(2), "b", [1u8; 32], 0, None).unwrap_err(),
        PaymentError::Invoice(InvoiceError::DuplicatePaymentHash)
    );
    registry.issue(Some(2), "b", [2u8; 32], 0, None).unwrap();
    assert_eq!(registry.issued_count(), 2);
    assert_eq!(registry.lookup(&[1u8; 32]).unwrap().description, "a");
    assert_eq!(registry.lookup(&[2u8; 32]).unwrap().amount, Some(2));
    assert_eq!(
        registry.lookup(&[3u8; 32]).unwrap_err(),
        PaymentError::Invoice(InvoiceError::UnknownPaymentHash)
    );
}

#[test]
fn lookup_tells_hashes_with_the_same_first_bytes_apart() {
    let mut registry = InvoiceGenerator::new(PaymentConfig::default());
    let mut a = [7u8; 32];
    let mut b = [7u8; 32];
    a[31] = 1;
    b[31] = 2;
    registry.issue(Some(1), "a", a, 0, None).unwrap();
    registry.issue(Some(2), "b", b, 0, None).unwrap();
    assert_eq!(registry.lookup(&a).unwrap().description, "a");
    assert_eq!(registry.lookup(&b).unwrap().description, "b");
    assert!(registry.lookup(&[7u8; 32]).is_err());
}

#[test]
fn expiry_that_does_not_fit_is_refused() {
    let mut registry = InvoiceGenerator::new(PaymentConfig::default());
    assert_eq!(
        registry.issue(Some(1), "a", [1u8; 32], u64::MAX - 3599, None).unwrap_err(),
        PaymentError::Invoice(InvoiceError::ExpiryOutOfRange)
    );
    let invoice = registry.issue(Some(1), "a", [1u8; 32], u64::MAX - 3600, None).unwrap();
    assert_eq!(invoice.expiry, u64::MAX);
}

#[test]
fn encoding_round_trips() {
    let mut hash = [0u8; 32];
    for (i, byte) in hash.iter_mut().enumerate() {
        *byte = (i * 9) as u8;
    }
    let secret = [0xabu8; 32];
    let text = encode_invoice(&hash, Some(123_456_789), "coffee \u{2615} : 2", 1_700_003_600, &Some(secret));
    let invoice = decode_invoice(&text).unwrap();
    assert_eq!(invoice.payment_hash, hash);
    assert_eq!(invoice.amount, Some(123_456_789));
    assert_eq!(invoice.description, "coffee \u{2615} : 2");
    assert_eq!(invoice.expiry, 1_700_003_600);
    assert_eq!(invoice.payment_secret, Some(secret));
    assert_eq!(invoice.encoded, text);

    let text = encode_invoice(&hash, None, "x", u64::MAX, &None);
    let invoice = decode_invoice(&text).unwrap();
    assert_eq!(invoice.amount, None);
    assert_eq!(invoice.expiry, u64::MAX);
    assert_eq!(invoice.payment_secret, None);
    assert_eq!(invoice.description, "x");
}

#[test]
fn encoding_has_a_fixed_layout() {
    let text = encode_invoice(&[0x1fu8; 32], Some(258), "tea", 1, &None);
    let mut expected = String::from("lni1");
    expected.push_str(&"1f".repeat(32));
    expected.push_str("01");
    expected.push_str("0201000000000000");
    expected.push_str("0100000000000000");
    expected.push_str("00");
    expected.push_str(&"00".repeat(32));
    expected.push_str("tea");
    assert_eq!(text, expected);
    assert_eq!(text.chars().count(), 168 + 3);
}

#[test]
fn issued_invoice_decodes_to_itself() {
    let mut registry = InvoiceGenerator::new(PaymentConfig::default());
    let invoice = registry.issue(Some(1000), "coffee", [5u8; 32], 1_700_000_000, None).unwrap();
    let decoded = decode_invoice(&invoice.encoded).unwrap();
    assert_eq!(decoded.payment_hash, invoice.payment_hash);
    assert_eq!(decoded.amount, invoice.amount);
    assert_eq!(decoded.description, invoice.description);
    assert_eq!(decoded.expiry, invoice.expiry);
}

#[test]
fn malformed_text_is_refused() {
    let good = encode_invoice(&[1u8; 32], Some(1), "d", 1, &None);
    assert!(decode_invoice(&good).is_ok());
    let malformed = PaymentError::Invoice(InvoiceError::Malformed);
    // no description
    assert_eq!(decode_invoice(&good[..168]).unwrap_err(), malformed);
    assert_eq!(decode_invoice("").unwrap_err(), malformed);
    // wrong tag
    assert_eq!(decode_invoice(&good.replacen("lni1", "lni2", 1)).unwrap_err(), malformed);
    // a character that is no lowercase hexadecimal digit
    let mut upper = good.clone();
    upper.replace_range(4..5, "G");
    assert_eq!(decode_invoice(&upper).unwrap_err(), malformed);
    // a flag that is neither 0 nor 1
    let mut flag = good.clone();
    flag.replace_range(68..70, "02");
    assert_eq!(decode_invoice(&flag).unwrap_err(), malformed);
}
