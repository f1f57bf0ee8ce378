use crittoutil::converter::{convert, validate_input, ConvType};

#[test]
fn text_to_base64() {
    assert_eq!(convert("Hello", ConvType::Text, ConvType::Base64).unwrap(), "SGVsbG8=");
}

#[test]
fn base64_to_text() {
    assert_eq!(convert("SGVsbG8=", ConvType::Base64, ConvType::Text).unwrap(), "Hello");
}

#[test]
fn text_to_binary_and_back() {
    let bin = convert("Hi", ConvType::Text, ConvType::Binary).unwrap();
    assert_eq!(bin, "01001000 01101001");
    assert_eq!(convert(&bin, ConvType::Binary, ConvType::Text).unwrap(), "Hi");
}

#[test]
fn binary_validation_rejects_non_01() {
    assert!(validate_input("0102", ConvType::Binary).is_err());
}

#[test]
fn base64_validation_rejects_bad_chars() {
    assert!(validate_input("not!base64", ConvType::Base64).is_err());
}

#[test]
fn empty_input_rejected() {
    assert!(validate_input("   ", ConvType::Text).is_err());
}

#[test]
fn validation_messages() {
    assert_eq!(validate_input("", ConvType::Base64), Err("Please enter a value".to_string()));
    assert_eq!(validate_input("01 2", ConvType::Binary), Err("Value must be binary (0s and 1s)".to_string()));
    assert_eq!(validate_input("ab-c", ConvType::Base64), Err("Value must be valid Base64".to_string()));
    assert_eq!(validate_input(" 01\t10 ", ConvType::Binary), Ok(()));
    assert_eq!(validate_input("aGk=", ConvType::Base64), Ok(()));
    assert_eq!(validate_input("anything at all!", ConvType::Text), Ok(()));
}

#[test]
fn input_is_trimmed_before_converting() {
    assert_eq!(convert("  Hi \n", ConvType::Text, ConvType::Base64).unwrap(), "SGk=");
    assert_eq!(convert("\t01001000   01101001 ", ConvType::Binary, ConvType::Text).unwrap(), "Hi");
}

#[test]
fn binary_groups_follow_from_str_radix() {
    // A leading '+' is accepted, leading zeros too; values above 255 are not.
    assert_eq!(convert("+101", ConvType::Binary, ConvType::Base64).unwrap(), "BQ==");
    assert_eq!(convert("000000001", ConvType::Binary, ConvType::Binary).unwrap(), "00000001");
    assert_eq!(convert("111111111", ConvType::Binary, ConvType::Text), Err("Invalid binary group".to_string()));
    assert_eq!(convert("2", ConvType::Binary, ConvType::Text), Err("Invalid binary group".to_string()));
    assert_eq!(convert("+", ConvType::Binary, ConvType::Text), Err("Invalid binary group".to_string()));
}

#[test]
fn conversion_errors() {
    assert_eq!(convert("@@@", ConvType::Base64, ConvType::Text), Err("Invalid Base64 input".to_string()));
    assert_eq!(convert("/w==", ConvType::Base64, ConvType::Text), Err("Decoded bytes are not valid UTF-8".to_string()));
    assert_eq!(convert("/w==", ConvType::Base64, ConvType::Binary).unwrap(), "11111111");
}

#[test]
fn unicode_text_roundtrips() {
    let b64 = convert("ciao \u{e8} \u{1f600}", ConvType::Text, ConvType::Base64).unwrap();
    assert_eq!(convert(&b64, ConvType::Base64, ConvType::Text).unwrap(), "ciao \u{e8} \u{1f600}");
    let bin = convert("\u{e8}", ConvType::Text, ConvType::Binary).unwrap();
    assert_eq!(bin, "11000011 10101000");
    assert_eq!(convert(&bin, ConvType::Binary, ConvType::Text).unwrap(), "\u{e8}");
    assert!(validate_input(&bin, ConvType::Binary).is_ok());
    assert!(validate_input(&b64, ConvType::Base64).is_ok());
}

#[test]
fn conv_type_labels_and_order() {
    assert_eq!(ConvType::all(), [ConvType::Text, ConvType::Binary, ConvType::Base64]);
    assert_eq!(ConvType::Text.label(), "Text");
    assert_eq!(ConvType::Binary.label(), "Binary");
    assert_eq!(ConvType::Base64.label(), "Base64");
    assert_eq!(ConvType::Text.first_other(), ConvType::Binary);
    assert_eq!(ConvType::Binary.first_other(), ConvType::Text);
    assert_eq!(ConvType::Base64.first_other(), ConvType::Text);
}

#[test]
fn base64_input_must_be_a_canonical_encoding() {
    assert_eq!(convert("aGVsbG8=", ConvType::Base64, ConvType::Text), Ok("hello".to_string()));
    // Missing padding, and a last digit carrying bits beyond the data.
    assert_eq!(convert("aGVsbG8", ConvType::Base64, ConvType::Text), Err("Invalid Base64 input".to_string()));
    assert_eq!(convert("aGVsbG9=", ConvType::Base64, ConvType::Text), Err("Invalid Base64 input".to_string()));
    assert_eq!(convert("", ConvType::Text, ConvType::Base64), Ok(String::new()));
    assert_eq!(convert("\u{ff}", ConvType::Text, ConvType::Base64), Ok("w78=".to_string()));
}
