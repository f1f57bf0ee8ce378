use crittoutil::converter::ConvType;
use crittoutil::crypto_meta::CryptoRequest;
use crittoutil::screens::{key_sizes, ConverterState, FileHasherState, KeyGeneratorState};

#[test]
fn key_generator_offers_the_usual_sizes() {
    assert_eq!(key_sizes(), vec![64, 128, 192, 256, 512]);
    let k = KeyGeneratorState::new();
    assert_eq!((k.key_size, k.generated_key.as_str(), k.generated_bits), (256, "", 0));
    assert!(matches!(k.generate_request(), CryptoRequest::GenerateKey { bits: 256 }));
}

#[test]
fn key_generator_shows_and_remembers_a_new_key() {
    let mut k = KeyGeneratorState::new();
    k.key_size = 128;
    let remembered = k.apply_generated(Ok("K".repeat(16)));
    assert_eq!(remembered, Some(("K".repeat(16), 16)));
    assert_eq!((k.generated_key.len(), k.generated_bits), (16, 128));
    // Changing the selection afterwards keeps the size the key was made at.
    k.key_size = 512;
    assert_eq!(k.generated_bits, 128);
    k.clear();
    assert_eq!((k.generated_key.as_str(), k.key_size, k.generated_bits), ("", 512, 128));
}

#[test]
fn key_generator_shows_errors_without_remembering() {
    let mut k = KeyGeneratorState::new();
    let remembered = k.apply_generated(Err("no entropy".to_string()));
    assert_eq!(remembered, None);
    assert_eq!(k.generated_key, "Error: no entropy");
    assert_eq!(k.generated_bits, 0);
}

#[test]
fn file_hasher_records_files_and_errors() {
    let mut f = FileHasherState::new();
    f.record_file("a.txt".to_string(), 3, "900150983cd24fb0d6963f7d28e17f72".to_string());
    assert_eq!((f.filename.as_str(), f.filesize), ("a.txt", 3));
    f.record_error("permission denied");
    assert_eq!((f.filename.as_str(), f.filesize, f.hash.as_str()), ("", 0, "Error reading file: permission denied"));
    let cleared = FileHasherState::new();
    assert_eq!((cleared.filename.as_str(), cleared.filesize, cleared.hash.as_str()), ("", 0, ""));
}

#[test]
fn converter_screen_never_converts_to_the_source() {
    let mut c = ConverterState::new();
    assert_eq!((c.from_type, c.to_type), (ConvType::Text, ConvType::Base64));
    assert_eq!(c.to_options(), vec![ConvType::Binary, ConvType::Base64]);
    c.select_from(ConvType::Base64);
    assert_eq!((c.from_type, c.to_type), (ConvType::Base64, ConvType::Text));
    assert_eq!(c.to_options(), vec![ConvType::Text, ConvType::Binary]);
    c.select_from(ConvType::Text);
    assert_eq!((c.from_type, c.to_type), (ConvType::Text, ConvType::Binary));
    c.select_from(ConvType::Binary);
    assert_eq!((c.from_type, c.to_type), (ConvType::Binary, ConvType::Text));
    c.select_to(ConvType::Base64);
    assert_eq!((c.from_type, c.to_type), (ConvType::Binary, ConvType::Base64));
}

#[test]
fn converter_screen_shows_output_or_error() {
    let mut c = ConverterState::new();
    c.run("  hello ");
    assert_eq!((c.output.as_str(), c.input_error.as_str()), ("aGVsbG8=", ""));
    c.run("   ");
    assert_eq!((c.output.as_str(), c.input_error.as_str()), ("", "Please enter a value"));
    c.select_from(ConvType::Binary);
    c.run("0100000");
    assert_eq!((c.output.as_str(), c.input_error.as_str()), ("IA==", ""));
    c.select_to(ConvType::Text);
    c.run("0100000");
    assert_eq!((c.output.as_str(), c.input_error.as_str()), (" ", ""));
    c.run("012");
    assert_eq!((c.output.as_str(), c.input_error.as_str()), ("", "Value must be binary (0s and 1s)"));
    c.clear();
    assert_eq!((c.output.as_str(), c.input_error.as_str()), ("", ""));
}
