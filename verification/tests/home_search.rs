use crittoutil::home_search::{search, search_normalized};
use crittoutil::route::Route;

#[test]
fn matches_converter() {
    assert_eq!(search("convert this text to base64"), Some(Route::Converter));
}

#[test]
fn matches_key_generator() {
    assert_eq!(search("generate a secure key"), Some(Route::KeyGenerator));
}

#[test]
fn matches_encrypter() {
    assert_eq!(search("encrypt my secret with aes"), Some(Route::Encrypter));
}

#[test]
fn matches_decrypter() {
    assert_eq!(search("decrypt this ciphertext"), Some(Route::Decrypter));
}

#[test]
fn matches_file_hasher() {
    assert_eq!(search("calculate the md5 hash of a file"), Some(Route::FileHasher));
}

#[test]
fn no_match_for_gibberish() {
    assert_eq!(search("qwertyuiop asdfgh"), None);
}

#[test]
fn empty_query_no_match() {
    assert_eq!(search(""), None);
}

#[test]
fn query_is_lowercased_and_trimmed() {
    assert_eq!(search("   ENCRYPT   "), Some(Route::Encrypter));
    assert_eq!(search("\tHash\n"), Some(Route::FileHasher));
}

#[test]
fn stopwords_and_single_letters_do_not_count() {
    assert_eq!(search("to the a of x"), None);
    assert_eq!(search_normalized("i want to"), None);
}

#[test]
fn ties_go_to_the_earlier_feature() {
    // "aes" is an exact keyword of both the encrypter and the decrypter.
    assert_eq!(search_normalized("aes"), Some(Route::Encrypter));
    // "decode" is exact for the converter and the decrypter.
    assert_eq!(search_normalized("decode"), Some(Route::Converter));
}

#[test]
fn partial_matches_score_one_point() {
    // "encrypted" contains "encrypt" (and "crypt"): partial only.
    assert_eq!(search_normalized("encrypted"), Some(Route::Encrypter));
    // "checking" contains the partial keyword "check".
    assert_eq!(search_normalized("checking"), Some(Route::FileHasher));
    // Three-letter tokens never match partially.
    assert_eq!(search_normalized("ash"), None);
}

#[test]
fn route_labels() {
    assert_eq!(Route::all().len(), 6);
    assert_eq!(Route::Home.label(), "Home");
    assert_eq!(Route::KeyGenerator.label(), "Key generator");
    assert_eq!(Route::FileHasher.label(), "File hasher");
}
