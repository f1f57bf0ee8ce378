use crittoutil::crypto_meta::{CryptoRequest, EncryptResult};
use crittoutil::tools::{
    execute_tool, extract_pseudo_tool_call, finish_tool, looks_like_bare_tool_call, PendingTool, ToolStep,
};

fn done(step: ToolStep) -> (String, Vec<(String, usize)>) {
    match step {
        ToolStep::Done(out) => (out.result, out.keys),
        other => panic!("expected a finished tool call, got {:?}", other),
    }
}

#[test]
fn extracts_pseudo_tool_call_from_fenced_and_bare_json() {
    let content = "To convert \"ciao mondo\" to Base64, I'll use the following function call:\n\n\
        ```json\n{\n  \"name\": \"encrypt\",\n  \"arguments\": {\n    \"algorithm\": \"MD5\",\n    \"plaintext\": \"ciao mondo\"\n  }\n}\n```\n\n\
        The result of this operation is:\n{\"name\":\"encrypt\",\"arguments\":{\"algorithm\":\"MD5\",\"plaintext\":\"ciao mondo\"}}";

    let (name, arguments) = extract_pseudo_tool_call(content).expect("should find a pseudo tool call");
    assert_eq!(name, "encrypt");
    let args: serde_json::Value = serde_json::from_str(&arguments).unwrap();
    assert_eq!(args["algorithm"], "MD5");
    assert_eq!(args["plaintext"], "ciao mondo");
}

#[test]
fn no_pseudo_tool_call_in_plain_text() {
    assert!(extract_pseudo_tool_call("Sure, here's the answer: 42.").is_none());
}

#[test]
fn extracts_pseudo_tool_call_with_field_aliases() {
    let content = r#"{"tool": "generate_key", "parameters": {"bits": 128}}"#;
    let (name, arguments) = extract_pseudo_tool_call(content).unwrap();
    assert_eq!(name, "generate_key");
    let args: serde_json::Value = serde_json::from_str(&arguments).unwrap();
    assert_eq!(args["bits"], 128);
}

#[test]
fn ignores_json_naming_an_unknown_tool() {
    let content = r#"{"name": "delete_everything", "arguments": {}}"#;
    assert!(extract_pseudo_tool_call(content).is_none());
}

#[test]
fn detects_bare_tool_call_without_json() {
    assert!(looks_like_bare_tool_call("encrypt(\"hello\")"));
    assert!(looks_like_bare_tool_call("generate_key 256"));
    assert!(!looks_like_bare_tool_call("Sure, I can help with that."));
    assert!(!looks_like_bare_tool_call("encryption is important"));
}

#[test]
fn bare_tool_call_edge_cases() {
    assert!(looks_like_bare_tool_call("  \n decrypt\"x\""));
    assert!(!looks_like_bare_tool_call("convert"));
    assert!(!looks_like_bare_tool_call("(encrypt)"));
    assert!(!looks_like_bare_tool_call(""));
}

#[test]
fn pseudo_tool_call_skips_unbalanced_and_invalid_candidates() {
    // The outer object does not name a tool; the inner one does.
    let content = r#"{"note": 1, "call": {"function": "convert", "args": {"from": "text"}}}"#;
    let (name, arguments) = extract_pseudo_tool_call(content).unwrap();
    assert_eq!(name, "convert");
    assert_eq!(arguments, r#"{"from":"text"}"#);
    // Arguments must be an object.
    assert!(extract_pseudo_tool_call(r#"{"name": "encrypt", "arguments": "x"}"#).is_none());
    // A non-string name hides a later alias.
    assert!(extract_pseudo_tool_call(r#"{"name": 3, "tool": "encrypt", "arguments": {}}"#).is_none());
    // Never closed.
    assert!(extract_pseudo_tool_call(r#"{"name": "encrypt", "arguments": {}"#).is_none());
}

#[test]
fn convert_tool_encodes_text_to_base64() {
    let (result, keys) = done(execute_tool("convert", r#"{"from":"text","to":"base64","value":"ciao mondo"}"#));
    let value: serde_json::Value = serde_json::from_str(&result).unwrap();
    assert_eq!(value["result"], "Y2lhbyBtb25kbw==");
    assert!(keys.is_empty());
}

#[test]
fn convert_tool_errors() {
    let (result, _) = done(execute_tool("convert", r#"{"from":"hex","to":"text","value":"00"}"#));
    assert_eq!(result, r#"{"error":"unknown conversion type: hex or text"}"#);
    let (result, _) = done(execute_tool("convert", r#"{"from":"binary","to":"text","value":"012"}"#));
    assert_eq!(result, r#"{"error":"Value must be binary (0s and 1s)"}"#);
    let (result, _) = done(execute_tool("convert", r#"{"from":"base64","to":"text","value":"/w=="}"#));
    assert_eq!(result, r#"{"error":"Decoded bytes are not valid UTF-8"}"#);
}

#[test]
fn invalid_arguments_and_unknown_tools() {
    let (result, keys) = done(execute_tool("convert", "{"));
    assert!(result.starts_with("{\"error\": \"invalid arguments: "));
    assert!(result.ends_with("\"}"));
    assert!(keys.is_empty());
    let (result, _) = done(execute_tool("delete_everything", "{}"));
    assert_eq!(result, r#"{"error":"unknown tool: delete_everything"}"#);
}

#[test]
fn generate_key_asks_for_a_key_of_the_requested_size() {
    match execute_tool("generate_key", r#"{"bits": 128}"#) {
        ToolStep::Crypto { request: CryptoRequest::GenerateKey { bits }, pending: PendingTool::GenerateKey { bits: b } } => {
            assert_eq!(bits, 128);
            assert_eq!(b, 128);
        }
        other => panic!("unexpected {:?}", other),
    }
    match execute_tool("generate_key", r#"{"bits": "big"}"#) {
        ToolStep::Crypto { request: CryptoRequest::GenerateKey { bits }, .. } => assert_eq!(bits, 256),
        other => panic!("unexpected {:?}", other),
    }
    let out = finish_tool(PendingTool::GenerateKey { bits: 128 }, Ok(EncryptResult::Plain("k3y\"x".to_string())));
    assert_eq!(out.result, r#"{"bits":128,"key":"k3y\"x"}"#);
    assert_eq!(out.keys, vec![("k3y\"x".to_string(), 16)]);
}

#[test]
fn encrypt_tool_checks_then_asks_for_the_primitive() {
    let (result, _) = done(execute_tool("encrypt", r#"{"algorithm":"RC4","plaintext":"x"}"#));
    assert_eq!(result, r#"{"error":"unknown algorithm: RC4"}"#);
    let (result, _) = done(execute_tool("encrypt", r#"{"algorithm":"AES-ECB","plaintext":"x","key":"short"}"#));
    assert_eq!(result, r#"{"error":"Key must be 16, 24, or 32 bytes for AES"}"#);
    let (result, _) = done(execute_tool("encrypt", r#"{"algorithm":"DES-CBC","plaintext":"x","key":"12345678","iv":"abc"}"#));
    assert_eq!(result, r#"{"error":"IV must be exactly 8 bytes for DES"}"#);
    match execute_tool("encrypt", r#"{"algorithm":"MD5","plaintext":"ciao mondo"}"#) {
        ToolStep::Crypto { request: CryptoRequest::HashMd5 { plaintext }, pending: PendingTool::Encrypt { key } } => {
            assert_eq!(plaintext, "ciao mondo");
            assert_eq!(key, "");
        }
        other => panic!("unexpected {:?}", other),
    }
    match execute_tool("encrypt", r#"{"algorithm":"AES-CBC","plaintext":"p","key":"0123456789abcdef","iv":""}"#) {
        ToolStep::Crypto { request: CryptoRequest::EncryptAesCbc { plaintext, key, iv }, .. } => {
            assert_eq!(plaintext, "p");
            assert_eq!(key, "0123456789abcdef");
            assert_eq!(iv, None);
        }
        other => panic!("unexpected {:?}", other),
    }
}

#[test]
fn encrypt_tool_results() {
    let out = finish_tool(
        PendingTool::Encrypt { key: "12345678".to_string() },
        Ok(EncryptResult::Cbc { cipher: "Y2lw".to_string(), iv: "ivivivIV".to_string() }),
    );
    assert_eq!(out.result, r#"{"ciphertext":"Y2lw","iv":"ivivivIV"}"#);
    assert_eq!(out.keys, vec![("ivivivIV".to_string(), 8), ("12345678".to_string(), 8)]);
    let out = finish_tool(PendingTool::Encrypt { key: String::new() }, Ok(EncryptResult::Plain("abc\n".to_string())));
    assert_eq!(out.result, "{\"ciphertext\":\"abc\\n\"}");
    assert!(out.keys.is_empty());
    let out = finish_tool(PendingTool::Encrypt { key: "k".to_string() }, Err("bad key".to_string()));
    assert_eq!(out.result, r#"{"error":"bad key"}"#);
    assert!(out.keys.is_empty());
}

#[test]
fn decrypt_tool() {
    let (result, _) = done(execute_tool("decrypt", r#"{"algorithm":"MD5","ciphertext":"SGk=","key":"k"}"#));
    assert_eq!(result, r#"{"error":"unknown algorithm: MD5"}"#);
    let (result, _) = done(execute_tool("decrypt", r#"{"algorithm":"AES-ECB","ciphertext":"%%%","key":"k"}"#));
    assert_eq!(result, r#"{"error":"Payload is not valid Base64"}"#);
    let (result, _) = done(execute_tool("decrypt", r#"{"algorithm":"DES-CBC","ciphertext":"SGk=","key":"12345678"}"#));
    assert_eq!(result, r#"{"error":"Please enter an IV"}"#);
    // The IV is checked as given, so surrounding spaces count towards its length.
    let (result, _) = done(execute_tool("decrypt", r#"{"algorithm":"DES-CBC","ciphertext":"SGk=","key":"12345678","iv":" abcdefgh "}"#));
    assert_eq!(result, r#"{"error":"IV must be exactly 8 bytes for DES"}"#);
    match execute_tool("decrypt", r#"{"algorithm":"DES-CBC","ciphertext":" SGk= ","key":"12345678","iv":"abcdefgh"}"#) {
        ToolStep::Crypto { request: CryptoRequest::DecryptDesCbc { payload, key, iv }, pending: PendingTool::Decrypt } => {
            assert_eq!(payload, "SGk=");
            assert_eq!(key, "12345678");
            assert_eq!(iv, "abcdefgh");
        }
        other => panic!("unexpected {:?}", other),
    }
    let out = finish_tool(PendingTool::Decrypt, Ok(EncryptResult::Plain("hi".to_string())));
    assert_eq!(out.result, r#"{"plaintext":"hi"}"#);
}

#[test]
fn offered_tools_are_the_executed_tools_with_json_schemas() {
    let specs = crittoutil::tools::tool_specs();
    let names: Vec<&str> = specs.iter().map(|t| t.name).collect();
    assert_eq!(names, vec!["generate_key", "encrypt", "convert", "decrypt"]);
    for t in &specs {
        assert!(crittoutil::tools::is_tool_name(t.name));
        let schema: serde_json::Value = serde_json::from_str(t.parameters).unwrap();
        assert_eq!(schema["type"], "object");
        for req in schema["required"].as_array().unwrap() {
            assert!(schema["properties"].get(req.as_str().unwrap()).is_some());
        }
    }
    assert!(specs[1].description.contains("MD5 ignores key/iv."));
}
