use llmwiki::secrets::SecretService;

#[test]
fn encrypt_round_trips() {
    for text in ["", "hello", "{\"deepseek\":\"sk-123\"}", "密钥 ünïcode"] {
        let e = SecretService::encrypt(text);
        assert_eq!(SecretService::decrypt(&e), Ok(text.to_string()));
    }
    // XOR with the key, then standard Base64: "l" ^ 'l' == 0.
    assert_eq!(SecretService::encrypt("l"), "AA==");
    assert_eq!(SecretService::encrypt("a"), "DQ==");
    assert_eq!(SecretService::encrypt("abc"), "DQ4O");
    assert_eq!(SecretService::encrypt("hello"), "BAkBGwY=");
    assert_ne!(SecretService::encrypt("hello"), "hello");
}

#[test]
fn decrypt_reports_errors() {
    let r = SecretService::decrypt("?!?!");
    assert!(r.unwrap_err().starts_with("Base64解码失败: "));
    // 0xff ^ 'l' is not valid UTF-8 on its own.
    let bad = "kw==";
    let r = SecretService::decrypt(bad);
    assert!(r.unwrap_err().starts_with("UTF-8解码失败: "));
}

#[test]
fn keys_are_stored_read_and_removed() {
    let mut s = SecretService::new("/tmp/keys", None);
    assert_eq!(s.storage_dir(), "/tmp/keys");
    assert!(!s.has_any_key());
    assert_eq!(s.get_api_key("deepseek"), None);
    s.store_api_key("deepseek", "sk-1234567890abcd");
    s.store_api_key("empty", "");
    assert_eq!(s.get_api_key("deepseek"), Some("sk-1234567890abcd".to_string()));
    assert!(s.has_api_key("deepseek"));
    assert!(!s.has_api_key("empty"));
    assert!(s.has_any_key());
    s.store_api_key("deepseek", "short");
    assert_eq!(s.get_api_key("deepseek"), Some("short".to_string()));
    assert_eq!(s.mask_api_key("deepseek"), Some("****".to_string()));
    s.store_api_key("deepseek", "sk-1234567890abcd");
    assert_eq!(s.mask_api_key("deepseek"), Some("sk-1****abcd".to_string()));
    assert_eq!(s.mask_api_key("none"), None);
    s.remove_api_key("deepseek");
    assert_eq!(s.get_api_key("deepseek"), None);
    assert!(!s.has_any_key());
}

#[test]
fn persisted_keys_load_back() {
    let mut s = SecretService::new("dir", None);
    s.store_api_key("a", "1");
    s.store_api_key("b", "two");
    let text = s.persisted();
    let t = SecretService::new("dir", Some(&text));
    assert_eq!(t.get_api_key("a"), Some("1".to_string()));
    assert_eq!(t.get_api_key("b"), Some("two".to_string()));
    let broken = SecretService::new("dir", Some("not base64!"));
    assert!(!broken.has_any_key());
}
