use excel_config::KeyType;
use excel_config::RustUtil;

#[test]
fn strip_suffix_behaviour() {
    assert_eq!(
        RustUtil::strip_suffix("config.xlsx".to_string(), ".xlsx".to_string()),
        Some("config".to_string())
    );
    assert_eq!(RustUtil::strip_suffix("config.xlsx".to_string(), ".lua".to_string()), None);
    assert_eq!(RustUtil::strip_suffix("a".to_string(), "abc".to_string()), None);
    assert_eq!(RustUtil::strip_suffix("abc".to_string(), "".to_string()), Some("abc".to_string()));
}

#[test]
fn strip_prefix_behaviour() {
    assert_eq!(
        RustUtil::strip_prefix("lua/entry.lua".to_string(), "lua/".to_string()),
        Some("entry.lua".to_string())
    );
    assert_eq!(RustUtil::strip_prefix("entry.lua".to_string(), "lua/".to_string()), None);
    assert_eq!(RustUtil::strip_prefix("x".to_string(), "xyz".to_string()), None);
}

#[test]
fn audience_tag_sets() {
    assert_eq!(
        KeyType::server_side(),
        vec![KeyType::AllKey, KeyType::All, KeyType::Server, KeyType::ServerKey]
    );
    assert_eq!(
        KeyType::client_side(),
        vec![KeyType::AllKey, KeyType::All, KeyType::Client, KeyType::ClientKey]
    );
    assert_eq!(KeyType::server_key(), vec![KeyType::AllKey, KeyType::ServerKey]);
    assert_eq!(KeyType::client_key(), vec![KeyType::AllKey, KeyType::ClientKey]);
}
