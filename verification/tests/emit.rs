use excel_config::CellType;
use excel_config::ConfigError;
use excel_config::GameConfig;
use excel_config::GameConfigs;
use excel_config::KeyType;
use excel_config::convert::ToLua;
use excel_config::generate_all_lua;
use excel_config::lua_meta_table;

fn item_table() -> GameConfig {
    GameConfig {
        name: "item".to_string(),
        cell_name: vec!["id".to_string(), "name".to_string()],
        key_type: vec![KeyType::AllKey, KeyType::All],
        cell_type: vec![CellType::UInt, CellType::String],
        data: vec![
            vec!["1".to_string(), "foo".to_string()],
            vec!["2".to_string(), "bar".to_string()],
        ],
    }
}

#[test]
fn module_layout() {
    let source = item_table().to_lua().unwrap();
    let expected_head = "local data = {\n    [1] = { [1] = 1, [2] = \"foo\" },\n    [2] = { [1] = 2, [2] = \"bar\" }\n}\n\nlocal s_name = 'item'\n\nlocal s_id = { [1] = 1, [2] = 2 }\n\nlocal s_key = { ['id'] = 1, ['name'] = 2 }\n\n";
    assert!(source.starts_with(expected_head), "got:\n{}", source);
    assert_eq!(&source[expected_head.len()..], lua_meta_table());
}

#[test]
fn key_index_uses_encoded_key() {
    let mut t = item_table();
    // The second column (string) carries the key tag instead.
    t.key_type = vec![KeyType::Server, KeyType::AllKey];
    let source = t.to_lua().unwrap();
    assert!(source.contains("local s_id = { [\"foo\"] = 1, [\"bar\"] = 2 }"), "got:\n{}", source);
}

#[test]
fn meta_table_guards_writes() {
    let meta = lua_meta_table();
    assert!(meta.starts_with("local meta = {"));
    assert!(meta.ends_with("return config"));
    assert!(meta.contains("error(\"Attempt to modify read-only table\")"));
    assert!(meta.contains("__newindex"));
    assert!(meta.contains("__index"));
}

#[test]
fn missing_primary_key_fails_emission() {
    let mut t = item_table();
    t.key_type = vec![KeyType::Server, KeyType::Client];
    assert_eq!(t.to_lua(), Err(ConfigError::MissingPrimaryKey("item".to_string())));
}

#[test]
fn emission_reports_first_bad_cell() {
    let mut t = item_table();
    t.data.push(vec!["oops".to_string(), "z".to_string()]);
    assert_eq!(
        t.to_lua(),
        Err(ConfigError::MalformedScalar(CellType::UInt, "oops".to_string()))
    );
}

#[test]
fn generate_all_aggregates_emission_errors() {
    let good = item_table();
    let mut bad1 = item_table();
    bad1.name = "a".to_string();
    bad1.key_type = vec![KeyType::Server, KeyType::Client];
    let mut bad2 = item_table();
    bad2.name = "b".to_string();
    bad2.key_type = vec![KeyType::Client, KeyType::Server];
    let gc = GameConfigs {
        commit_id: String::new(),
        create_mills: 0,
        data: vec![bad1, good.clone(), bad2],
    };
    let errs = generate_all_lua(&gc).unwrap_err();
    assert_eq!(
        errs,
        vec![
            ConfigError::MissingPrimaryKey("a".to_string()),
            ConfigError::MissingPrimaryKey("b".to_string()),
        ]
    );
    let gc_ok = GameConfigs { commit_id: String::new(), create_mills: 0, data: vec![good] };
    let outputs = generate_all_lua(&gc_ok).unwrap();
    assert_eq!(outputs.len(), 1);
    assert_eq!(outputs[0].0, "item");
    assert!(outputs[0].1.starts_with("local data = {"));
}
