use excel_config::Audience;
use excel_config::CellType;
use excel_config::ConfigError;
use excel_config::GameConfig;
use excel_config::KeyType;
use excel_config::RawCell;
use excel_config::compile_game_config;
use excel_config::drop_client_data;
use excel_config::filter_columns;

fn text_row(cells: &[&str]) -> Vec<RawCell> {
    cells.iter().map(|c| RawCell::Text(c.to_string())).collect()
}

fn sheet() -> Vec<Vec<RawCell>> {
    vec![
        text_row(&["id", "hp", "note"]),
        text_row(&["uint", "int", "string"]),
        text_row(&["allkey", "server", "client"]),
        text_row(&["", "", ""]),
        text_row(&["", "", ""]),
        text_row(&["1", "-5", "alpha"]),
        text_row(&["2", "7", "beta"]),
    ]
}

#[test]
fn compile_builds_schema_and_data() {
    let cfg = compile_game_config("unit", &sheet(), Audience::Server).unwrap().unwrap();
    assert_eq!(cfg.name, "unit");
    assert_eq!(cfg.cell_name, vec!["id".to_string(), "hp".to_string()]);
    assert_eq!(cfg.key_type, vec![KeyType::AllKey, KeyType::Server]);
    assert_eq!(cfg.cell_type, vec![CellType::UInt, CellType::Int]);
    assert_eq!(
        cfg.data,
        vec![
            vec!["1".to_string(), "-5".to_string()],
            vec!["2".to_string(), "7".to_string()],
        ]
    );
}

#[test]
fn compile_client_build_keeps_client_columns() {
    let cfg = compile_game_config("unit", &sheet(), Audience::Client).unwrap().unwrap();
    assert_eq!(cfg.cell_name, vec!["id".to_string(), "note".to_string()]);
    assert_eq!(cfg.key_type, vec![KeyType::AllKey, KeyType::Client]);
    assert_eq!(cfg.cell_type, vec![CellType::UInt, CellType::String]);
    assert_eq!(
        cfg.data,
        vec![
            vec!["1".to_string(), "alpha".to_string()],
            vec!["2".to_string(), "beta".to_string()],
        ]
    );
}

#[test]
fn table_without_key_tag_is_dropped() {
    let mut rows = sheet();
    rows[2] = text_row(&["server", "server", "client"]);
    let r = compile_game_config("unit", &rows, Audience::Server).unwrap();
    assert_eq!(r, None);
}

#[test]
fn header_must_be_strings() {
    let mut rows = sheet();
    rows[0][1] = RawCell::Other("37".to_string());
    assert_eq!(
        compile_game_config("unit", &rows, Audience::Server),
        Err(ConfigError::ExpectedString(0, 1))
    );
    let mut rows = sheet();
    rows[2][0] = RawCell::Other("1".to_string());
    assert_eq!(
        compile_game_config("unit", &rows, Audience::Server),
        Err(ConfigError::ExpectedString(2, 0))
    );
}

#[test]
fn unknown_labels_are_errors() {
    let mut rows = sheet();
    rows[1][2] = RawCell::Text("mystery".to_string());
    assert_eq!(
        compile_game_config("unit", &rows, Audience::Server),
        Err(ConfigError::UnknownCellType("mystery".to_string()))
    );
    let mut rows = sheet();
    rows[2][1] = RawCell::Text("nowhere".to_string());
    assert_eq!(
        compile_game_config("unit", &rows, Audience::Server),
        Err(ConfigError::UnknownVisibilityTag("nowhere".to_string()))
    );
}

#[test]
fn tag_labels_ignore_case_and_type_labels_do_not() {
    let mut rows = sheet();
    rows[2] = text_row(&["AllKey", "SERVER", "Client"]);
    assert!(compile_game_config("unit", &rows, Audience::Server).unwrap().is_some());
    let mut rows = sheet();
    rows[1][0] = RawCell::Text("UInt".to_string());
    assert_eq!(
        compile_game_config("unit", &rows, Audience::Server),
        Err(ConfigError::UnknownCellType("UInt".to_string()))
    );
}

#[test]
fn type_label_aliases_resolve() {
    let mut rows = sheet();
    rows[1] = text_row(&["uint", "vector[int,int]", "vector[string,string]"]);
    let cfg = compile_game_config("unit", &rows, Audience::Client).unwrap().unwrap();
    assert_eq!(cfg.cell_type, vec![CellType::UInt, CellType::Vector2String]);
}

fn mixed_config() -> GameConfig {
    GameConfig {
        name: "mixed".to_string(),
        cell_name: vec!["a".to_string(), "b".to_string(), "c".to_string()],
        key_type: vec![KeyType::Server, KeyType::All, KeyType::Client],
        cell_type: vec![CellType::Int, CellType::UInt, CellType::String],
        data: vec![vec!["1".to_string(), "2".to_string(), "x".to_string()]],
    }
}

#[test]
fn client_filter_keeps_complement_columns() {
    // Columns tagged [server, all, client]: the client audience keeps the
    // second and third only.
    let filtered = filter_columns(&mixed_config(), Audience::Client);
    assert_eq!(filtered.cell_name, vec!["b".to_string(), "c".to_string()]);
    assert_eq!(filtered.key_type, vec![KeyType::All, KeyType::Client]);
    assert_eq!(filtered.cell_type, vec![CellType::UInt, CellType::String]);
    assert_eq!(filtered.data, vec![vec!["2".to_string(), "x".to_string()]]);
}

#[test]
fn server_filter_drops_client_columns() {
    let filtered = drop_client_data(mixed_config());
    assert_eq!(filtered.cell_name, vec!["a".to_string(), "b".to_string()]);
    assert_eq!(filtered.key_type, vec![KeyType::Server, KeyType::All]);
}

#[test]
fn filter_is_idempotent() {
    for aud in [Audience::Server, Audience::Client] {
        let once = filter_columns(&mixed_config(), aud);
        let twice = filter_columns(&once, aud);
        assert_eq!(once, twice);
    }
}

#[test]
fn short_sheet_has_no_key_tag() {
    let rows = vec![text_row(&["id"])];
    assert_eq!(compile_game_config("unit", &rows, Audience::Server).unwrap(), None);
}
