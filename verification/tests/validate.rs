use excel_config::CellChecker;
use excel_config::CellType;
use excel_config::Checker;
use excel_config::ConfigError;
use excel_config::GameConfig;
use excel_config::GameConfigs;
use excel_config::KeyType;
use excel_config::check_data_type;

fn dataset(tables: Vec<GameConfig>) -> GameConfigs {
    GameConfigs { commit_id: String::new(), create_mills: 0, data: tables }
}

fn table(cell_type: Vec<CellType>, data: Vec<Vec<&str>>) -> GameConfig {
    GameConfig {
        name: "t".to_string(),
        cell_name: Vec::new(),
        key_type: vec![KeyType::AllKey],
        cell_type,
        data: data
            .into_iter()
            .map(|r| r.into_iter().map(|c| c.to_string()).collect())
            .collect(),
    }
}

#[test]
fn cell_checker_accepts_and_rejects() {
    let checker = CellChecker;
    assert_eq!(checker.check((CellType::UInt, "12".to_string())), Ok(()));
    assert_eq!(
        checker.check((CellType::UInt, "x".to_string())),
        Err(ConfigError::MalformedScalar(CellType::UInt, "x".to_string()))
    );
    assert_eq!(checker.check((CellType::Vector2Int, "1,2".to_string())), Ok(()));
}

#[test]
fn batch_collects_every_error() {
    // Three malformed cells across two rows: exactly three errors, in table,
    // row and column order; validation does not stop at the first.
    let t = table(
        vec![CellType::UInt, CellType::Bool, CellType::Int],
        vec![vec!["x", "true", "yy"], vec!["4", "zz", "7"]],
    );
    let errs = check_data_type(&dataset(vec![t])).unwrap_err();
    assert_eq!(errs.len(), 3);
    assert_eq!(errs[0], ConfigError::MalformedScalar(CellType::UInt, "x".to_string()));
    assert_eq!(errs[1], ConfigError::MalformedScalar(CellType::Int, "yy".to_string()));
    assert_eq!(errs[2], ConfigError::MalformedBool("zz".to_string()));
}

#[test]
fn batch_spans_tables() {
    let t1 = table(vec![CellType::Int], vec![vec!["bad1"]]);
    let t2 = table(vec![CellType::Int], vec![vec!["3"], vec!["bad2"]]);
    let errs = check_data_type(&dataset(vec![t1, t2])).unwrap_err();
    assert_eq!(errs.len(), 2);
    assert_eq!(errs[0], ConfigError::MalformedScalar(CellType::Int, "bad1".to_string()));
    assert_eq!(errs[1], ConfigError::MalformedScalar(CellType::Int, "bad2".to_string()));
}

#[test]
fn row_arity_is_an_error() {
    let t = table(vec![CellType::Int, CellType::Int], vec![vec!["1"]]);
    let errs = check_data_type(&dataset(vec![t])).unwrap_err();
    assert_eq!(errs, vec![ConfigError::RowArityMismatch(2, 1)]);
}

#[test]
fn clean_dataset_passes() {
    let t = table(
        vec![CellType::UInt, CellType::Vector2Int, CellType::String],
        vec![vec!["1", "2,3", "abc"], vec!["", "0", ""]],
    );
    assert_eq!(check_data_type(&dataset(vec![t])), Ok(()));
}
