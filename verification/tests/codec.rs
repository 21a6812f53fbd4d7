use excel_config::CellType;
use excel_config::ConfigError;
use excel_config::LuaWriter;
use excel_config::convert::Parse;

fn write(ty: CellType, raw: &str) -> Result<String, ConfigError> {
    LuaWriter::write(&ty, &raw.to_string())
}

#[test]
fn vector2_int_scenario() {
    let typed: (i32, i32) = "3,4".to_string().parse().unwrap();
    assert_eq!(typed, (3, 4));
    assert_eq!(write(CellType::Vector2Int, "3,4").unwrap(), "{ 3, 4 }");
}

#[test]
fn array_int_scenario() {
    let typed: Vec<i32> = "1,2,3".to_string().parse().unwrap();
    assert_eq!(typed, vec![1, 2, 3]);
    assert_eq!(write(CellType::ArrayInt, "1,2,3").unwrap(), "{ 1, 2, 3 }");
}

#[test]
fn vector2_array_scenario() {
    let typed: Vec<(i32, i32)> = "1,2;3,4".to_string().parse().unwrap();
    assert_eq!(typed, vec![(1, 2), (3, 4)]);
    assert_eq!(
        write(CellType::Vector2ArrayInt, "1,2;3,4").unwrap(),
        "{ { 1, 2 }, { 3, 4 } }"
    );
}

#[test]
fn malformed_bool_scenario() {
    let r: Result<bool, ConfigError> = "notabool".to_string().parse();
    assert_eq!(r, Err(ConfigError::MalformedBool("notabool".to_string())));
    assert_eq!(
        write(CellType::Bool, "notabool"),
        Err(ConfigError::MalformedBool("notabool".to_string()))
    );
}

#[test]
fn bool_literals() {
    assert_eq!(write(CellType::Bool, "1").unwrap(), "true");
    assert_eq!(write(CellType::Bool, "true").unwrap(), "true");
    assert_eq!(write(CellType::Bool, "false").unwrap(), "false");
    assert_eq!(write(CellType::Bool, "0").unwrap(), "false");
    assert_eq!(write(CellType::Bool, "").unwrap(), "false");
    assert!(write(CellType::Bool, "TRUE").is_err());
}

#[test]
fn default_sentinel_every_type() {
    let all = [
        CellType::UInt,
        CellType::Int,
        CellType::Long,
        CellType::String,
        CellType::Bool,
        CellType::Vector3ArrayInt,
        CellType::Vector3Int,
        CellType::Vector2Int,
        CellType::Vector3UInt,
        CellType::Vector2UInt,
        CellType::Vector2ArrayInt,
        CellType::ArrayInt,
        CellType::ArrayUInt,
        CellType::DictionaryStringFloat,
        CellType::DictionaryStringInt,
        CellType::Lang,
        CellType::Float,
        CellType::Double,
        CellType::Vector2Float,
        CellType::Vector3Float,
        CellType::Vector2String,
    ];
    for ty in all {
        assert_eq!(write(ty, ""), write(ty, "0"), "sentinel mismatch for {:?}", ty);
    }
    assert_eq!(write(CellType::UInt, "").unwrap(), "0");
    assert_eq!(write(CellType::Int, "").unwrap(), "0");
    assert_eq!(write(CellType::Long, "").unwrap(), "0");
    assert_eq!(write(CellType::Float, "").unwrap(), "0");
    assert_eq!(write(CellType::Double, "").unwrap(), "0");
    assert_eq!(write(CellType::String, "").unwrap(), "\"\"");
    assert_eq!(write(CellType::Lang, "").unwrap(), "\"\"");
    assert_eq!(write(CellType::Bool, "").unwrap(), "false");
    assert_eq!(write(CellType::Vector2Int, "").unwrap(), "{ 0, 0 }");
    assert_eq!(write(CellType::Vector2UInt, "").unwrap(), "{ 0, 0 }");
    assert_eq!(write(CellType::Vector2Float, "").unwrap(), "{ 0, 0 }");
    assert_eq!(write(CellType::Vector3Int, "").unwrap(), "{ 0, 0, 0 }");
    assert_eq!(write(CellType::Vector3UInt, "").unwrap(), "{ 0, 0, 0 }");
    assert_eq!(write(CellType::Vector3Float, "").unwrap(), "{ 0, 0, 0 }");
    assert_eq!(write(CellType::Vector2String, "").unwrap(), "{ \"\", \"\" }");
    assert_eq!(write(CellType::ArrayInt, "").unwrap(), "{  }");
    assert_eq!(write(CellType::ArrayUInt, "").unwrap(), "{  }");
    assert_eq!(write(CellType::Vector2ArrayInt, "").unwrap(), "{  }");
    assert_eq!(write(CellType::Vector3ArrayInt, "").unwrap(), "{  }");
}

#[test]
fn tuple_arity_mismatch() {
    assert_eq!(
        write(CellType::Vector2Int, "1,2,3"),
        Err(ConfigError::ArityMismatch(2, 3, "1,2,3".to_string()))
    );
    assert_eq!(
        write(CellType::Vector2Int, "7;8"),
        Err(ConfigError::ArityMismatch(2, 1, "7;8".to_string()))
    );
    assert_eq!(
        write(CellType::Vector3Int, "1,2"),
        Err(ConfigError::ArityMismatch(3, 2, "1,2".to_string()))
    );
    assert_eq!(
        write(CellType::Vector3UInt, "1,2,3,4"),
        Err(ConfigError::ArityMismatch(3, 4, "1,2,3,4".to_string()))
    );
}

#[test]
fn tuple_group_arity_is_per_group() {
    assert_eq!(
        write(CellType::Vector2ArrayInt, "1,2;5"),
        Err(ConfigError::ArityMismatch(2, 1, "5".to_string()))
    );
    assert_eq!(
        write(CellType::Vector3ArrayInt, "1,2,3;4,5"),
        Err(ConfigError::ArityMismatch(3, 2, "4,5".to_string()))
    );
}

#[test]
fn empty_tuple_component_is_zero() {
    assert_eq!(write(CellType::Vector2Int, "3,").unwrap(), "{ 3, 0 }");
    assert_eq!(write(CellType::Vector2ArrayInt, "1,2;;3,4").unwrap(), "{ { 1, 2 }, { 0, 0 }, { 3, 4 } }");
}

#[test]
fn integer_grammar() {
    assert_eq!(write(CellType::UInt, "007").unwrap(), "7");
    assert_eq!(write(CellType::UInt, "+5").unwrap(), "5");
    assert_eq!(write(CellType::UInt, "4294967295").unwrap(), "4294967295");
    assert_eq!(
        write(CellType::UInt, "4294967296"),
        Err(ConfigError::MalformedScalar(CellType::UInt, "4294967296".to_string()))
    );
    assert_eq!(
        write(CellType::UInt, "-1"),
        Err(ConfigError::MalformedScalar(CellType::UInt, "-1".to_string()))
    );
    assert_eq!(write(CellType::Int, "-12").unwrap(), "-12");
    assert_eq!(write(CellType::Int, "2147483647").unwrap(), "2147483647");
    assert_eq!(write(CellType::Int, "-2147483648").unwrap(), "-2147483648");
    assert!(write(CellType::Int, "2147483648").is_err());
    assert_eq!(write(CellType::Long, "9223372036854775807").unwrap(), "9223372036854775807");
    assert_eq!(write(CellType::Long, "-9223372036854775808").unwrap(), "-9223372036854775808");
    assert!(write(CellType::Long, "9223372036854775808").is_err());
    assert!(write(CellType::Int, " 1").is_err());
    assert!(write(CellType::Int, "1 ").is_err());
    assert!(write(CellType::Int, "+").is_err());
    assert!(write(CellType::Int, "12a").is_err());
}

#[test]
fn unsigned_64_parse() {
    let v: u64 = "18446744073709551615".to_string().parse().unwrap();
    assert_eq!(v, u64::MAX);
    let r: Result<u64, ConfigError> = "18446744073709551616".to_string().parse();
    assert!(r.is_err());
}

#[test]
fn string_rendering_escapes() {
    assert_eq!(write(CellType::String, "abc").unwrap(), "\"abc\"");
    assert_eq!(write(CellType::String, "say \"hi\"").unwrap(), "\"say \\\"hi\\\"\"");
    assert_eq!(write(CellType::String, "a\r\nb").unwrap(), "\"a\\\r\\\nb\"");
    assert_eq!(write(CellType::Lang, "hello").unwrap(), "\"hello\"");
}

#[test]
fn string_zero_is_empty() {
    // The sentinel makes a string cell holding exactly `0` indistinguishable
    // from an absent one.
    assert_eq!(write(CellType::String, "0").unwrap(), "\"\"");
}

#[test]
fn vector2_string_rendering() {
    assert_eq!(write(CellType::Vector2String, "a,b").unwrap(), "{ \"a\", \"b\" }");
    assert_eq!(write(CellType::Vector2String, "a,0").unwrap(), "{ \"a\", \"\" }");
}

#[test]
fn float_tokens_kept_as_written() {
    assert_eq!(write(CellType::Float, "1.5").unwrap(), "1.5");
    assert_eq!(write(CellType::Float, "1e3").unwrap(), "1e3");
    assert_eq!(write(CellType::Float, ".5").unwrap(), ".5");
    assert_eq!(write(CellType::Float, "5.").unwrap(), "5.");
    assert_eq!(write(CellType::Double, "-2.25E-2").unwrap(), "-2.25E-2");
    assert_eq!(write(CellType::Float, "inf").unwrap(), "inf");
    assert_eq!(write(CellType::Float, "NaN").unwrap(), "NaN");
    assert_eq!(write(CellType::Vector2Float, "0.5,2.5").unwrap(), "{ 0.5, 2.5 }");
    assert_eq!(write(CellType::Vector3Float, "1,2.5,3e1").unwrap(), "{ 1, 2.5, 3e1 }");
}

#[test]
fn float_grammar_rejects() {
    assert_eq!(
        write(CellType::Float, "abc"),
        Err(ConfigError::MalformedScalar(CellType::Float, "abc".to_string()))
    );
    assert!(write(CellType::Float, "1e").is_err());
    assert!(write(CellType::Float, "--1").is_err());
    assert!(write(CellType::Float, "1.2.3").is_err());
    assert!(write(CellType::Float, ".").is_err());
    assert!(write(CellType::Double, "1 .5").is_err());
}

#[test]
fn dictionary_kinds_unimplemented() {
    assert_eq!(
        write(CellType::DictionaryStringFloat, "a=1"),
        Err(ConfigError::Unimplemented(CellType::DictionaryStringFloat))
    );
    assert_eq!(
        write(CellType::DictionaryStringInt, ""),
        Err(ConfigError::Unimplemented(CellType::DictionaryStringInt))
    );
}

#[test]
fn uint_array_and_long_values() {
    assert_eq!(write(CellType::ArrayUInt, "4294967295,0,1").unwrap(), "{ 4294967295, 0, 1 }");
    assert!(write(CellType::ArrayUInt, "1,-2").is_err());
    assert_eq!(write(CellType::Vector2UInt, "10,20").unwrap(), "{ 10, 20 }");
    assert_eq!(write(CellType::Vector3Int, "-1,0,1").unwrap(), "{ -1, 0, 1 }");
}

#[test]
fn multibyte_strings_render() {
    assert_eq!(write(CellType::String, "épée").unwrap(), "\"épée\"");
    assert_eq!(write(CellType::Vector2String, "道,具").unwrap(), "{ \"道\", \"具\" }");
}
