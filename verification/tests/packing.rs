use std::io::Read;

use excel_config::CellType;
use excel_config::GameConfig;
use excel_config::GameConfigs;
use excel_config::KeyType;
use excel_config::encode_game_configs;
use excel_config::pack_game_configs;

fn sample() -> GameConfigs {
    GameConfigs {
        commit_id: "abc".to_string(),
        create_mills: 77,
        data: vec![GameConfig {
            name: "item".to_string(),
            cell_name: vec!["id".to_string(), "name".to_string()],
            key_type: vec![KeyType::AllKey, KeyType::All],
            cell_type: vec![CellType::UInt, CellType::String],
            data: vec![
                vec!["1".to_string(), "foo".to_string()],
                vec!["2".to_string(), "bar".to_string()],
            ],
        }],
    }
}

/// The reference bytes: the same values serialized by the usual serde binary
/// encoder under its default fixed-integer little-endian layout. A struct
/// serializes as its fields in order and a unit enum variant as its `u32`
/// index, so a tuple of standard-library values with the tag indices spelled
/// out covers the same layout.
fn reference_bytes() -> Vec<u8> {
    type TableShape = (String, Vec<String>, Vec<u32>, Vec<u32>, Vec<Vec<String>>);
    let table: TableShape = (
        "item".to_string(),
        vec!["id".to_string(), "name".to_string()],
        vec![0u32, 1u32],
        vec![0u32, 3u32],
        vec![
            vec!["1".to_string(), "foo".to_string()],
            vec!["2".to_string(), "bar".to_string()],
        ],
    );
    let value = ("abc".to_string(), 77u128, vec![table]);
    bincode::serialize(&value).unwrap()
}

#[test]
fn encoding_matches_reference_layout() {
    assert_eq!(encode_game_configs(&sample()), reference_bytes());
}

#[test]
fn encoding_is_deterministic() {
    assert_eq!(encode_game_configs(&sample()), encode_game_configs(&sample()));
}

#[test]
fn empty_dataset_encoding() {
    let gc = GameConfigs { commit_id: String::new(), create_mills: 0, data: Vec::new() };
    let expected = bincode::serialize(&(String::new(), 0u128, Vec::<u8>::new())).unwrap();
    assert_eq!(encode_game_configs(&gc), expected);
}

#[test]
fn packed_blob_decompresses_to_encoding() {
    let gc = sample();
    let blob = pack_game_configs(&gc, 0);
    assert_ne!(blob, encode_game_configs(&gc));
    let mut decoder = lz4::Decoder::new(&blob[..]).unwrap();
    let mut out = Vec::new();
    decoder.read_to_end(&mut out).unwrap();
    assert_eq!(out, encode_game_configs(&gc));
}

#[test]
fn pack_levels_accepted() {
    let gc = sample();
    for level in [0u32, 4, 11] {
        let blob = pack_game_configs(&gc, level);
        let mut decoder = lz4::Decoder::new(&blob[..]).unwrap();
        let mut out = Vec::new();
        decoder.read_to_end(&mut out).unwrap();
        assert_eq!(out, encode_game_configs(&gc));
    }
}

#[test]
fn decode_inverts_encode() {
    let gc = sample();
    let blob = encode_game_configs(&gc);
    let decoded = excel_config::decode_game_configs(&blob).unwrap();
    assert_eq!(decoded, gc);
}

#[test]
fn decode_rejects_truncation() {
    let blob = encode_game_configs(&sample());
    for cut in [0, 1, 7, 8, blob.len() / 2, blob.len() - 1] {
        assert!(excel_config::decode_game_configs(&blob[..cut]).is_err(), "cut {}", cut);
    }
}

#[test]
fn decode_rejects_corruption_and_trailing_bytes() {
    let gc = sample();
    let blob = encode_game_configs(&gc);
    let mut trailing = blob.clone();
    trailing.push(0);
    assert!(excel_config::decode_game_configs(&trailing).is_err());
    assert_eq!(excel_config::decode_game_configs(&blob).unwrap(), gc);
    // Overwriting some byte with an out-of-range value must make decoding
    // fail somewhere, never read past bounds or return a wrong dataset.
    let mut corrupt = blob.clone();
    let mut rejected = false;
    for i in 0..corrupt.len() {
        let old = corrupt[i];
        corrupt[i] = 0xFF;
        if excel_config::decode_game_configs(&corrupt).is_err() {
            rejected = true;
            break;
        }
        corrupt[i] = old;
    }
    assert!(rejected);
}

#[test]
fn reference_decoder_reads_our_bytes() {
    type TableShape = (String, Vec<String>, Vec<u32>, Vec<u32>, Vec<Vec<String>>);
    let blob = encode_game_configs(&sample());
    let value: (String, u128, Vec<TableShape>) = bincode::deserialize(&blob).unwrap();
    assert_eq!(value.0, "abc");
    assert_eq!(value.1, 77);
    assert_eq!(value.2[0].0, "item");
    assert_eq!(value.2[0].2, vec![0u32, 1u32]);
}

#[test]
fn multibyte_strings_round_trip() {
    let gc = GameConfigs {
        commit_id: "发布".to_string(),
        create_mills: 1,
        data: vec![GameConfig {
            name: "道具".to_string(),
            cell_name: vec!["名字".to_string()],
            key_type: vec![KeyType::AllKey],
            cell_type: vec![CellType::String],
            data: vec![vec!["épée".to_string()]],
        }],
    };
    let blob = encode_game_configs(&gc);
    // String lengths are byte lengths of the UTF-8 form, as the reference
    // encoder writes them.
    let reference = bincode::serialize(&(
        "发布".to_string(),
        1u128,
        vec![(
            "道具".to_string(),
            vec!["名字".to_string()],
            vec![0u32],
            vec![3u32],
            vec![vec!["épée".to_string()]],
        )],
    ))
    .unwrap();
    assert_eq!(blob, reference);
    assert_eq!(excel_config::decode_game_configs(&blob).unwrap(), gc);
}
