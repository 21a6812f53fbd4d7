//! The closed set of cell value kinds, the per-column visibility tags, and
//! the table types built from them.

use vstd::prelude::*;

use crate::error::ConfigError;
use crate::error::ErrorView;
use crate::error::res_matches;
use crate::text::eq_icase;
use crate::text::str_eq;
use crate::text::str_eq_icase;

verus! {

/// One member of the closed set of value kinds a column may hold.
///
/// Each kind has exactly one string grammar (see `convert`) and one Lua
/// literal rendering. The set is closed: every consumer matches on it
/// exhaustively, so a new kind fails to compile until it is wired everywhere.
#[derive(Debug, Clone, Copy, PartialEq, Eq, Structural)]
pub enum CellType {
    UInt,
    Int,
    Long,
    String,
    Bool,
    Vector3ArrayInt,
    Vector3Int,
    Vector2Int,
    Vector3UInt,
    Vector2UInt,
    Vector2ArrayInt,
    ArrayInt,
    ArrayUInt,
    DictionaryStringFloat,
    DictionaryStringInt,
    Lang,
    Float,
    Double,
    Vector2Float,
    Vector3Float,
    Vector2String,
}

/// Per-column visibility tag: which audience (server or client) may see the
/// column, and whether the column marks the table's primary key.
#[derive(Debug, Clone, Copy, PartialEq, Eq, Structural)]
pub enum KeyType {
    AllKey,
    All,
    Client,
    ClientKey,
    Server,
    ServerKey,
}

impl View for CellType {
    type V = CellType;

    open spec fn view(&self) -> CellType {
        *self
    }
}

impl DeepView for CellType {
    type V = CellType;

    open spec fn deep_view(&self) -> CellType {
        *self
    }
}

impl View for KeyType {
    type V = KeyType;

    open spec fn view(&self) -> KeyType {
        *self
    }
}

impl DeepView for KeyType {
    type V = KeyType;

    open spec fn deep_view(&self) -> KeyType {
        *self
    }
}

/// The cell type a label denotes. Labels are matched exactly; the 2-tuple,
/// 3-tuple and plain-kind labels each have one spelling, and the generic
/// `vector[..]` spellings are aliases for the component-typed kinds.
pub open spec fn cell_type_of_label(s: Seq<char>) -> Option<CellType> {
    if s == "uint"@ {
        Some(CellType::UInt)
    } else if s == "int"@ {
        Some(CellType::Int)
    } else if s == "long"@ {
        Some(CellType::Long)
    } else if s == "string"@ {
        Some(CellType::String)
    } else if s == "bool"@ {
        Some(CellType::Bool)
    } else if s == "vector3_array_int"@ {
        Some(CellType::Vector3ArrayInt)
    } else if s == "vector3_int"@ {
        Some(CellType::Vector3Int)
    } else if s == "vector2_int"@ || s == "vector[int,int]"@ {
        Some(CellType::Vector2Int)
    } else if s == "vector3_uint"@ {
        Some(CellType::Vector3UInt)
    } else if s == "vector2_uint"@ {
        Some(CellType::Vector2UInt)
    } else if s == "vector2_array_int"@ {
        Some(CellType::Vector2ArrayInt)
    } else if s == "array_int"@ {
        Some(CellType::ArrayInt)
    } else if s == "array_uint"@ {
        Some(CellType::ArrayUInt)
    } else if s == "dictionary_string_float"@ {
        Some(CellType::DictionaryStringFloat)
    } else if s == "dictionary_string_int"@ {
        Some(CellType::DictionaryStringInt)
    } else if s == "lang"@ {
        Some(CellType::Lang)
    } else if s == "float"@ {
        Some(CellType::Float)
    } else if s == "double"@ {
        Some(CellType::Double)
    } else if s == "vector[float,float]"@ {
        Some(CellType::Vector2Float)
    } else if s == "vector[float,float,float]"@ {
        Some(CellType::Vector3Float)
    } else if s == "vector[string,string]"@ {
        Some(CellType::Vector2String)
    } else {
        None
    }
}

/// The registry's answer for a label: the one cell type it denotes, or an
/// `UnknownCellType` error naming the label.
pub open spec fn spec_cell_type_from_label(s: Seq<char>) -> Result<CellType, ErrorView> {
    match cell_type_of_label(s) {
        Some(t) => Ok(t),
        None => Err(ErrorView::UnknownCellType(s)),
    }
}

/// Resolves a cell-type label.
pub fn cell_type_from_label(label: &str) -> (r: Result<CellType, ConfigError>)
    ensures
        res_matches(r, spec_cell_type_from_label(label@)),
{
    if str_eq(label, "uint") {
        Ok(CellType::UInt)
    } else if str_eq(label, "int") {
        Ok(CellType::Int)
    } else if str_eq(label, "long") {
        Ok(CellType::Long)
    } else if str_eq(label, "string") {
        Ok(CellType::String)
    } else if str_eq(label, "bool") {
        Ok(CellType::Bool)
    } else if str_eq(label, "vector3_array_int") {
        Ok(CellType::Vector3ArrayInt)
    } else if str_eq(label, "vector3_int") {
        Ok(CellType::Vector3Int)
    } else if str_eq(label, "vector2_int") || str_eq(label, "vector[int,int]") {
        Ok(CellType::Vector2Int)
    } else if str_eq(label, "vector3_uint") {
        Ok(CellType::Vector3UInt)
    } else if str_eq(label, "vector2_uint") {
        Ok(CellType::Vector2UInt)
    } else if str_eq(label, "vector2_array_int") {
        Ok(CellType::Vector2ArrayInt)
    } else if str_eq(label, "array_int") {
        Ok(CellType::ArrayInt)
    } else if str_eq(label, "array_uint") {
        Ok(CellType::ArrayUInt)
    } else if str_eq(label, "dictionary_string_float") {
        Ok(CellType::DictionaryStringFloat)
    } else if str_eq(label, "dictionary_string_int") {
        Ok(CellType::DictionaryStringInt)
    } else if str_eq(label, "lang") {
        Ok(CellType::Lang)
    } else if str_eq(label, "float") {
        Ok(CellType::Float)
    } else if str_eq(label, "double") {
        Ok(CellType::Double)
    } else if str_eq(label, "vector[float,float]") {
        Ok(CellType::Vector2Float)
    } else if str_eq(label, "vector[float,float,float]") {
        Ok(CellType::Vector3Float)
    } else if str_eq(label, "vector[string,string]") {
        Ok(CellType::Vector2String)
    } else {
        Err(ConfigError::UnknownCellType(String::from_str(label)))
    }
}

/// The visibility tag a label denotes, ignoring ASCII case.
pub open spec fn key_type_of_label(s: Seq<char>) -> Option<KeyType> {
    if eq_icase(s, "allkey"@) {
        Some(KeyType::AllKey)
    } else if eq_icase(s, "all"@) {
        Some(KeyType::All)
    } else if eq_icase(s, "client"@) {
        Some(KeyType::Client)
    } else if eq_icase(s, "clientkey"@) {
        Some(KeyType::ClientKey)
    } else if eq_icase(s, "server"@) {
        Some(KeyType::Server)
    } else if eq_icase(s, "serverkey"@) {
        Some(KeyType::ServerKey)
    } else {
        None
    }
}

/// The registry's answer for a visibility-tag label.
pub open spec fn spec_key_type_from_label(s: Seq<char>) -> Result<KeyType, ErrorView> {
    match key_type_of_label(s) {
        Some(t) => Ok(t),
        None => Err(ErrorView::UnknownVisibilityTag(s)),
    }
}

/// Resolves a visibility-tag label, ignoring ASCII case.
pub fn key_type_from_label(label: &str) -> (r: Result<KeyType, ConfigError>)
    ensures
        res_matches(r, spec_key_type_from_label(label@)),
{
    if str_eq_icase(label, "allkey") {
        Ok(KeyType::AllKey)
    } else if str_eq_icase(label, "all") {
        Ok(KeyType::All)
    } else if str_eq_icase(label, "client") {
        Ok(KeyType::Client)
    } else if str_eq_icase(label, "clientkey") {
        Ok(KeyType::ClientKey)
    } else if str_eq_icase(label, "server") {
        Ok(KeyType::Server)
    } else if str_eq_icase(label, "serverkey") {
        Ok(KeyType::ServerKey)
    } else {
        Err(ConfigError::UnknownVisibilityTag(String::from_str(label)))
    }
}

/// True of the tags kept by a server-audience export.
pub open spec fn is_server_side(k: KeyType) -> bool {
    k == KeyType::AllKey || k == KeyType::All || k == KeyType::Server || k == KeyType::ServerKey
}

/// True of the tags kept by a client-audience export (the complement of the
/// exclusively-server tags).
pub open spec fn is_client_side(k: KeyType) -> bool {
    k == KeyType::AllKey || k == KeyType::All || k == KeyType::Client || k == KeyType::ClientKey
}

/// True of the tags that mark a column as the table's primary key.
pub open spec fn marks_key(k: KeyType) -> bool {
    k == KeyType::AllKey || k == KeyType::All || k == KeyType::ServerKey || k == KeyType::ClientKey
}

impl KeyType {
    /// The tags kept by a server-audience export.
    pub fn server_side() -> (r: Vec<KeyType>)
        ensures
            r@ =~= seq![KeyType::AllKey, KeyType::All, KeyType::Server, KeyType::ServerKey],
            forall|k: KeyType| r@.contains(k) <==> is_server_side(k),
    {
        let r = vec![KeyType::AllKey, KeyType::All, KeyType::Server, KeyType::ServerKey];
        proof {
            assert forall|k: KeyType| r@.contains(k) <==> is_server_side(k) by {
                if is_server_side(k) {
                    if k == KeyType::AllKey {
                        assert(r@[0] == k);
                    } else if k == KeyType::All {
                        assert(r@[1] == k);
                    } else if k == KeyType::Server {
                        assert(r@[2] == k);
                    } else {
                        assert(r@[3] == k);
                    }
                }
            }
        }
        r
    }

    /// The tags kept by a client-audience export.
    pub fn client_side() -> (r: Vec<KeyType>)
        ensures
            r@ =~= seq![KeyType::AllKey, KeyType::All, KeyType::Client, KeyType::ClientKey],
            forall|k: KeyType| r@.contains(k) <==> is_client_side(k),
    {
        let r = vec![KeyType::AllKey, KeyType::All, KeyType::Client, KeyType::ClientKey];
        proof {
            assert forall|k: KeyType| r@.contains(k) <==> is_client_side(k) by {
                if is_client_side(k) {
                    if k == KeyType::AllKey {
                        assert(r@[0] == k);
                    } else if k == KeyType::All {
                        assert(r@[1] == k);
                    } else if k == KeyType::Client {
                        assert(r@[2] == k);
                    } else {
                        assert(r@[3] == k);
                    }
                }
            }
        }
        r
    }

    /// The tags that mark the primary key column of a server export.
    pub fn server_key() -> (r: Vec<KeyType>)
        ensures
            r@ =~= seq![KeyType::AllKey, KeyType::ServerKey],
    {
        vec![KeyType::AllKey, KeyType::ServerKey]
    }

    /// The tags that mark the primary key column of a client export.
    pub fn client_key() -> (r: Vec<KeyType>)
        ensures
            r@ =~= seq![KeyType::AllKey, KeyType::ClientKey],
    {
        vec![KeyType::AllKey, KeyType::ClientKey]
    }
}

/// The mathematical shape of a [`GameConfig`].
pub struct GameConfigView {
    pub name: Seq<char>,
    pub cell_name: Seq<Seq<char>>,
    pub key_type: Seq<KeyType>,
    pub cell_type: Seq<CellType>,
    pub data: Seq<Seq<Seq<char>>>,
}

/// One table: its name, the per-column names, visibility tags and cell
/// types, and the raw data rows awaiting validation or encoding.
#[derive(Debug, Clone, PartialEq, Eq)]
pub struct GameConfig {
    pub name: String,
    pub cell_name: Vec<String>,
    pub key_type: Vec<KeyType>,
    pub cell_type: Vec<CellType>,
    pub data: Vec<Vec<String>>,
}

impl View for GameConfig {
    type V = GameConfigView;

    open spec fn view(&self) -> GameConfigView {
        GameConfigView {
            name: self.name@,
            cell_name: self.cell_name.deep_view(),
            key_type: self.key_type@,
            cell_type: self.cell_type@,
            data: self.data.deep_view(),
        }
    }
}

impl DeepView for GameConfig {
    type V = GameConfigView;

    open spec fn deep_view(&self) -> GameConfigView {
        self.view()
    }
}

/// The mathematical shape of a [`GameConfigs`].
pub struct GameConfigsView {
    pub commit_id: Seq<char>,
    pub create_mills: u128,
    pub data: Seq<GameConfigView>,
}

/// A compiled dataset: every table of one run, with the moment of creation
/// in milliseconds and an optional source-revision label.
#[derive(Debug, Clone, PartialEq, Eq)]
pub struct GameConfigs {
    pub commit_id: String,
    pub create_mills: u128,
    pub data: Vec<GameConfig>,
}

impl View for GameConfigs {
    type V = GameConfigsView;

    open spec fn view(&self) -> GameConfigsView {
        GameConfigsView {
            commit_id: self.commit_id@,
            create_mills: self.create_mills,
            data: self.data.deep_view(),
        }
    }
}

impl DeepView for GameConfigs {
    type V = GameConfigsView;

    open spec fn deep_view(&self) -> GameConfigsView {
        self.view()
    }
}

} // verus!
