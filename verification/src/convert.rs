//! The value codec: one parse grammar and one Lua rendering per cell type.
//!
//! Every parser first applies the default-sentinel rule: an empty cell, or a
//! cell holding exactly `0`, denotes the type's zero value whatever the
//! type's real grammar says. A composite cell whose genuine value would
//! render as `0` is therefore unreachable by design; the rule is kept for
//! compatibility with the data this compiler consumes.

use vstd::prelude::*;

use crate::error::ConfigError;
use crate::error::ErrorView;
use crate::error::res_matches;
use crate::excel_define::CellType;
use crate::num;
use crate::text;

verus! {

/// A variable-length array of 3-tuples of signed integers.
pub type Vector3ArrayInt = Vec<(i32, i32, i32)>;

/// A 3-tuple of signed integers.
pub type Vector3Int = (i32, i32, i32);

/// A 2-tuple of signed integers.
pub type Vector2Int = (i32, i32);

/// A 3-tuple of unsigned integers.
pub type Vector3UInt = (u32, u32, u32);

/// A 2-tuple of unsigned integers.
pub type Vector2UInt = (u32, u32);

/// A variable-length array of 2-tuples of signed integers.
pub type Vector2ArrayInt = Vec<(i32, i32)>;

/// A variable-length array of signed integers.
pub type ArrayInt = Vec<i32>;

/// A variable-length array of unsigned integers.
pub type ArrayUInt = Vec<u32>;

/// A localizable string; parsed and rendered like a plain string.
pub type Lang = String;

/// A 2-tuple of strings.
pub type Vector2String = (String, String);

/// The default sentinel: an empty cell or the literal `0` denotes the zero
/// value of any type.
pub open spec fn is_sentinel(s: Seq<char>) -> bool {
    s.len() == 0 || s == "0"@
}

fn sentinel_exec(s: &str) -> (r: bool)
    ensures
        r == is_sentinel(s@),
{
    s.unicode_len() == 0 || text::str_eq(s, "0")
}

/// An unsigned 32-bit cell: the sentinel, or the standard unsigned grammar.
pub open spec fn spec_parse_u32_cell(s: Seq<char>) -> Result<u32, ErrorView> {
    if is_sentinel(s) {
        Ok(0u32)
    } else {
        match num::parse_u32_str(s) {
            Some(v) => Ok(v),
            None => Err(ErrorView::MalformedScalar(CellType::UInt, s)),
        }
    }
}

/// A signed 32-bit cell.
pub open spec fn spec_parse_i32_cell(s: Seq<char>) -> Result<i32, ErrorView> {
    if is_sentinel(s) {
        Ok(0i32)
    } else {
        match num::parse_i32_str(s) {
            Some(v) => Ok(v),
            None => Err(ErrorView::MalformedScalar(CellType::Int, s)),
        }
    }
}

/// A signed 64-bit cell.
pub open spec fn spec_parse_i64_cell(s: Seq<char>) -> Result<i64, ErrorView> {
    if is_sentinel(s) {
        Ok(0i64)
    } else {
        match num::parse_i64_str(s) {
            Some(v) => Ok(v),
            None => Err(ErrorView::MalformedScalar(CellType::Long, s)),
        }
    }
}

/// An unsigned 64-bit cell; no cell type uses it directly, but the codec
/// offers it alongside the others.
pub open spec fn spec_parse_u64_cell(s: Seq<char>) -> Result<u64, ErrorView> {
    if is_sentinel(s) {
        Ok(0u64)
    } else {
        match num::parse_u64_str(s) {
            Some(v) => Ok(v),
            None => Err(ErrorView::MalformedScalar(CellType::Long, s)),
        }
    }
}

/// A string cell: the sentinel gives the empty string, anything else stands
/// as itself.
pub open spec fn spec_parse_string_cell(s: Seq<char>) -> Result<Seq<char>, ErrorView> {
    if is_sentinel(s) {
        Ok(Seq::<char>::empty())
    } else {
        Ok(s)
    }
}

/// A boolean cell: `1` and `true` hold, `0` (through the sentinel) and
/// `false` do not, and anything else is malformed.
pub open spec fn spec_parse_bool_cell(s: Seq<char>) -> Result<bool, ErrorView> {
    if is_sentinel(s) {
        Ok(false)
    } else if s == "1"@ || s == "true"@ {
        Ok(true)
    } else if s == "false"@ {
        Ok(false)
    } else {
        Err(ErrorView::MalformedBool(s))
    }
}

/// A floating-point cell of the given kind. The value it denotes is kept as
/// its literal token: the sentinel gives the token `0`, and any other text
/// must match the floating-point grammar and then stands as written.
pub open spec fn spec_parse_float_cell(s: Seq<char>, kind: CellType) -> Result<
    Seq<char>,
    ErrorView,
> {
    if is_sentinel(s) {
        Ok("0"@)
    } else if num::is_float_literal(s) {
        Ok(s)
    } else {
        Err(ErrorView::MalformedScalar(kind, s))
    }
}

/// A 2-tuple cell of signed integers: components between one comma, each
/// parsed as a signed 32-bit cell.
pub open spec fn spec_parse_vector2_int(s: Seq<char>) -> Result<(i32, i32), ErrorView> {
    if is_sentinel(s) {
        Ok((0i32, 0i32))
    } else {
        let parts = text::spec_split(s, ',');
        if parts.len() != 2 {
            Err(ErrorView::ArityMismatch(2, parts.len() as int, s))
        } else {
            match spec_parse_i32_cell(parts[0]) {
                Err(e) => Err(e),
                Ok(a) => match spec_parse_i32_cell(parts[1]) {
                    Err(e) => Err(e),
                    Ok(b) => Ok((a, b)),
                },
            }
        }
    }
}

/// A 2-tuple cell of unsigned integers.
pub open spec fn spec_parse_vector2_uint(s: Seq<char>) -> Result<(u32, u32), ErrorView> {
    if is_sentinel(s) {
        Ok((0u32, 0u32))
    } else {
        let parts = text::spec_split(s, ',');
        if parts.len() != 2 {
            Err(ErrorView::ArityMismatch(2, parts.len() as int, s))
        } else {
            match spec_parse_u32_cell(parts[0]) {
                Err(e) => Err(e),
                Ok(a) => match spec_parse_u32_cell(parts[1]) {
                    Err(e) => Err(e),
                    Ok(b) => Ok((a, b)),
                },
            }
        }
    }
}

/// A 2-tuple cell of strings; its components never fail, but the arity must
/// still be exactly two.
pub open spec fn spec_parse_vector2_string(s: Seq<char>) -> Result<
    (Seq<char>, Seq<char>),
    ErrorView,
> {
    if is_sentinel(s) {
        Ok((Seq::<char>::empty(), Seq::<char>::empty()))
    } else {
        let parts = text::spec_split(s, ',');
        if parts.len() != 2 {
            Err(ErrorView::ArityMismatch(2, parts.len() as int, s))
        } else {
            match spec_parse_string_cell(parts[0]) {
                Err(e) => Err(e),
                Ok(a) => match spec_parse_string_cell(parts[1]) {
                    Err(e) => Err(e),
                    Ok(b) => Ok((a, b)),
                },
            }
        }
    }
}

/// A 2-tuple cell of floating-point literals, kept as their tokens.
pub open spec fn spec_parse_vector2_float(s: Seq<char>) -> Result<
    (Seq<char>, Seq<char>),
    ErrorView,
> {
    if is_sentinel(s) {
        Ok(("0"@, "0"@))
    } else {
        let parts = text::spec_split(s, ',');
        if parts.len() != 2 {
            Err(ErrorView::ArityMismatch(2, parts.len() as int, s))
        } else {
            match spec_parse_float_cell(parts[0], CellType::Float) {
                Err(e) => Err(e),
                Ok(a) => match spec_parse_float_cell(parts[1], CellType::Float) {
                    Err(e) => Err(e),
                    Ok(b) => Ok((a, b)),
                },
            }
        }
    }
}

/// A 3-tuple cell of signed integers.
pub open spec fn spec_parse_vector3_int(s: Seq<char>) -> Result<(i32, i32, i32), ErrorView> {
    if is_sentinel(s) {
        Ok((0i32, 0i32, 0i32))
    } else {
        let parts = text::spec_split(s, ',');
        if parts.len() != 3 {
            Err(ErrorView::ArityMismatch(3, parts.len() as int, s))
        } else {
            match spec_parse_i32_cell(parts[0]) {
                Err(e) => Err(e),
                Ok(a) => match spec_parse_i32_cell(parts[1]) {
                    Err(e) => Err(e),
                    Ok(b) => match spec_parse_i32_cell(parts[2]) {
                        Err(e) => Err(e),
                        Ok(c) => Ok((a, b, c)),
                    },
                },
            }
        }
    }
}

/// A 3-tuple cell of unsigned integers.
pub open spec fn spec_parse_vector3_uint(s: Seq<char>) -> Result<(u32, u32, u32), ErrorView> {
    if is_sentinel(s) {
        Ok((0u32, 0u32, 0u32))
    } else {
        let parts = text::spec_split(s, ',');
        if parts.len() != 3 {
            Err(ErrorView::ArityMismatch(3, parts.len() as int, s))
        } else {
            match spec_parse_u32_cell(parts[0]) {
                Err(e) => Err(e),
                Ok(a) => match spec_parse_u32_cell(parts[1]) {
                    Err(e) => Err(e),
                    Ok(b) => match spec_parse_u32_cell(parts[2]) {
                        Err(e) => Err(e),
                        Ok(c) => Ok((a, b, c)),
                    },
                },
            }
        }
    }
}

/// A 3-tuple cell of floating-point literals, kept as their tokens.
pub open spec fn spec_parse_vector3_float(s: Seq<char>) -> Result<
    (Seq<char>, Seq<char>, Seq<char>),
    ErrorView,
> {
    if is_sentinel(s) {
        Ok(("0"@, "0"@, "0"@))
    } else {
        let parts = text::spec_split(s, ',');
        if parts.len() != 3 {
            Err(ErrorView::ArityMismatch(3, parts.len() as int, s))
        } else {
            match spec_parse_float_cell(parts[0], CellType::Float) {
                Err(e) => Err(e),
                Ok(a) => match spec_parse_float_cell(parts[1], CellType::Float) {
                    Err(e) => Err(e),
                    Ok(b) => match spec_parse_float_cell(parts[2], CellType::Float) {
                        Err(e) => Err(e),
                        Ok(c) => Ok((a, b, c)),
                    },
                },
            }
        }
    }
}

/// The chunks parsed left to right as signed 32-bit cells, stopping at the
/// first failure.
pub open spec fn spec_parse_i32_list(parts: Seq<Seq<char>>) -> Result<Seq<i32>, ErrorView>
    decreases parts.len(),
{
    if parts.len() == 0 {
        Ok(Seq::<i32>::empty())
    } else {
        match spec_parse_i32_cell(parts[0]) {
            Err(e) => Err(e),
            Ok(v) => match spec_parse_i32_list(parts.drop_first()) {
                Err(e) => Err(e),
                Ok(vs) => Ok(seq![v] + vs),
            },
        }
    }
}

/// The chunks parsed left to right as unsigned 32-bit cells.
pub open spec fn spec_parse_u32_list(parts: Seq<Seq<char>>) -> Result<Seq<u32>, ErrorView>
    decreases parts.len(),
{
    if parts.len() == 0 {
        Ok(Seq::<u32>::empty())
    } else {
        match spec_parse_u32_cell(parts[0]) {
            Err(e) => Err(e),
            Ok(v) => match spec_parse_u32_list(parts.drop_first()) {
                Err(e) => Err(e),
                Ok(vs) => Ok(seq![v] + vs),
            },
        }
    }
}

/// The groups parsed left to right as 2-tuples of signed integers.
pub open spec fn spec_parse_vector2_list(groups: Seq<Seq<char>>) -> Result<
    Seq<(i32, i32)>,
    ErrorView,
>
    decreases groups.len(),
{
    if groups.len() == 0 {
        Ok(Seq::<(i32, i32)>::empty())
    } else {
        match spec_parse_vector2_int(groups[0]) {
            Err(e) => Err(e),
            Ok(v) => match spec_parse_vector2_list(groups.drop_first()) {
                Err(e) => Err(e),
                Ok(vs) => Ok(seq![v] + vs),
            },
        }
    }
}

/// The groups parsed left to right as 3-tuples of signed integers.
pub open spec fn spec_parse_vector3_list(groups: Seq<Seq<char>>) -> Result<
    Seq<(i32, i32, i32)>,
    ErrorView,
>
    decreases groups.len(),
{
    if groups.len() == 0 {
        Ok(Seq::<(i32, i32, i32)>::empty())
    } else {
        match spec_parse_vector3_int(groups[0]) {
            Err(e) => Err(e),
            Ok(v) => match spec_parse_vector3_list(groups.drop_first()) {
                Err(e) => Err(e),
                Ok(vs) => Ok(seq![v] + vs),
            },
        }
    }
}

/// An integer-array cell: comma-separated signed 32-bit cells.
pub open spec fn spec_parse_array_int(s: Seq<char>) -> Result<Seq<i32>, ErrorView> {
    if is_sentinel(s) {
        Ok(Seq::<i32>::empty())
    } else {
        spec_parse_i32_list(text::spec_split(s, ','))
    }
}

/// An unsigned-integer-array cell.
pub open spec fn spec_parse_array_uint(s: Seq<char>) -> Result<Seq<u32>, ErrorView> {
    if is_sentinel(s) {
        Ok(Seq::<u32>::empty())
    } else {
        spec_parse_u32_list(text::spec_split(s, ','))
    }
}

/// An array-of-2-tuples cell: semicolon-separated groups, each a 2-tuple of
/// signed integers; arity violations fail per group.
pub open spec fn spec_parse_vector2_array(s: Seq<char>) -> Result<Seq<(i32, i32)>, ErrorView> {
    if is_sentinel(s) {
        Ok(Seq::<(i32, i32)>::empty())
    } else {
        spec_parse_vector2_list(text::spec_split(s, ';'))
    }
}

/// An array-of-3-tuples cell.
pub open spec fn spec_parse_vector3_array(s: Seq<char>) -> Result<
    Seq<(i32, i32, i32)>,
    ErrorView,
> {
    if is_sentinel(s) {
        Ok(Seq::<(i32, i32, i32)>::empty())
    } else {
        spec_parse_vector3_list(text::spec_split(s, ';'))
    }
}

/// Parses an unsigned 32-bit cell.
pub fn parse_u32_cell(s: &str) -> (r: Result<u32, ConfigError>)
    ensures
        res_matches(r, spec_parse_u32_cell(s@)),
{
    if sentinel_exec(s) {
        Ok(0)
    } else {
        match num::parse_u32(s) {
            Some(v) => Ok(v),
            None => Err(ConfigError::MalformedScalar(CellType::UInt, String::from_str(s))),
        }
    }
}

/// Parses a signed 32-bit cell.
pub fn parse_i32_cell(s: &str) -> (r: Result<i32, ConfigError>)
    ensures
        res_matches(r, spec_parse_i32_cell(s@)),
{
    if sentinel_exec(s) {
        Ok(0)
    } else {
        match num::parse_i32(s) {
            Some(v) => Ok(v),
            None => Err(ConfigError::MalformedScalar(CellType::Int, String::from_str(s))),
        }
    }
}

/// Parses a signed 64-bit cell.
pub fn parse_i64_cell(s: &str) -> (r: Result<i64, ConfigError>)
    ensures
        res_matches(r, spec_parse_i64_cell(s@)),
{
    if sentinel_exec(s) {
        Ok(0)
    } else {
        match num::parse_i64(s) {
            Some(v) => Ok(v),
            None => Err(ConfigError::MalformedScalar(CellType::Long, String::from_str(s))),
        }
    }
}

/// Parses an unsigned 64-bit cell.
pub fn parse_u64_cell(s: &str) -> (r: Result<u64, ConfigError>)
    ensures
        res_matches(r, spec_parse_u64_cell(s@)),
{
    if sentinel_exec(s) {
        Ok(0)
    } else {
        match num::parse_u64(s) {
            Some(v) => Ok(v),
            None => Err(ConfigError::MalformedScalar(CellType::Long, String::from_str(s))),
        }
    }
}

/// Parses a string cell.
pub fn parse_string_cell(s: &str) -> (r: Result<String, ConfigError>)
    ensures
        res_matches(r, spec_parse_string_cell(s@)),
{
    if sentinel_exec(s) {
        Ok(String::new())
    } else {
        Ok(String::from_str(s))
    }
}

/// Parses a boolean cell.
pub fn parse_bool_cell(s: &str) -> (r: Result<bool, ConfigError>)
    ensures
        res_matches(r, spec_parse_bool_cell(s@)),
{
    if sentinel_exec(s) {
        Ok(false)
    } else if text::str_eq(s, "1") || text::str_eq(s, "true") {
        Ok(true)
    } else if text::str_eq(s, "false") {
        Ok(false)
    } else {
        Err(ConfigError::MalformedBool(String::from_str(s)))
    }
}

/// Parses a floating-point cell into its validated literal token.
pub fn parse_float_cell(s: &str, kind: CellType) -> (r: Result<String, ConfigError>)
    ensures
        res_matches(r, spec_parse_float_cell(s@, kind)),
{
    if sentinel_exec(s) {
        Ok(String::from_str("0"))
    } else if num::is_float_literal_exec(s) {
        Ok(String::from_str(s))
    } else {
        Err(ConfigError::MalformedScalar(kind, String::from_str(s)))
    }
}

/// The Lua token of a boolean.
pub open spec fn bool_str(b: bool) -> Seq<char> {
    if b {
        "true"@
    } else {
        "false"@
    }
}

/// A Lua pair literal: both components between braces.
pub open spec fn lua_pair(a: Seq<char>, b: Seq<char>) -> Seq<char> {
    "{ "@ + a + ", "@ + b + " }"@
}

/// A Lua triple literal.
pub open spec fn lua_triple(a: Seq<char>, b: Seq<char>, c: Seq<char>) -> Seq<char> {
    "{ "@ + a + ", "@ + b + ", "@ + c + " }"@
}

/// A Lua array literal: the items joined by commas between braces.
pub open spec fn lua_list(items: Seq<Seq<char>>) -> Seq<char> {
    "{ "@ + text::join_with(items, ", "@) + " }"@
}

/// The rendered items of an integer array.
pub open spec fn render_i32_items(vs: Seq<i32>) -> Seq<Seq<char>> {
    vs.map_values(|v: i32| text::dec_str_int(v as int))
}

/// The rendered items of an unsigned-integer array.
pub open spec fn render_u32_items(vs: Seq<u32>) -> Seq<Seq<char>> {
    vs.map_values(|v: u32| text::dec_str(v as nat))
}

/// The rendered items of an array of 2-tuples.
pub open spec fn render_pair_items(vs: Seq<(i32, i32)>) -> Seq<Seq<char>> {
    vs.map_values(
        |v: (i32, i32)| lua_pair(text::dec_str_int(v.0 as int), text::dec_str_int(v.1 as int)),
    )
}

/// The rendered items of an array of 3-tuples.
pub open spec fn render_triple_items(vs: Seq<(i32, i32, i32)>) -> Seq<Seq<char>> {
    vs.map_values(
        |v: (i32, i32, i32)|
            lua_triple(
                text::dec_str_int(v.0 as int),
                text::dec_str_int(v.1 as int),
                text::dec_str_int(v.2 as int),
            ),
    )
}

/// Renders a signed integer as its Lua token.
pub fn lua_int(v: i64) -> (s: String)
    ensures
        s@ == text::dec_str_int(v as int),
{
    let mut out = String::new();
    text::push_dec_i64(&mut out, v);
    proof {
        assert(out@ =~= text::dec_str_int(v as int));
    }
    out
}

/// Renders an unsigned integer as its Lua token.
pub fn lua_uint(v: u64) -> (s: String)
    ensures
        s@ == text::dec_str(v as nat),
{
    let mut out = String::new();
    text::push_dec_u64(&mut out, v);
    proof {
        assert(out@ =~= text::dec_str(v as nat));
    }
    out
}

/// Renders a boolean as its Lua token.
pub fn lua_bool(v: bool) -> (s: String)
    ensures
        s@ == bool_str(v),
{
    if v {
        String::from_str("true")
    } else {
        String::from_str("false")
    }
}

/// Renders a string as a quoted Lua string literal.
pub fn lua_str(v: &str) -> (s: String)
    ensures
        s@ == text::lua_quote(v@),
{
    let mut out = String::new();
    text::push_lua_quoted(&mut out, v);
    proof {
        assert(out@ =~= text::lua_quote(v@));
    }
    out
}

fn wrap_pair(a: &String, b: &String) -> (s: String)
    ensures
        s@ == lua_pair(a@, b@),
{
    let mut out = String::from_str("{ ");
    out.append(a.as_str());
    out.append(", ");
    out.append(b.as_str());
    out.append(" }");
    proof {
        assert(out@ =~= lua_pair(a@, b@));
    }
    out
}

fn wrap_triple(a: &String, b: &String, c: &String) -> (s: String)
    ensures
        s@ == lua_triple(a@, b@, c@),
{
    let mut out = String::from_str("{ ");
    out.append(a.as_str());
    out.append(", ");
    out.append(b.as_str());
    out.append(", ");
    out.append(c.as_str());
    out.append(" }");
    proof {
        assert(out@ =~= lua_triple(a@, b@, c@));
    }
    out
}

fn wrap_list(items: &Vec<String>) -> (s: String)
    ensures
        s@ == lua_list(items.deep_view()),
{
    let mut out = String::from_str("{ ");
    text::join_push(&mut out, items, ", ");
    out.append(" }");
    proof {
        assert(out@ =~= lua_list(items.deep_view()));
    }
    out
}

/// Splits a tuple cell and checks its arity.
fn split_tuple<'a>(s: &'a str, arity: usize) -> (r: Result<Vec<&'a str>, ConfigError>)
    ensures
        match r {
            Ok(parts) => text::spec_split(s@, ',').len() == arity && parts@.map_values(
                |t: &str| t@,
            ) == text::spec_split(s@, ','),
            Err(e) => text::spec_split(s@, ',').len() != arity && e@ == ErrorView::ArityMismatch(
                arity as int,
                text::spec_split(s@, ',').len() as int,
                s@,
            ),
        },
{
    let parts = text::split_str(s, ',');
    proof {
        assert(parts@.map_values(|t: &str| t@).len() == parts@.len());
    }
    if parts.len() != arity {
        Err(ConfigError::ArityMismatch(arity, parts.len(), String::from_str(s)))
    } else {
        Ok(parts)
    }
}

/// Parses a 2-tuple cell of signed integers.
pub fn parse_vector2_int(s: &str) -> (r: Result<Vector2Int, ConfigError>)
    ensures
        res_matches(r, spec_parse_vector2_int(s@)),
{
    if sentinel_exec(s) {
        return Ok((0, 0));
    }
    let parts = match split_tuple(s, 2) {
        Ok(p) => p,
        Err(e) => {
            return Err(e);
        },
    };
    proof {
        assert(parts@.map_values(|t: &str| t@)[0] == parts@[0]@);
        assert(parts@.map_values(|t: &str| t@)[1] == parts@[1]@);
    }
    let a = match parse_i32_cell(parts[0]) {
        Ok(v) => v,
        Err(e) => {
            return Err(e);
        },
    };
    let b = match parse_i32_cell(parts[1]) {
        Ok(v) => v,
        Err(e) => {
            return Err(e);
        },
    };
    Ok((a, b))
}

/// Parses a 2-tuple cell of unsigned integers.
pub fn parse_vector2_uint(s: &str) -> (r: Result<Vector2UInt, ConfigError>)
    ensures
        res_matches(r, spec_parse_vector2_uint(s@)),
{
    if sentinel_exec(s) {
        return Ok((0, 0));
    }
    let parts = match split_tuple(s, 2) {
        Ok(p) => p,
        Err(e) => {
            return Err(e);
        },
    };
    proof {
        assert(parts@.map_values(|t: &str| t@)[0] == parts@[0]@);
        assert(parts@.map_values(|t: &str| t@)[1] == parts@[1]@);
    }
    let a = match parse_u32_cell(parts[0]) {
        Ok(v) => v,
        Err(e) => {
            return Err(e);
        },
    };
    let b = match parse_u32_cell(parts[1]) {
        Ok(v) => v,
        Err(e) => {
            return Err(e);
        },
    };
    Ok((a, b))
}

/// Parses a 2-tuple cell of strings.
pub fn parse_vector2_string(s: &str) -> (r: Result<Vector2String, ConfigError>)
    ensures
        res_matches(r, spec_parse_vector2_string(s@)),
{
    if sentinel_exec(s) {
        return Ok((String::new(), String::new()));
    }
    let parts = match split_tuple(s, 2) {
        Ok(p) => p,
        Err(e) => {
            return Err(e);
        },
    };
    proof {
        assert(parts@.map_values(|t: &str| t@)[0] == parts@[0]@);
        assert(parts@.map_values(|t: &str| t@)[1] == parts@[1]@);
    }
    let a = match parse_string_cell(parts[0]) {
        Ok(v) => v,
        Err(e) => {
            return Err(e);
        },
    };
    let b = match parse_string_cell(parts[1]) {
        Ok(v) => v,
        Err(e) => {
            return Err(e);
        },
    };
    Ok((a, b))
}

/// Parses a 2-tuple cell of floating-point literals.
pub fn parse_vector2_float(s: &str) -> (r: Result<(String, String), ConfigError>)
    ensures
        res_matches(r, spec_parse_vector2_float(s@)),
{
    if sentinel_exec(s) {
        return Ok((String::from_str("0"), String::from_str("0")));
    }
    let parts = match split_tuple(s, 2) {
        Ok(p) => p,
        Err(e) => {
            return Err(e);
        },
    };
    proof {
        assert(parts@.map_values(|t: &str| t@)[0] == parts@[0]@);
        assert(parts@.map_values(|t: &str| t@)[1] == parts@[1]@);
    }
    let a = match parse_float_cell(parts[0], CellType::Float) {
        Ok(v) => v,
        Err(e) => {
            return Err(e);
        },
    };
    let b = match parse_float_cell(parts[1], CellType::Float) {
        Ok(v) => v,
        Err(e) => {
            return Err(e);
        },
    };
    Ok((a, b))
}

/// Parses a 3-tuple cell of signed integers.
pub fn parse_vector3_int(s: &str) -> (r: Result<Vector3Int, ConfigError>)
    ensures
        res_matches(r, spec_parse_vector3_int(s@)),
{
    if sentinel_exec(s) {
        return Ok((0, 0, 0));
    }
    let parts = match split_tuple(s, 3) {
        Ok(p) => p,
        Err(e) => {
            return Err(e);
        },
    };
    proof {
        assert(parts@.map_values(|t: &str| t@)[0] == parts@[0]@);
        assert(parts@.map_values(|t: &str| t@)[1] == parts@[1]@);
        assert(parts@.map_values(|t: &str| t@)[2] == parts@[2]@);
    }
    let a = match parse_i32_cell(parts[0]) {
        Ok(v) => v,
        Err(e) => {
            return Err(e);
        },
    };
    let b = match parse_i32_cell(parts[1]) {
        Ok(v) => v,
        Err(e) => {
            return Err(e);
        },
    };
    let c = match parse_i32_cell(parts[2]) {
        Ok(v) => v,
        Err(e) => {
            return Err(e);
        },
    };
    Ok((a, b, c))
}

/// Parses a 3-tuple cell of unsigned integers.
pub fn parse_vector3_uint(s: &str) -> (r: Result<Vector3UInt, ConfigError>)
    ensures
        res_matches(r, spec_parse_vector3_uint(s@)),
{
    if sentinel_exec(s) {
        return Ok((0, 0, 0));
    }
    let parts = match split_tuple(s, 3) {
        Ok(p) => p,
        Err(e) => {
            return Err(e);
        },
    };
    proof {
        assert(parts@.map_values(|t: &str| t@)[0] == parts@[0]@);
        assert(parts@.map_values(|t: &str| t@)[1] == parts@[1]@);
        assert(parts@.map_values(|t: &str| t@)[2] == parts@[2]@);
    }
    let a = match parse_u32_cell(parts[0]) {
        Ok(v) => v,
        Err(e) => {
            return Err(e);
        },
    };
    let b = match parse_u32_cell(parts[1]) {
        Ok(v) => v,
        Err(e) => {
            return Err(e);
        },
    };
    let c = match parse_u32_cell(parts[2]) {
        Ok(v) => v,
        Err(e) => {
            return Err(e);
        },
    };
    Ok((a, b, c))
}

/// Parses a 3-tuple cell of floating-point literals.
pub fn parse_vector3_float(s: &str) -> (r: Result<(String, String, String), ConfigError>)
    ensures
        res_matches(r, spec_parse_vector3_float(s@)),
{
    if sentinel_exec(s) {
        return Ok((String::from_str("0"), String::from_str("0"), String::from_str("0")));
    }
    let parts = match split_tuple(s, 3) {
        Ok(p) => p,
        Err(e) => {
            return Err(e);
        },
    };
    proof {
        assert(parts@.map_values(|t: &str| t@)[0] == parts@[0]@);
        assert(parts@.map_values(|t: &str| t@)[1] == parts@[1]@);
        assert(parts@.map_values(|t: &str| t@)[2] == parts@[2]@);
    }
    let a = match parse_float_cell(parts[0], CellType::Float) {
        Ok(v) => v,
        Err(e) => {
            return Err(e);
        },
    };
    let b = match parse_float_cell(parts[1], CellType::Float) {
        Ok(v) => v,
        Err(e) => {
            return Err(e);
        },
    };
    let c = match parse_float_cell(parts[2], CellType::Float) {
        Ok(v) => v,
        Err(e) => {
            return Err(e);
        },
    };
    Ok((a, b, c))
}

/// Parses an integer-array cell.
pub fn parse_array_int(s: &str) -> (r: Result<ArrayInt, ConfigError>)
    ensures
        res_matches(r, spec_parse_array_int(s@)),
{
    if sentinel_exec(s) {
        let out: Vec<i32> = Vec::new();
        proof {
            assert(out.deep_view() =~= Seq::<i32>::empty());
        }
        return Ok(out);
    }
    let parts = text::split_str(s, ',');
    let ghost views = parts@.map_values(|t: &str| t@);
    let mut out: Vec<i32> = Vec::new();
    let mut i: usize = 0;
    proof {
        assert(views.skip(0) =~= views);
        if spec_parse_i32_list(views) is Ok {
            let whole = spec_parse_i32_list(views)->Ok_0;
            assert(out.deep_view() + whole =~= whole);
        }
    }
    while i < parts.len()
        invariant
            !is_sentinel(s@),
            i <= parts@.len(),
            views == parts@.map_values(|t: &str| t@),
            views == text::spec_split(s@, ','),
            spec_parse_i32_list(views) == match spec_parse_i32_list(views.skip(i as int)) {
                Ok(rest) => Ok::<Seq<i32>, ErrorView>(out.deep_view() + rest),
                Err(e) => Err::<Seq<i32>, ErrorView>(e),
            },
        decreases parts@.len() - i,
    {
        proof {
            assert(views.skip(i as int)[0] == views[i as int]);
            assert(views[i as int] == parts@[i as int]@);
            assert(views.skip(i as int).drop_first() =~= views.skip(i + 1));
        }
        match parse_i32_cell(parts[i]) {
            Ok(v) => {
                let ghost old_out = out.deep_view();
                out.push(v);
                proof {
                    assert(out.deep_view() =~= old_out.push(v));
                    if spec_parse_i32_list(views.skip(i + 1)) is Ok {
                        let rest = spec_parse_i32_list(views.skip(i + 1))->Ok_0;
                        assert(old_out + (seq![v] + rest) =~= old_out.push(v) + rest);
                    }
                }
            },
            Err(e) => {
                proof {
                    assert(spec_parse_i32_list(views.skip(i as int)) == Err::<Seq<i32>, ErrorView>(e@));
                }
                return Err(e);
            },
        }
        i = i + 1;
    }
    proof {
        assert(views.skip(parts@.len() as int).len() == 0);
        assert(out.deep_view() + Seq::<i32>::empty() =~= out.deep_view());
    }
    Ok(out)
}

/// Parses an unsigned-integer-array cell.
pub fn parse_array_uint(s: &str) -> (r: Result<ArrayUInt, ConfigError>)
    ensures
        res_matches(r, spec_parse_array_uint(s@)),
{
    if sentinel_exec(s) {
        let out: Vec<u32> = Vec::new();
        proof {
            assert(out.deep_view() =~= Seq::<u32>::empty());
        }
        return Ok(out);
    }
    let parts = text::split_str(s, ',');
    let ghost views = parts@.map_values(|t: &str| t@);
    let mut out: Vec<u32> = Vec::new();
    let mut i: usize = 0;
    proof {
        assert(views.skip(0) =~= views);
        if spec_parse_u32_list(views) is Ok {
            let whole = spec_parse_u32_list(views)->Ok_0;
            assert(out.deep_view() + whole =~= whole);
        }
    }
    while i < parts.len()
        invariant
            !is_sentinel(s@),
            i <= parts@.len(),
            views == parts@.map_values(|t: &str| t@),
            views == text::spec_split(s@, ','),
            spec_parse_u32_list(views) == match spec_parse_u32_list(views.skip(i as int)) {
                Ok(rest) => Ok::<Seq<u32>, ErrorView>(out.deep_view() + rest),
                Err(e) => Err::<Seq<u32>, ErrorView>(e),
            },
        decreases parts@.len() - i,
    {
        proof {
            assert(views.skip(i as int)[0] == views[i as int]);
            assert(views[i as int] == parts@[i as int]@);
            assert(views.skip(i as int).drop_first() =~= views.skip(i + 1));
        }
        match parse_u32_cell(parts[i]) {
            Ok(v) => {
                let ghost old_out = out.deep_view();
                out.push(v);
                proof {
                    assert(out.deep_view() =~= old_out.push(v));
                    if spec_parse_u32_list(views.skip(i + 1)) is Ok {
                        let rest = spec_parse_u32_list(views.skip(i + 1))->Ok_0;
                        assert(old_out + (seq![v] + rest) =~= old_out.push(v) + rest);
                    }
                }
            },
            Err(e) => {
                proof {
                    assert(spec_parse_u32_list(views.skip(i as int)) == Err::<Seq<u32>, ErrorView>(e@));
                }
                return Err(e);
            },
        }
        i = i + 1;
    }
    proof {
        assert(views.skip(parts@.len() as int).len() == 0);
        assert(out.deep_view() + Seq::<u32>::empty() =~= out.deep_view());
    }
    Ok(out)
}

/// Parses an array-of-2-tuples cell.
pub fn parse_vector2_array(s: &str) -> (r: Result<Vector2ArrayInt, ConfigError>)
    ensures
        res_matches(r, spec_parse_vector2_array(s@)),
{
    if sentinel_exec(s) {
        let out: Vec<(i32, i32)> = Vec::new();
        proof {
            assert(out.deep_view() =~= Seq::<(i32, i32)>::empty());
        }
        return Ok(out);
    }
    let groups = text::split_str(s, ';');
    let ghost views = groups@.map_values(|t: &str| t@);
    let mut out: Vec<(i32, i32)> = Vec::new();
    let mut i: usize = 0;
    proof {
        assert(views.skip(0) =~= views);
        if spec_parse_vector2_list(views) is Ok {
            let whole = spec_parse_vector2_list(views)->Ok_0;
            assert(out.deep_view() + whole =~= whole);
        }
    }
    while i < groups.len()
        invariant
            !is_sentinel(s@),
            i <= groups@.len(),
            views == groups@.map_values(|t: &str| t@),
            views == text::spec_split(s@, ';'),
            spec_parse_vector2_list(views) == match spec_parse_vector2_list(views.skip(i as int)) {
                Ok(rest) => Ok::<Seq<(i32, i32)>, ErrorView>(out.deep_view() + rest),
                Err(e) => Err::<Seq<(i32, i32)>, ErrorView>(e),
            },
        decreases groups@.len() - i,
    {
        proof {
            assert(views.skip(i as int)[0] == views[i as int]);
            assert(views[i as int] == groups@[i as int]@);
            assert(views.skip(i as int).drop_first() =~= views.skip(i + 1));
        }
        match parse_vector2_int(groups[i]) {
            Ok(v) => {
                let ghost old_out = out.deep_view();
                out.push(v);
                proof {
                    assert(out.deep_view() =~= old_out.push(v));
                    if spec_parse_vector2_list(views.skip(i + 1)) is Ok {
                        let rest = spec_parse_vector2_list(views.skip(i + 1))->Ok_0;
                        assert(old_out + (seq![v] + rest) =~= old_out.push(v) + rest);
                    }
                }
            },
            Err(e) => {
                proof {
                    assert(spec_parse_vector2_list(views.skip(i as int)) == Err::<Seq<(i32, i32)>, ErrorView>(e@));
                }
                return Err(e);
            },
        }
        i = i + 1;
    }
    proof {
        assert(views.skip(groups@.len() as int).len() == 0);
        assert(out.deep_view() + Seq::<(i32, i32)>::empty() =~= out.deep_view());
    }
    Ok(out)
}

/// Parses an array-of-3-tuples cell.
pub fn parse_vector3_array(s: &str) -> (r: Result<Vector3ArrayInt, ConfigError>)
    ensures
        res_matches(r, spec_parse_vector3_array(s@)),
{
    if sentinel_exec(s) {
        let out: Vec<(i32, i32, i32)> = Vec::new();
        proof {
            assert(out.deep_view() =~= Seq::<(i32, i32, i32)>::empty());
        }
        return Ok(out);
    }
    let groups = text::split_str(s, ';');
    let ghost views = groups@.map_values(|t: &str| t@);
    let mut out: Vec<(i32, i32, i32)> = Vec::new();
    let mut i: usize = 0;
    proof {
        assert(views.skip(0) =~= views);
        if spec_parse_vector3_list(views) is Ok {
            let whole = spec_parse_vector3_list(views)->Ok_0;
            assert(out.deep_view() + whole =~= whole);
        }
    }
    while i < groups.len()
        invariant
            !is_sentinel(s@),
            i <= groups@.len(),
            views == groups@.map_values(|t: &str| t@),
            views == text::spec_split(s@, ';'),
            spec_parse_vector3_list(views) == match spec_parse_vector3_list(views.skip(i as int)) {
                Ok(rest) => Ok::<Seq<(i32, i32, i32)>, ErrorView>(out.deep_view() + rest),
                Err(e) => Err::<Seq<(i32, i32, i32)>, ErrorView>(e),
            },
        decreases groups@.len() - i,
    {
        proof {
            assert(views.skip(i as int)[0] == views[i as int]);
            assert(views[i as int] == groups@[i as int]@);
            assert(views.skip(i as int).drop_first() =~= views.skip(i + 1));
        }
        match parse_vector3_int(groups[i]) {
            Ok(v) => {
                let ghost old_out = out.deep_view();
                out.push(v);
                proof {
                    assert(out.deep_view() =~= old_out.push(v));
                    if spec_parse_vector3_list(views.skip(i + 1)) is Ok {
                        let rest = spec_parse_vector3_list(views.skip(i + 1))->Ok_0;
                        assert(old_out + (seq![v] + rest) =~= old_out.push(v) + rest);
                    }
                }
            },
            Err(e) => {
                proof {
                    assert(spec_parse_vector3_list(views.skip(i as int)) == Err::<Seq<(i32, i32, i32)>, ErrorView>(e@));
                }
                return Err(e);
            },
        }
        i = i + 1;
    }
    proof {
        assert(views.skip(groups@.len() as int).len() == 0);
        assert(out.deep_view() + Seq::<(i32, i32, i32)>::empty() =~= out.deep_view());
    }
    Ok(out)
}

/// Parsing a raw cell string into a typed value; implemented by `String` for
/// each value type of the closed set. Each implementation names its exact
/// grammar through `spec_parse`.
pub trait Parse<T: DeepView>: Sized {
    /// The grammar this instance parses with.
    spec fn spec_parse(&self) -> Result<T::V, ErrorView>;

    fn parse(&self) -> (r: Result<T, ConfigError>)
        ensures
            res_matches(r, self.spec_parse()),
    ;
}

impl Parse<u32> for String {
    open spec fn spec_parse(&self) -> Result<u32, ErrorView> {
        spec_parse_u32_cell(self@)
    }

    fn parse(&self) -> (r: Result<u32, ConfigError>) {
        parse_u32_cell(self.as_str())
    }
}

impl Parse<i32> for String {
    open spec fn spec_parse(&self) -> Result<i32, ErrorView> {
        spec_parse_i32_cell(self@)
    }

    fn parse(&self) -> (r: Result<i32, ConfigError>) {
        parse_i32_cell(self.as_str())
    }
}

impl Parse<i64> for String {
    open spec fn spec_parse(&self) -> Result<i64, ErrorView> {
        spec_parse_i64_cell(self@)
    }

    fn parse(&self) -> (r: Result<i64, ConfigError>) {
        parse_i64_cell(self.as_str())
    }
}

impl Parse<u64> for String {
    open spec fn spec_parse(&self) -> Result<u64, ErrorView> {
        spec_parse_u64_cell(self@)
    }

    fn parse(&self) -> (r: Result<u64, ConfigError>) {
        parse_u64_cell(self.as_str())
    }
}

impl Parse<bool> for String {
    open spec fn spec_parse(&self) -> Result<bool, ErrorView> {
        spec_parse_bool_cell(self@)
    }

    fn parse(&self) -> (r: Result<bool, ConfigError>) {
        parse_bool_cell(self.as_str())
    }
}

impl Parse<String> for String {
    open spec fn spec_parse(&self) -> Result<Seq<char>, ErrorView> {
        spec_parse_string_cell(self@)
    }

    fn parse(&self) -> (r: Result<String, ConfigError>) {
        parse_string_cell(self.as_str())
    }
}

impl Parse<Vector2Int> for String {
    open spec fn spec_parse(&self) -> Result<(i32, i32), ErrorView> {
        spec_parse_vector2_int(self@)
    }

    fn parse(&self) -> (r: Result<Vector2Int, ConfigError>) {
        parse_vector2_int(self.as_str())
    }
}

impl Parse<Vector2UInt> for String {
    open spec fn spec_parse(&self) -> Result<(u32, u32), ErrorView> {
        spec_parse_vector2_uint(self@)
    }

    fn parse(&self) -> (r: Result<Vector2UInt, ConfigError>) {
        parse_vector2_uint(self.as_str())
    }
}

impl Parse<Vector2String> for String {
    open spec fn spec_parse(&self) -> Result<(Seq<char>, Seq<char>), ErrorView> {
        spec_parse_vector2_string(self@)
    }

    fn parse(&self) -> (r: Result<Vector2String, ConfigError>) {
        parse_vector2_string(self.as_str())
    }
}

impl Parse<Vector3Int> for String {
    open spec fn spec_parse(&self) -> Result<(i32, i32, i32), ErrorView> {
        spec_parse_vector3_int(self@)
    }

    fn parse(&self) -> (r: Result<Vector3Int, ConfigError>) {
        parse_vector3_int(self.as_str())
    }
}

impl Parse<Vector3UInt> for String {
    open spec fn spec_parse(&self) -> Result<(u32, u32, u32), ErrorView> {
        spec_parse_vector3_uint(self@)
    }

    fn parse(&self) -> (r: Result<Vector3UInt, ConfigError>) {
        parse_vector3_uint(self.as_str())
    }
}

impl Parse<ArrayInt> for String {
    open spec fn spec_parse(&self) -> Result<Seq<i32>, ErrorView> {
        spec_parse_array_int(self@)
    }

    fn parse(&self) -> (r: Result<ArrayInt, ConfigError>) {
        parse_array_int(self.as_str())
    }
}

impl Parse<ArrayUInt> for String {
    open spec fn spec_parse(&self) -> Result<Seq<u32>, ErrorView> {
        spec_parse_array_uint(self@)
    }

    fn parse(&self) -> (r: Result<ArrayUInt, ConfigError>) {
        parse_array_uint(self.as_str())
    }
}

impl Parse<Vector2ArrayInt> for String {
    open spec fn spec_parse(&self) -> Result<Seq<(i32, i32)>, ErrorView> {
        spec_parse_vector2_array(self@)
    }

    fn parse(&self) -> (r: Result<Vector2ArrayInt, ConfigError>) {
        parse_vector2_array(self.as_str())
    }
}

impl Parse<Vector3ArrayInt> for String {
    open spec fn spec_parse(&self) -> Result<Seq<(i32, i32, i32)>, ErrorView> {
        spec_parse_vector3_array(self@)
    }

    fn parse(&self) -> (r: Result<Vector3ArrayInt, ConfigError>) {
        parse_vector3_array(self.as_str())
    }
}

/// Rendering a typed value as Lua source.
pub trait ToLua {
    type Output;

    fn to_lua(&self) -> Result<Self::Output, ConfigError>;
}

impl ToLua for u32 {
    type Output = String;

    fn to_lua(&self) -> (r: Result<String, ConfigError>)
        ensures
            r matches Ok(s) && s@ == text::dec_str(*self as nat),
    {
        Ok(lua_uint(*self as u64))
    }
}

impl ToLua for i32 {
    type Output = String;

    fn to_lua(&self) -> (r: Result<String, ConfigError>)
        ensures
            r matches Ok(s) && s@ == text::dec_str_int(*self as int),
    {
        Ok(lua_int(*self as i64))
    }
}

impl ToLua for i64 {
    type Output = String;

    fn to_lua(&self) -> (r: Result<String, ConfigError>)
        ensures
            r matches Ok(s) && s@ == text::dec_str_int(*self as int),
    {
        Ok(lua_int(*self))
    }
}

impl ToLua for bool {
    type Output = String;

    fn to_lua(&self) -> (r: Result<String, ConfigError>)
        ensures
            r matches Ok(s) && s@ == bool_str(*self),
    {
        Ok(lua_bool(*self))
    }
}

impl ToLua for String {
    type Output = String;

    fn to_lua(&self) -> (r: Result<String, ConfigError>)
        ensures
            r matches Ok(s) && s@ == text::lua_quote(self@),
    {
        Ok(lua_str(self.as_str()))
    }
}

impl ToLua for Vector2Int {
    type Output = String;

    fn to_lua(&self) -> (r: Result<String, ConfigError>)
        ensures
            r matches Ok(s) && s@ == lua_pair(
                text::dec_str_int(self.0 as int),
                text::dec_str_int(self.1 as int),
            ),
    {
        let a = lua_int(self.0 as i64);
        let b = lua_int(self.1 as i64);
        Ok(wrap_pair(&a, &b))
    }
}

impl ToLua for Vector2UInt {
    type Output = String;

    fn to_lua(&self) -> (r: Result<String, ConfigError>)
        ensures
            r matches Ok(s) && s@ == lua_pair(
                text::dec_str(self.0 as nat),
                text::dec_str(self.1 as nat),
            ),
    {
        let a = lua_uint(self.0 as u64);
        let b = lua_uint(self.1 as u64);
        Ok(wrap_pair(&a, &b))
    }
}

impl ToLua for Vector2String {
    type Output = String;

    fn to_lua(&self) -> (r: Result<String, ConfigError>)
        ensures
            r matches Ok(s) && s@ == lua_pair(text::lua_quote(self.0@), text::lua_quote(self.1@)),
    {
        let a = lua_str(self.0.as_str());
        let b = lua_str(self.1.as_str());
        Ok(wrap_pair(&a, &b))
    }
}

impl ToLua for Vector3Int {
    type Output = String;

    fn to_lua(&self) -> (r: Result<String, ConfigError>)
        ensures
            r matches Ok(s) && s@ == lua_triple(
                text::dec_str_int(self.0 as int),
                text::dec_str_int(self.1 as int),
                text::dec_str_int(self.2 as int),
            ),
    {
        let a = lua_int(self.0 as i64);
        let b = lua_int(self.1 as i64);
        let c = lua_int(self.2 as i64);
        Ok(wrap_triple(&a, &b, &c))
    }
}

impl ToLua for Vector3UInt {
    type Output = String;

    fn to_lua(&self) -> (r: Result<String, ConfigError>)
        ensures
            r matches Ok(s) && s@ == lua_triple(
                text::dec_str(self.0 as nat),
                text::dec_str(self.1 as nat),
                text::dec_str(self.2 as nat),
            ),
    {
        let a = lua_uint(self.0 as u64);
        let b = lua_uint(self.1 as u64);
        let c = lua_uint(self.2 as u64);
        Ok(wrap_triple(&a, &b, &c))
    }
}

impl ToLua for ArrayInt {
    type Output = String;

    fn to_lua(&self) -> (r: Result<String, ConfigError>)
        ensures
            r matches Ok(s) && s@ == lua_list(render_i32_items(self@)),
    {
        let mut items: Vec<String> = Vec::new();
        let mut i: usize = 0;
        proof {
            assert(items.deep_view() =~= render_i32_items(self@.take(0)));
        }
        while i < self.len()
            invariant
                i <= self@.len(),
                items.deep_view() == render_i32_items(self@.take(i as int)),
            decreases self@.len() - i,
        {
            let t = lua_int(self[i] as i64);
            let ghost before = items.deep_view();
            items.push(t);
            proof {
                assert(items.deep_view() =~= before.push(t@));
                assert(render_i32_items(self@.take(i + 1)) =~= before.push(t@));
            }
            i = i + 1;
        }
        proof {
            assert(self@.take(self@.len() as int) =~= self@);
        }
        Ok(wrap_list(&items))
    }
}

impl ToLua for ArrayUInt {
    type Output = String;

    fn to_lua(&self) -> (r: Result<String, ConfigError>)
        ensures
            r matches Ok(s) && s@ == lua_list(render_u32_items(self@)),
    {
        let mut items: Vec<String> = Vec::new();
        let mut i: usize = 0;
        proof {
            assert(items.deep_view() =~= render_u32_items(self@.take(0)));
        }
        while i < self.len()
            invariant
                i <= self@.len(),
                items.deep_view() == render_u32_items(self@.take(i as int)),
            decreases self@.len() - i,
        {
            let t = lua_uint(self[i] as u64);
            let ghost before = items.deep_view();
            items.push(t);
            proof {
                assert(items.deep_view() =~= before.push(t@));
                assert(render_u32_items(self@.take(i + 1)) =~= before.push(t@));
            }
            i = i + 1;
        }
        proof {
            assert(self@.take(self@.len() as int) =~= self@);
        }
        Ok(wrap_list(&items))
    }
}

impl ToLua for Vector2ArrayInt {
    type Output = String;

    fn to_lua(&self) -> (r: Result<String, ConfigError>)
        ensures
            r matches Ok(s) && s@ == lua_list(render_pair_items(self@)),
    {
        let mut items: Vec<String> = Vec::new();
        let mut i: usize = 0;
        proof {
            assert(items.deep_view() =~= render_pair_items(self@.take(0)));
        }
        while i < self.len()
            invariant
                i <= self@.len(),
                items.deep_view() == render_pair_items(self@.take(i as int)),
            decreases self@.len() - i,
        {
            let a = lua_int(self[i].0 as i64);
            let b = lua_int(self[i].1 as i64);
            let t = wrap_pair(&a, &b);
            let ghost before = items.deep_view();
            items.push(t);
            proof {
                assert(items.deep_view() =~= before.push(t@));
                assert(render_pair_items(self@.take(i + 1)) =~= before.push(t@));
            }
            i = i + 1;
        }
        proof {
            assert(self@.take(self@.len() as int) =~= self@);
        }
        Ok(wrap_list(&items))
    }
}

impl ToLua for Vector3ArrayInt {
    type Output = String;

    fn to_lua(&self) -> (r: Result<String, ConfigError>)
        ensures
            r matches Ok(s) && s@ == lua_list(render_triple_items(self@)),
    {
        let mut items: Vec<String> = Vec::new();
        let mut i: usize = 0;
        proof {
            assert(items.deep_view() =~= render_triple_items(self@.take(0)));
        }
        while i < self.len()
            invariant
                i <= self@.len(),
                items.deep_view() == render_triple_items(self@.take(i as int)),
            decreases self@.len() - i,
        {
            let a = lua_int(self[i].0 as i64);
            let b = lua_int(self[i].1 as i64);
            let c = lua_int(self[i].2 as i64);
            let t = wrap_triple(&a, &b, &c);
            let ghost before = items.deep_view();
            items.push(t);
            proof {
                assert(items.deep_view() =~= before.push(t@));
                assert(render_triple_items(self@.take(i + 1)) =~= before.push(t@));
            }
            i = i + 1;
        }
        proof {
            assert(self@.take(self@.len() as int) =~= self@);
        }
        Ok(wrap_list(&items))
    }
}

/// What `LuaWriter::write` produces for one cell: the cell parsed under the
/// given kind's grammar, then rendered as the kind's Lua literal.
pub open spec fn spec_lua_write(ty: CellType, s: Seq<char>) -> Result<Seq<char>, ErrorView> {
    match ty {
        CellType::UInt => match spec_parse_u32_cell(s) {
            Ok(v) => Ok(text::dec_str(v as nat)),
            Err(e) => Err(e),
        },
        CellType::Int => match spec_parse_i32_cell(s) {
            Ok(v) => Ok(text::dec_str_int(v as int)),
            Err(e) => Err(e),
        },
        CellType::Long => match spec_parse_i64_cell(s) {
            Ok(v) => Ok(text::dec_str_int(v as int)),
            Err(e) => Err(e),
        },
        CellType::String => match spec_parse_string_cell(s) {
            Ok(v) => Ok(text::lua_quote(v)),
            Err(e) => Err(e),
        },
        CellType::Bool => match spec_parse_bool_cell(s) {
            Ok(v) => Ok(bool_str(v)),
            Err(e) => Err(e),
        },
        CellType::Vector3ArrayInt => match spec_parse_vector3_array(s) {
            Ok(vs) => Ok(lua_list(render_triple_items(vs))),
            Err(e) => Err(e),
        },
        CellType::Vector3Int => match spec_parse_vector3_int(s) {
            Ok(v) => Ok(
                lua_triple(
                    text::dec_str_int(v.0 as int),
                    text::dec_str_int(v.1 as int),
                    text::dec_str_int(v.2 as int),
                ),
            ),
            Err(e) => Err(e),
        },
        CellType::Vector2Int => match spec_parse_vector2_int(s) {
            Ok(v) => Ok(lua_pair(text::dec_str_int(v.0 as int), text::dec_str_int(v.1 as int))),
            Err(e) => Err(e),
        },
        CellType::Vector3UInt => match spec_parse_vector3_uint(s) {
            Ok(v) => Ok(
                lua_triple(
                    text::dec_str(v.0 as nat),
                    text::dec_str(v.1 as nat),
                    text::dec_str(v.2 as nat),
                ),
            ),
            Err(e) => Err(e),
        },
        CellType::Vector2UInt => match spec_parse_vector2_uint(s) {
            Ok(v) => Ok(lua_pair(text::dec_str(v.0 as nat), text::dec_str(v.1 as nat))),
            Err(e) => Err(e),
        },
        CellType::Vector2ArrayInt => match spec_parse_vector2_array(s) {
            Ok(vs) => Ok(lua_list(render_pair_items(vs))),
            Err(e) => Err(e),
        },
        CellType::ArrayInt => match spec_parse_array_int(s) {
            Ok(vs) => Ok(lua_list(render_i32_items(vs))),
            Err(e) => Err(e),
        },
        CellType::ArrayUInt => match spec_parse_array_uint(s) {
            Ok(vs) => Ok(lua_list(render_u32_items(vs))),
            Err(e) => Err(e),
        },
        CellType::DictionaryStringFloat => Err(
            ErrorView::Unimplemented(CellType::DictionaryStringFloat),
        ),
        CellType::DictionaryStringInt => Err(
            ErrorView::Unimplemented(CellType::DictionaryStringInt),
        ),
        CellType::Lang => match spec_parse_string_cell(s) {
            Ok(v) => Ok(text::lua_quote(v)),
            Err(e) => Err(e),
        },
        CellType::Float => match spec_parse_float_cell(s, CellType::Float) {
            Ok(tok) => Ok(tok),
            Err(e) => Err(e),
        },
        CellType::Double => match spec_parse_float_cell(s, CellType::Double) {
            Ok(tok) => Ok(tok),
            Err(e) => Err(e),
        },
        CellType::Vector2Float => match spec_parse_vector2_float(s) {
            Ok(v) => Ok(lua_pair(v.0, v.1)),
            Err(e) => Err(e),
        },
        CellType::Vector3Float => match spec_parse_vector3_float(s) {
            Ok(v) => Ok(lua_triple(v.0, v.1, v.2)),
            Err(e) => Err(e),
        },
        CellType::Vector2String => match spec_parse_vector2_string(s) {
            Ok(v) => Ok(lua_pair(text::lua_quote(v.0), text::lua_quote(v.1))),
            Err(e) => Err(e),
        },
    }
}

/// Renders one raw cell as its Lua literal under the given cell type.
pub struct LuaWriter;

impl LuaWriter {
    /// Parses `data` under `ty`'s grammar and renders the Lua literal; the
    /// two map kinds await a grammar and fail with `Unimplemented`.
    pub fn write(ty: &CellType, data: &String) -> (r: Result<String, ConfigError>)
        ensures
            res_matches(r, spec_lua_write(*ty, data@)),
    {
        match ty {
            CellType::UInt => match parse_u32_cell(data.as_str()) {
                Ok(v) => Ok(lua_uint(v as u64)),
                Err(e) => Err(e),
            },
            CellType::Int => match parse_i32_cell(data.as_str()) {
                Ok(v) => Ok(lua_int(v as i64)),
                Err(e) => Err(e),
            },
            CellType::Long => match parse_i64_cell(data.as_str()) {
                Ok(v) => Ok(lua_int(v)),
                Err(e) => Err(e),
            },
            CellType::String => match parse_string_cell(data.as_str()) {
                Ok(v) => Ok(lua_str(v.as_str())),
                Err(e) => Err(e),
            },
            CellType::Bool => match parse_bool_cell(data.as_str()) {
                Ok(v) => Ok(lua_bool(v)),
                Err(e) => Err(e),
            },
            CellType::Vector3ArrayInt => match parse_vector3_array(data.as_str()) {
                Ok(vs) => {
                    proof {
                        assert(vs.deep_view() =~= vs@);
                    }
                    vs.to_lua()
                },
                Err(e) => Err(e),
            },
            CellType::Vector3Int => match parse_vector3_int(data.as_str()) {
                Ok(v) => v.to_lua(),
                Err(e) => Err(e),
            },
            CellType::Vector2Int => match parse_vector2_int(data.as_str()) {
                Ok(v) => v.to_lua(),
                Err(e) => Err(e),
            },
            CellType::Vector3UInt => match parse_vector3_uint(data.as_str()) {
                Ok(v) => v.to_lua(),
                Err(e) => Err(e),
            },
            CellType::Vector2UInt => match parse_vector2_uint(data.as_str()) {
                Ok(v) => v.to_lua(),
                Err(e) => Err(e),
            },
            CellType::Vector2ArrayInt => match parse_vector2_array(data.as_str()) {
                Ok(vs) => {
                    proof {
                        assert(vs.deep_view() =~= vs@);
                    }
                    vs.to_lua()
                },
                Err(e) => Err(e),
            },
            CellType::ArrayInt => match parse_array_int(data.as_str()) {
                Ok(vs) => {
                    proof {
                        assert(vs.deep_view() =~= vs@);
                    }
                    vs.to_lua()
                },
                Err(e) => Err(e),
            },
            CellType::ArrayUInt => match parse_array_uint(data.as_str()) {
                Ok(vs) => {
                    proof {
                        assert(vs.deep_view() =~= vs@);
                    }
                    vs.to_lua()
                },
                Err(e) => Err(e),
            },
            CellType::DictionaryStringFloat => Err(
                ConfigError::Unimplemented(CellType::DictionaryStringFloat),
            ),
            CellType::DictionaryStringInt => Err(
                ConfigError::Unimplemented(CellType::DictionaryStringInt),
            ),
            CellType::Lang => match parse_string_cell(data.as_str()) {
                Ok(v) => Ok(lua_str(v.as_str())),
                Err(e) => Err(e),
            },
            CellType::Float => match parse_float_cell(data.as_str(), CellType::Float) {
                Ok(tok) => Ok(tok),
                Err(e) => Err(e),
            },
            CellType::Double => match parse_float_cell(data.as_str(), CellType::Double) {
                Ok(tok) => Ok(tok),
                Err(e) => Err(e),
            },
            CellType::Vector2Float => match parse_vector2_float(data.as_str()) {
                Ok(v) => Ok(wrap_pair(&v.0, &v.1)),
                Err(e) => Err(e),
            },
            CellType::Vector3Float => match parse_vector3_float(data.as_str()) {
                Ok(v) => Ok(wrap_triple(&v.0, &v.1, &v.2)),
                Err(e) => Err(e),
            },
            CellType::Vector2String => match parse_vector2_string(data.as_str()) {
                Ok(v) => v.to_lua(),
                Err(e) => Err(e),
            },
        }
    }
}

/// The rendering of a cell type's zero value; what the map kinds would
/// render stays unspecified, since their grammar is unimplemented.
pub open spec fn zero_literal(ty: CellType) -> Seq<char> {
    match ty {
        CellType::UInt | CellType::Int | CellType::Long | CellType::Float | CellType::Double => (
        "0"@),
        CellType::String | CellType::Lang => text::lua_quote(Seq::<char>::empty()),
        CellType::Bool => "false"@,
        CellType::Vector2Int | CellType::Vector2UInt | CellType::Vector2Float => lua_pair(
            "0"@,
            "0"@,
        ),
        CellType::Vector2String => lua_pair(
            text::lua_quote(Seq::<char>::empty()),
            text::lua_quote(Seq::<char>::empty()),
        ),
        CellType::Vector3Int | CellType::Vector3UInt | CellType::Vector3Float => lua_triple(
            "0"@,
            "0"@,
            "0"@,
        ),
        CellType::Vector3ArrayInt | CellType::Vector2ArrayInt | CellType::ArrayInt
            | CellType::ArrayUInt => lua_list(Seq::<Seq<char>>::empty()),
        CellType::DictionaryStringFloat | CellType::DictionaryStringInt => Seq::<char>::empty(),
    }
}

/// Default-sentinel law: for every cell type, an empty cell and a cell
/// holding exactly `0` convert identically, and for every kind whose grammar
/// is implemented they give the rendering of the kind's zero value.
pub proof fn lemma_default_sentinel(ty: CellType)
    ensures
        spec_lua_write(ty, Seq::<char>::empty()) == spec_lua_write(ty, "0"@),
        ty != CellType::DictionaryStringFloat && ty != CellType::DictionaryStringInt
            ==> spec_lua_write(ty, Seq::<char>::empty()) == Ok::<Seq<char>, ErrorView>(
            zero_literal(ty),
        ),
{
    reveal_strlit("0");
    assert(is_sentinel(Seq::<char>::empty()));
    assert(is_sentinel("0"@));
    assert(text::dec_str(0) =~= "0"@);
    assert(text::dec_str_int(0) =~= "0"@);
}

/// Arity law: outside the sentinel rule, a 2-tuple cell whose comma-split
/// component count is not two fails with `ArityMismatch`, and a 3-tuple cell
/// likewise with three. The sentinel inputs are the one exception: an empty
/// cell or a literal `0` is the tuple's zero value whatever its shape.
pub proof fn lemma_tuple_arity(ty: CellType, s: Seq<char>)
    requires
        !is_sentinel(s),
    ensures
        (ty == CellType::Vector2Int || ty == CellType::Vector2UInt || ty == CellType::Vector2Float
            || ty == CellType::Vector2String) && text::spec_split(s, ',').len() != 2
            ==> spec_lua_write(ty, s) == Err::<Seq<char>, ErrorView>(
            ErrorView::ArityMismatch(2, text::spec_split(s, ',').len() as int, s),
        ),
        (ty == CellType::Vector3Int || ty == CellType::Vector3UInt || ty == CellType::Vector3Float)
            && text::spec_split(s, ',').len() != 3 ==> spec_lua_write(ty, s) == Err::<
            Seq<char>,
            ErrorView,
        >(ErrorView::ArityMismatch(3, text::spec_split(s, ',').len() as int, s)),
{
}

} // verus!
