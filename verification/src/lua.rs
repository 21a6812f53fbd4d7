//! Rendering one compiled table as the source of a read-only Lua module.
//!
//! The module holds a private data block (one Lua table per row, 1-based),
//! the table name, an index from the encoded primary-key literal of each row
//! to that row's number, an index from column name to column position, and a
//! metatable wrapper that answers lookups through the two indices and raises
//! an error on any assignment.

use vstd::prelude::*;

use crate::convert::LuaWriter;
use crate::convert::ToLua;
use crate::convert::spec_lua_write;
use crate::error::ConfigError;
use crate::error::ErrorView;
use crate::error::res_matches;
use crate::excel_define::CellType;
use crate::excel_define::GameConfig;
use crate::excel_define::GameConfigView;
use crate::excel_define::GameConfigs;
use crate::excel_define::KeyType;
use crate::excel_define::marks_key;
use crate::text::dec_str;
use crate::text::join_with;
use crate::text::join_push;
use crate::text::push_dec_u64;

verus! {

/// The first position whose tag marks a primary key column.
pub open spec fn find_key_index(keys: Seq<KeyType>) -> Option<int>
    decreases keys.len(),
{
    if keys.len() == 0 {
        None
    } else if marks_key(keys[0]) {
        Some(0int)
    } else {
        match find_key_index(keys.drop_first()) {
            Some(j) => Some(j + 1),
            None => None,
        }
    }
}

proof fn lemma_find_key_none(keys: Seq<KeyType>)
    requires
        forall|k: int| 0 <= k < keys.len() ==> !marks_key(#[trigger] keys[k]),
    ensures
        find_key_index(keys) is None,
    decreases keys.len(),
{
    if keys.len() > 0 {
        assert(forall|k: int|
            0 <= k < keys.drop_first().len() ==> #[trigger] keys.drop_first()[k] == keys[k + 1]);
        lemma_find_key_none(keys.drop_first());
    }
}

proof fn lemma_find_key_first(keys: Seq<KeyType>, i: int)
    requires
        0 <= i < keys.len(),
        marks_key(keys[i]),
        forall|k: int| 0 <= k < i ==> !marks_key(#[trigger] keys[k]),
    ensures
        find_key_index(keys) == Some(i),
    decreases keys.len(),
{
    if i > 0 {
        assert(forall|k: int|
            0 <= k < keys.drop_first().len() ==> #[trigger] keys.drop_first()[k] == keys[k + 1]);
        lemma_find_key_first(keys.drop_first(), i - 1);
    }
}

/// Finds the primary key column: the first whose tag is key-marking.
pub fn find_key_column(keys: &Vec<KeyType>) -> (r: Option<usize>)
    ensures
        match r {
            Some(i) => find_key_index(keys@) == Some(i as int),
            None => find_key_index(keys@) is None,
        },
{
    let mut i: usize = 0;
    while i < keys.len()
        invariant
            i <= keys@.len(),
            forall|k: int| 0 <= k < i ==> !marks_key(#[trigger] keys@[k]),
        decreases keys@.len() - i,
    {
        let is_key = match keys[i] {
            KeyType::AllKey | KeyType::All | KeyType::ServerKey | KeyType::ClientKey => true,
            _ => false,
        };
        if is_key {
            proof {
                lemma_find_key_first(keys@, i as int);
            }
            return Some(i);
        }
        i = i + 1;
    }
    proof {
        lemma_find_key_none(keys@);
    }
    None
}

/// The Lua literals of one row's cells, column by column against the
/// positionally paired cell types, stopping at the first malformed cell.
pub open spec fn spec_row_lits(tys: Seq<CellType>, row: Seq<Seq<char>>) -> Result<
    Seq<Seq<char>>,
    ErrorView,
>
    decreases tys.len(),
{
    if tys.len() == 0 || row.len() == 0 {
        Ok(Seq::empty())
    } else {
        match spec_lua_write(tys[0], row[0]) {
            Err(e) => Err(e),
            Ok(lit) => match spec_row_lits(tys.drop_first(), row.drop_first()) {
                Err(e) => Err(e),
                Ok(rest) => Ok(seq![lit] + rest),
            },
        }
    }
}

/// One cell inside a row block: `[column] = literal`, columns 1-based.
pub open spec fn cell_entries(lits: Seq<Seq<char>>) -> Seq<Seq<char>> {
    lits.map(|j: int, l: Seq<char>| "["@ + dec_str((j + 1) as nat) + "] = "@ + l)
}

/// One row block: `    [row] = { cells }`, rows 1-based.
pub open spec fn row_block(i: int, lits: Seq<Seq<char>>) -> Seq<char> {
    "    ["@ + dec_str((i + 1) as nat) + "] = { "@ + join_with(cell_entries(lits), ", "@)
        + " }"@
}

/// The key-index entry a row contributes: its encoded key literal mapped to
/// its 1-based row number; a row too short to reach the key column
/// contributes none.
pub open spec fn id_entry(i: int, lits: Seq<Seq<char>>, k: int) -> Seq<Seq<char>> {
    if 0 <= k < lits.len() {
        seq!["["@ + lits[k] + "] = "@ + dec_str((i + 1) as nat)]
    } else {
        Seq::empty()
    }
}

/// The row blocks and key-index entries of the rows from number `i` on.
pub open spec fn spec_rows_render(
    tys: Seq<CellType>,
    k: int,
    rows: Seq<Seq<Seq<char>>>,
    i: int,
) -> Result<(Seq<Seq<char>>, Seq<Seq<char>>), ErrorView>
    decreases rows.len(),
{
    if rows.len() == 0 {
        Ok((Seq::empty(), Seq::empty()))
    } else {
        match spec_row_lits(tys, rows[0]) {
            Err(e) => Err(e),
            Ok(lits) => match spec_rows_render(tys, k, rows.drop_first(), i + 1) {
                Err(e) => Err(e),
                Ok(rest) => Ok(
                    (seq![row_block(i, lits)] + rest.0, id_entry(i, lits, k) + rest.1),
                ),
            },
        }
    }
}

/// The column-name index entries: each name mapped to its 1-based position.
pub open spec fn name_entries(names: Seq<Seq<char>>) -> Seq<Seq<char>> {
    names.map(|i: int, n: Seq<char>| "['"@ + n + "'] = "@ + dec_str((i + 1) as nat))
}

/// The metatable block shared by every emitted module: read-only access by
/// row number, by encoded key through `s_id`, and by column name through
/// `s_key`, with assignment raising an error.
pub open spec fn lua_meta_text() -> Seq<char> {
    "local meta = {
    __index = function(_, key)
        if type(key) == \"string\" then
            local i = s_id[key]
            local v = rawget(data, i)
            return v
        elseif type(key) == \"number\" then
            local v = rawget(data, key)
            return v
        else
            return nil
        end
    end,
    __newindex = function()
        error(\"Attempt to modify read-only table\")
    end,
    __pairs = function(_, _)
        local function iter(tbl, key)
            local i, v = next(tbl, key)
            if i then
                v = tbl[i]
            end
            return i, v
        end
        return iter, data, nil
    end,
    __ipairs = function(_)
        local function iter(tbl, i)
            i = i + 1
            local v = tbl[i]
            if nil ~= v then
                return i, v
            end
        end
        return iter, data, 0
    end
}

local config = { name = s_name }

setmetatable(config, meta)
do
    local data_meta = {
        __index = function(table, key)
            if s_key[key] then
                return rawget(table, s_key[key]);
            else
                return nil
            end
        end,
        __newindex = function()
            error(\"Attempt to modify read-only table\")
        end
    }
    for _, v in ipairs(data) do
        setmetatable(v, data_meta)
    end
end

return config"@
}

/// The whole module source for one table.
pub open spec fn spec_config_lua(c: GameConfigView) -> Result<Seq<char>, ErrorView> {
    match find_key_index(c.key_type) {
        None => Err(ErrorView::MissingPrimaryKey(c.name)),
        Some(k) => match spec_rows_render(c.cell_type, k, c.data, 0) {
            Err(e) => Err(e),
            Ok(parts) => Ok(
                "local data = {\n"@ + join_with(parts.0, ",\n"@) + "\n}\n\nlocal s_name = '"@
                    + c.name + "'\n\nlocal s_id = { "@ + join_with(parts.1, ", "@)
                    + " }\n\nlocal s_key = { "@ + join_with(name_entries(c.cell_name), ", "@)
                    + " }\n\n"@ + lua_meta_text(),
            ),
        },
    }
}

/// The metatable block appended to every emitted module.
pub fn lua_meta_table() -> (r: String)
    ensures
        r@ == lua_meta_text(),
{
    String::from_str("local meta = {
    __index = function(_, key)
        if type(key) == \"string\" then
            local i = s_id[key]
            local v = rawget(data, i)
            return v
        elseif type(key) == \"number\" then
            local v = rawget(data, key)
            return v
        else
            return nil
        end
    end,
    __newindex = function()
        error(\"Attempt to modify read-only table\")
    end,
    __pairs = function(_, _)
        local function iter(tbl, key)
            local i, v = next(tbl, key)
            if i then
                v = tbl[i]
            end
            return i, v
        end
        return iter, data, nil
    end,
    __ipairs = function(_)
        local function iter(tbl, i)
            i = i + 1
            local v = tbl[i]
            if nil ~= v then
                return i, v
            end
        end
        return iter, data, 0
    end
}

local config = { name = s_name }

setmetatable(config, meta)
do
    local data_meta = {
        __index = function(table, key)
            if s_key[key] then
                return rawget(table, s_key[key]);
            else
                return nil
            end
        end,
        __newindex = function()
            error(\"Attempt to modify read-only table\")
        end
    }
    for _, v in ipairs(data) do
        setmetatable(v, data_meta)
    end
end

return config")
}

fn row_lits(tys: &Vec<CellType>, row: &Vec<String>) -> (r: Result<Vec<String>, ConfigError>)
    ensures
        res_matches(r, spec_row_lits(tys@, row.deep_view())),
{
    let ghost row_views = row.deep_view();
    let mut out: Vec<String> = Vec::new();
    let n = if row.len() < tys.len() {
        row.len()
    } else {
        tys.len()
    };
    let mut i: usize = 0;
    proof {
        assert(tys@.skip(0) =~= tys@);
        assert(row_views.skip(0) =~= row_views);
        if spec_row_lits(tys@, row_views) is Ok {
            let whole = spec_row_lits(tys@, row_views)->Ok_0;
            assert(out.deep_view() + whole =~= whole);
        }
    }
    while i < n
        invariant
            i <= n,
            n == if row_views.len() < tys@.len() {
                row_views.len()
            } else {
                tys@.len()
            },
            row_views == row.deep_view(),
            spec_row_lits(tys@, row_views) == match spec_row_lits(
                tys@.skip(i as int),
                row_views.skip(i as int),
            ) {
                Ok(rest) => Ok::<Seq<Seq<char>>, ErrorView>(out.deep_view() + rest),
                Err(e) => Err::<Seq<Seq<char>>, ErrorView>(e),
            },
        decreases n - i,
    {
        proof {
            assert(tys@.skip(i as int)[0] == tys@[i as int]);
            assert(row_views.skip(i as int)[0] == row_views[i as int]);
            assert(row_views[i as int] == row@[i as int]@);
            assert(tys@.skip(i as int).drop_first() =~= tys@.skip(i + 1));
            assert(row_views.skip(i as int).drop_first() =~= row_views.skip(i + 1));
        }
        match LuaWriter::write(&tys[i], &row[i]) {
            Ok(lit) => {
                let ghost before = out.deep_view();
                out.push(lit);
                proof {
                    assert(out.deep_view() =~= before.push(lit@));
                    if spec_row_lits(tys@.skip(i + 1), row_views.skip(i + 1)) is Ok {
                        let rest = spec_row_lits(tys@.skip(i + 1), row_views.skip(i + 1))->Ok_0;
                        assert(before + (seq![lit@] + rest) =~= before.push(lit@) + rest);
                    }
                }
            },
            Err(e) => {
                proof {
                    assert(spec_row_lits(tys@.skip(i as int), row_views.skip(i as int)) == Err::<
                        Seq<Seq<char>>,
                        ErrorView,
                    >(e@));
                }
                return Err(e);
            },
        }
        i = i + 1;
    }
    proof {
        assert(spec_row_lits(tys@.skip(n as int), row_views.skip(n as int)) =~= Ok::<
            Seq<Seq<char>>,
            ErrorView,
        >(Seq::empty()));
        assert(out.deep_view() + Seq::<Seq<char>>::empty() =~= out.deep_view());
    }
    Ok(out)
}

fn build_row_block(i: usize, lits: &Vec<String>) -> (r: String)
    requires
        i < usize::MAX,
    ensures
        r@ == row_block(i as int, lits.deep_view()),
{
    let mut entries: Vec<String> = Vec::new();
    let mut j: usize = 0;
    proof {
        assert(entries.deep_view() =~= cell_entries(lits.deep_view()).take(0));
    }
    while j < lits.len()
        invariant
            j <= lits@.len(),
            entries.deep_view() == cell_entries(lits.deep_view()).take(j as int),
        decreases lits@.len() - j,
    {
        let mut e = String::from_str("[");
        push_dec_u64(&mut e, (j as u64) + 1);
        e.append("] = ");
        e.append(lits[j].as_str());
        proof {
            assert(lits.deep_view()[j as int] == lits@[j as int]@);
            assert(e@ =~= cell_entries(lits.deep_view())[j as int]);
        }
        let ghost before = entries.deep_view();
        entries.push(e);
        proof {
            assert(entries.deep_view() =~= before.push(e@));
            assert(cell_entries(lits.deep_view()).take(j + 1) =~= before.push(e@));
        }
        j = j + 1;
    }
    proof {
        assert(cell_entries(lits.deep_view()).take(lits@.len() as int) =~= cell_entries(
            lits.deep_view(),
        ));
    }
    let mut out = String::from_str("    [");
    push_dec_u64(&mut out, (i as u64) + 1);
    out.append("] = { ");
    join_push(&mut out, &entries, ", ");
    out.append(" }");
    proof {
        assert(out@ =~= row_block(i as int, lits.deep_view()));
    }
    out
}

impl ToLua for GameConfig {
    type Output = String;

    /// Renders the whole module; fails with `MissingPrimaryKey` when no
    /// visibility tag marks a key column, and with the first cell error
    /// otherwise encountered.
    fn to_lua(&self) -> (r: Result<String, ConfigError>)
        ensures
            res_matches(r, spec_config_lua(self@)),
    {
        let k = match find_key_column(&self.key_type) {
            Some(k) => k,
            None => {
                return Err(ConfigError::MissingPrimaryKey(self.name.clone()));
            },
        };
        let ghost rows_views = self.data.deep_view();
        let mut blocks: Vec<String> = Vec::new();
        let mut ids: Vec<String> = Vec::new();
        let mut i: usize = 0;
        proof {
            assert(rows_views.skip(0) =~= rows_views);
            if spec_rows_render(self@.cell_type, k as int, rows_views, 0) is Ok {
                let whole = spec_rows_render(self@.cell_type, k as int, rows_views, 0)->Ok_0;
                assert(blocks.deep_view() + whole.0 =~= whole.0);
                assert(ids.deep_view() + whole.1 =~= whole.1);
            }
        }
        while i < self.data.len()
            invariant
                i <= self.data@.len(),
                k as int == find_key_index(self@.key_type)->Some_0,
                find_key_index(self@.key_type) is Some,
                rows_views == self.data.deep_view(),
                spec_rows_render(self@.cell_type, k as int, rows_views, 0) == match
                    spec_rows_render(
                    self@.cell_type,
                    k as int,
                    rows_views.skip(i as int),
                    i as int,
                ) {
                    Ok(rest) => Ok::<(Seq<Seq<char>>, Seq<Seq<char>>), ErrorView>(
                        (blocks.deep_view() + rest.0, ids.deep_view() + rest.1),
                    ),
                    Err(e) => Err::<(Seq<Seq<char>>, Seq<Seq<char>>), ErrorView>(e),
                },
            decreases self.data@.len() - i,
        {
            proof {
                assert(rows_views.skip(i as int)[0] == rows_views[i as int]);
                assert(rows_views[i as int] == self.data@[i as int].deep_view());
                assert(rows_views.skip(i as int).drop_first() =~= rows_views.skip(i + 1));
            }
            let lits = match row_lits(&self.cell_type, &self.data[i]) {
                Ok(l) => l,
                Err(e) => {
                    proof {
                        assert(spec_rows_render(
                            self@.cell_type,
                            k as int,
                            rows_views.skip(i as int),
                            i as int,
                        ) == Err::<(Seq<Seq<char>>, Seq<Seq<char>>), ErrorView>(e@));
                    }
                    return Err(e);
                },
            };
            let block = build_row_block(i, &lits);
            let ghost bb = blocks.deep_view();
            let ghost ib = ids.deep_view();
            blocks.push(block);
            proof {
                assert(blocks.deep_view() =~= bb.push(block@));
            }
            if k < lits.len() {
                let mut entry = String::from_str("[");
                entry.append(lits[k].as_str());
                entry.append("] = ");
                push_dec_u64(&mut entry, (i as u64) + 1);
                proof {
                    assert(lits.deep_view()[k as int] == lits@[k as int]@);
                    assert(entry@ =~= id_entry(i as int, lits.deep_view(), k as int)[0]);
                }
                let ghost before_ids = ids.deep_view();
                ids.push(entry);
                proof {
                    assert(ids.deep_view() =~= before_ids.push(entry@));
                    assert(id_entry(i as int, lits.deep_view(), k as int) =~= seq![entry@]);
                }
            } else {
                proof {
                    assert(id_entry(i as int, lits.deep_view(), k as int) =~= Seq::<
                        Seq<char>,
                    >::empty());
                }
            }
            proof {
                if spec_rows_render(self@.cell_type, k as int, rows_views.skip(i + 1), i + 1)
                    is Ok {
                    let rest = spec_rows_render(
                        self@.cell_type,
                        k as int,
                        rows_views.skip(i + 1),
                        i + 1,
                    )->Ok_0;
                    assert(bb + (seq![row_block(i as int, lits.deep_view())] + rest.0) =~= bb.push(
                        row_block(i as int, lits.deep_view()),
                    ) + rest.0);
                    assert(ib + (id_entry(i as int, lits.deep_view(), k as int) + rest.1)
                        =~= (ib + id_entry(i as int, lits.deep_view(), k as int)) + rest.1);
                    assert(ids.deep_view() =~= ib + id_entry(i as int, lits.deep_view(), k as int));
                }
            }
            i = i + 1;
        }
        proof {
            assert(rows_views.skip(rows_views.len() as int).len() == 0);
            assert(blocks.deep_view() + Seq::<Seq<char>>::empty() =~= blocks.deep_view());
            assert(ids.deep_view() + Seq::<Seq<char>>::empty() =~= ids.deep_view());
        }
        let mut names: Vec<String> = Vec::new();
        let mut j: usize = 0;
        let ghost name_views = self.cell_name.deep_view();
        proof {
            assert(names.deep_view() =~= name_entries(name_views).take(0));
        }
        while j < self.cell_name.len()
            invariant
                j <= self.cell_name@.len(),
                name_views == self.cell_name.deep_view(),
                names.deep_view() == name_entries(name_views).take(j as int),
            decreases self.cell_name@.len() - j,
        {
            let mut e = String::from_str("['");
            e.append(self.cell_name[j].as_str());
            e.append("'] = ");
            push_dec_u64(&mut e, (j as u64) + 1);
            proof {
                assert(name_views[j as int] == self.cell_name@[j as int]@);
                assert(e@ =~= name_entries(name_views)[j as int]);
            }
            let ghost before = names.deep_view();
            names.push(e);
            proof {
                assert(names.deep_view() =~= before.push(e@));
                assert(name_entries(name_views).take(j + 1) =~= before.push(e@));
            }
            j = j + 1;
        }
        proof {
            assert(name_entries(name_views).take(self.cell_name@.len() as int) =~= name_entries(
                name_views,
            ));
        }
        let mut out = String::from_str("local data = {\n");
        join_push(&mut out, &blocks, ",\n");
        out.append("\n}\n\nlocal s_name = '");
        out.append(self.name.as_str());
        out.append("'\n\nlocal s_id = { ");
        join_push(&mut out, &ids, ", ");
        out.append(" }\n\nlocal s_key = { ");
        join_push(&mut out, &names, ", ");
        out.append(" }\n\n");
        let meta = lua_meta_table();
        out.append(meta.as_str());
        proof {
            assert(out@ =~= spec_config_lua(self@)->Ok_0);
        }
        Ok(out)
    }
}

/// The outputs and the emission errors of rendering every table: each table
/// contributes its `(name, module source)` pair or its error, independently
/// of its siblings.
pub open spec fn spec_generate_all(tables: Seq<GameConfigView>) -> (Seq<(Seq<char>, Seq<char>)>, Seq<
    ErrorView,
>)
    decreases tables.len(),
{
    if tables.len() == 0 {
        (Seq::empty(), Seq::empty())
    } else {
        let rest = spec_generate_all(tables.drop_first());
        match spec_config_lua(tables[0]) {
            Ok(source) => (seq![(tables[0].name, source)] + rest.0, rest.1),
            Err(e) => (rest.0, seq![e] + rest.1),
        }
    }
}

/// Renders every table as its Lua module. Emission errors are collected
/// across all tables, so one failing table does not hide another's error;
/// the run fails only after every table was attempted.
pub fn generate_all_lua(configs: &GameConfigs) -> (r: Result<Vec<(String, String)>, Vec<ConfigError>>)
    ensures
        match r {
            Ok(outputs) => outputs.deep_view() == spec_generate_all(configs@.data).0
                && spec_generate_all(configs@.data).1.len() == 0,
            Err(errors) => errors.deep_view() == spec_generate_all(configs@.data).1 && errors@.len()
                > 0,
        },
{
    let ghost tables = configs.data.deep_view();
    let mut outputs: Vec<(String, String)> = Vec::new();
    let mut errors: Vec<ConfigError> = Vec::new();
    let mut i: usize = configs.data.len();
    proof {
        assert(tables.skip(tables.len() as int).len() == 0);
        assert(outputs.deep_view() =~= spec_generate_all(tables.skip(tables.len() as int)).0);
        assert(errors.deep_view() =~= spec_generate_all(tables.skip(tables.len() as int)).1);
    }
    while i > 0
        invariant
            i <= configs.data@.len(),
            tables == configs.data.deep_view(),
            outputs.deep_view() == spec_generate_all(tables.skip(i as int)).0,
            errors.deep_view() == spec_generate_all(tables.skip(i as int)).1,
        decreases i,
    {
        i = i - 1;
        proof {
            assert(tables.skip(i as int)[0] == tables[i as int]);
            assert(tables[i as int] == configs.data@[i as int].deep_view());
            assert(tables.skip(i as int).drop_first() =~= tables.skip(i + 1));
        }
        match configs.data[i].to_lua() {
            Ok(source) => {
                let name = configs.data[i].name.clone();
                let ghost before = outputs.deep_view();
                outputs.insert(0, (name, source));
                proof {
                    assert(outputs.deep_view() =~= seq![(tables[i as int].name, source@)] + before);
                }
            },
            Err(e) => {
                let ghost before = errors.deep_view();
                errors.insert(0, e);
                proof {
                    assert(errors.deep_view() =~= seq![e@] + before);
                }
            },
        }
    }
    proof {
        assert(tables.skip(0) =~= tables);
    }
    if errors.len() == 0 {
        proof {
            assert(errors.deep_view().len() == errors@.len());
        }
        Ok(outputs)
    } else {
        Err(errors)
    }
}

} // verus!
