//! Building a table from raw spreadsheet rows, and partitioning its columns
//! by audience.
//!
//! The first three rows of a sheet are the column names, the cell-type labels
//! and the visibility-tag labels; the next two rows are reserved and skipped;
//! every later row is data. A table whose visibility-tag row holds no
//! key-marking tag is not exportable and is dropped rather than rejected.

use vstd::prelude::*;

use crate::error::ConfigError;
use crate::error::ErrorView;
use crate::excel_define::CellType;
use crate::excel_define::GameConfig;
use crate::excel_define::GameConfigView;
use crate::excel_define::KeyType;
use crate::excel_define::cell_type_of_label;
use crate::excel_define::cell_type_from_label;
use crate::excel_define::is_client_side;
use crate::excel_define::is_server_side;
use crate::excel_define::key_type_of_label;
use crate::excel_define::key_type_from_label;
use crate::excel_define::marks_key;

verus! {

/// The export target of one compilation run.
#[derive(Debug, Clone, Copy, PartialEq, Eq, Structural)]
pub enum Audience {
    Server,
    Client,
}

/// Whether a column with the given tag is visible to the audience.
pub open spec fn in_audience(aud: Audience, k: KeyType) -> bool {
    match aud {
        Audience::Server => is_server_side(k),
        Audience::Client => is_client_side(k),
    }
}

/// Decides visibility of one tag for one audience.
pub fn tag_in_audience(aud: Audience, k: KeyType) -> (r: bool)
    ensures
        r == in_audience(aud, k),
{
    match aud {
        Audience::Server => match k {
            KeyType::AllKey | KeyType::All | KeyType::Server | KeyType::ServerKey => true,
            _ => false,
        },
        Audience::Client => match k {
            KeyType::AllKey | KeyType::All | KeyType::Client | KeyType::ClientKey => true,
            _ => false,
        },
    }
}

/// The elements of `v` whose positionally paired tag is visible to the
/// audience, in order; positions past either sequence's end contribute
/// nothing.
pub open spec fn filter_cols<T>(v: Seq<T>, keys: Seq<KeyType>, aud: Audience) -> Seq<T>
    decreases v.len(),
{
    if v.len() == 0 || keys.len() == 0 {
        Seq::empty()
    } else if in_audience(aud, keys[0]) {
        seq![v[0]] + filter_cols(v.drop_first(), keys.drop_first(), aud)
    } else {
        filter_cols(v.drop_first(), keys.drop_first(), aud)
    }
}

/// The audience filter on a whole table: every per-column sequence and every
/// data row keeps exactly the columns visible to the audience; the name is
/// unchanged, and column order is preserved by construction.
pub open spec fn spec_filter_config(c: GameConfigView, aud: Audience) -> GameConfigView {
    GameConfigView {
        name: c.name,
        cell_name: filter_cols(c.cell_name, c.key_type, aud),
        key_type: filter_cols(c.key_type, c.key_type, aud),
        cell_type: filter_cols(c.cell_type, c.key_type, aud),
        data: c.data.map_values(|row: Seq<Seq<char>>| filter_cols(row, c.key_type, aud)),
    }
}

fn filter_strings(v: &Vec<String>, keys: &Vec<KeyType>, aud: Audience) -> (r: Vec<String>)
    ensures
        r.deep_view() == filter_cols(v.deep_view(), keys@, aud),
{
    let ghost vv = v.deep_view();
    let mut out: Vec<String> = Vec::new();
    let mut i: usize = 0;
    let n = if v.len() < keys.len() {
        v.len()
    } else {
        keys.len()
    };
    proof {
        assert(vv.skip(0) =~= vv);
        assert(keys@.skip(0) =~= keys@);
        assert(out.deep_view() + filter_cols(vv, keys@, aud) =~= filter_cols(vv, keys@, aud));
    }
    while i < n
        invariant
            i <= n,
            n == if vv.len() < keys@.len() {
                vv.len()
            } else {
                keys@.len()
            },
            vv == v.deep_view(),
            filter_cols(vv, keys@, aud) == out.deep_view() + filter_cols(
                vv.skip(i as int),
                keys@.skip(i as int),
                aud,
            ),
        decreases n - i,
    {
        proof {
            assert(vv.skip(i as int)[0] == vv[i as int]);
            assert(vv[i as int] == v@[i as int]@);
            assert(keys@.skip(i as int)[0] == keys@[i as int]);
            assert(vv.skip(i as int).drop_first() =~= vv.skip(i + 1));
            assert(keys@.skip(i as int).drop_first() =~= keys@.skip(i + 1));
        }
        let ghost before = out.deep_view();
        if tag_in_audience(aud, keys[i]) {
            out.push(v[i].clone());
            proof {
                assert(out.deep_view() =~= before.push(vv[i as int]));
                assert(before + (seq![vv[i as int]] + filter_cols(
                    vv.skip(i + 1),
                    keys@.skip(i + 1),
                    aud,
                )) =~= before.push(vv[i as int]) + filter_cols(
                    vv.skip(i + 1),
                    keys@.skip(i + 1),
                    aud,
                ));
            }
        }
        i = i + 1;
    }
    proof {
        assert(filter_cols(vv.skip(n as int), keys@.skip(n as int), aud) =~= Seq::<
            Seq<char>,
        >::empty());
        assert(out.deep_view() + Seq::<Seq<char>>::empty() =~= out.deep_view());
    }
    out
}

fn filter_key_types(v: &Vec<KeyType>, keys: &Vec<KeyType>, aud: Audience) -> (r: Vec<KeyType>)
    ensures
        r@ == filter_cols(v@, keys@, aud),
{
    let mut out: Vec<KeyType> = Vec::new();
    let mut i: usize = 0;
    let n = if v.len() < keys.len() {
        v.len()
    } else {
        keys.len()
    };
    proof {
        assert(v@.skip(0) =~= v@);
        assert(keys@.skip(0) =~= keys@);
        assert(out@ + filter_cols(v@, keys@, aud) =~= filter_cols(v@, keys@, aud));
    }
    while i < n
        invariant
            i <= n,
            n == if v@.len() < keys@.len() {
                v@.len()
            } else {
                keys@.len()
            },
            filter_cols(v@, keys@, aud) == out@ + filter_cols(
                v@.skip(i as int),
                keys@.skip(i as int),
                aud,
            ),
        decreases n - i,
    {
        proof {
            assert(v@.skip(i as int)[0] == v@[i as int]);
            assert(keys@.skip(i as int)[0] == keys@[i as int]);
            assert(v@.skip(i as int).drop_first() =~= v@.skip(i + 1));
            assert(keys@.skip(i as int).drop_first() =~= keys@.skip(i + 1));
        }
        let ghost before = out@;
        if tag_in_audience(aud, keys[i]) {
            out.push(v[i]);
            proof {
                assert(before + (seq![v@[i as int]] + filter_cols(
                    v@.skip(i + 1),
                    keys@.skip(i + 1),
                    aud,
                )) =~= before.push(v@[i as int]) + filter_cols(
                    v@.skip(i + 1),
                    keys@.skip(i + 1),
                    aud,
                ));
            }
        }
        i = i + 1;
    }
    proof {
        assert(filter_cols(v@.skip(n as int), keys@.skip(n as int), aud) =~= Seq::<
            KeyType,
        >::empty());
        assert(out@ + Seq::<KeyType>::empty() =~= out@);
    }
    out
}

fn filter_cell_types(v: &Vec<CellType>, keys: &Vec<KeyType>, aud: Audience) -> (r: Vec<CellType>)
    ensures
        r@ == filter_cols(v@, keys@, aud),
{
    let mut out: Vec<CellType> = Vec::new();
    let mut i: usize = 0;
    let n = if v.len() < keys.len() {
        v.len()
    } else {
        keys.len()
    };
    proof {
        assert(v@.skip(0) =~= v@);
        assert(keys@.skip(0) =~= keys@);
        assert(out@ + filter_cols(v@, keys@, aud) =~= filter_cols(v@, keys@, aud));
    }
    while i < n
        invariant
            i <= n,
            n == if v@.len() < keys@.len() {
                v@.len()
            } else {
                keys@.len()
            },
            filter_cols(v@, keys@, aud) == out@ + filter_cols(
                v@.skip(i as int),
                keys@.skip(i as int),
                aud,
            ),
        decreases n - i,
    {
        proof {
            assert(v@.skip(i as int)[0] == v@[i as int]);
            assert(keys@.skip(i as int)[0] == keys@[i as int]);
            assert(v@.skip(i as int).drop_first() =~= v@.skip(i + 1));
            assert(keys@.skip(i as int).drop_first() =~= keys@.skip(i + 1));
        }
        let ghost before = out@;
        if tag_in_audience(aud, keys[i]) {
            out.push(v[i]);
            proof {
                assert(before + (seq![v@[i as int]] + filter_cols(
                    v@.skip(i + 1),
                    keys@.skip(i + 1),
                    aud,
                )) =~= before.push(v@[i as int]) + filter_cols(
                    v@.skip(i + 1),
                    keys@.skip(i + 1),
                    aud,
                ));
            }
        }
        i = i + 1;
    }
    proof {
        assert(filter_cols(v@.skip(n as int), keys@.skip(n as int), aud) =~= Seq::<
            CellType,
        >::empty());
        assert(out@ + Seq::<CellType>::empty() =~= out@);
    }
    out
}

/// Produces a new table retaining only the columns visible to the audience;
/// column order is preserved and the input is not changed.
pub fn filter_columns(config: &GameConfig, aud: Audience) -> (r: GameConfig)
    ensures
        r@ == spec_filter_config(config@, aud),
{
    let name = config.name.clone();
    let cell_name = filter_strings(&config.cell_name, &config.key_type, aud);
    let cell_type = filter_cell_types(&config.cell_type, &config.key_type, aud);
    let key_type = filter_key_types(&config.key_type, &config.key_type, aud);
    let mut data: Vec<Vec<String>> = Vec::new();
    let ghost rows = config.data.deep_view();
    let mut i: usize = 0;
    while i < config.data.len()
        invariant
            i <= config.data@.len(),
            rows == config.data.deep_view(),
            data.deep_view() == rows.take(i as int).map_values(
                |row: Seq<Seq<char>>| filter_cols(row, config@.key_type, aud),
            ),
        decreases config.data@.len() - i,
    {
        proof {
            assert(rows[i as int] == config.data@[i as int].deep_view());
        }
        let filtered = filter_strings(&config.data[i], &config.key_type, aud);
        let ghost before = data.deep_view();
        data.push(filtered);
        proof {
            assert(data.deep_view() =~= before.push(filtered.deep_view()));
            assert(rows.take(i + 1).map_values(
                |row: Seq<Seq<char>>| filter_cols(row, config@.key_type, aud),
            ) =~= before.push(filtered.deep_view()));
        }
        i = i + 1;
    }
    proof {
        assert(rows.take(rows.len() as int) =~= rows);
    }
    let r = GameConfig { name, cell_name, key_type, cell_type, data };
    proof {
        assert(r@ =~~= spec_filter_config(config@, aud));
    }
    r
}

/// True when every tag of `keys` is visible to the audience.
pub open spec fn all_in_audience(keys: Seq<KeyType>, aud: Audience) -> bool {
    forall|i: int| 0 <= i < keys.len() ==> in_audience(aud, #[trigger] keys[i])
}

proof fn lemma_filter_all_in<T>(v: Seq<T>, keys: Seq<KeyType>, aud: Audience)
    requires
        all_in_audience(keys, aud),
    ensures
        filter_cols(v, keys, aud) == v.take(
            if v.len() < keys.len() {
                v.len() as int
            } else {
                keys.len() as int
            },
        ),
    decreases v.len(),
{
    let m: int = if v.len() < keys.len() {
        v.len() as int
    } else {
        keys.len() as int
    };
    if v.len() == 0 || keys.len() == 0 {
        assert(filter_cols(v, keys, aud) =~= v.take(m));
    } else {
        assert(in_audience(aud, keys[0]));
        assert(all_in_audience(keys.drop_first(), aud)) by {
            assert(forall|i: int|
                0 <= i < keys.drop_first().len() ==> #[trigger] keys.drop_first()[i] == keys[i
                    + 1]);
        }
        lemma_filter_all_in(v.drop_first(), keys.drop_first(), aud);
        assert(seq![v[0]] + v.drop_first().take(m - 1) =~= v.take(m));
    }
}

proof fn lemma_filtered_keys_all_in(keys: Seq<KeyType>, aud: Audience)
    ensures
        all_in_audience(filter_cols(keys, keys, aud), aud),
    decreases keys.len(),
{
    if keys.len() > 0 {
        lemma_filtered_keys_all_in(keys.drop_first(), aud);
        if in_audience(aud, keys[0]) {
            let rest = filter_cols(keys.drop_first(), keys.drop_first(), aud);
            let whole = seq![keys[0]] + rest;
            assert forall|i: int| 0 <= i < whole.len() implies in_audience(
                aud,
                #[trigger] whole[i],
            ) by {
                if i > 0 {
                    assert(whole[i] == rest[i - 1]);
                }
            }
        }
    }
}

proof fn lemma_filter_len_le<T>(v: Seq<T>, keys: Seq<KeyType>, aud: Audience)
    ensures
        filter_cols(v, keys, aud).len() <= filter_cols(keys, keys, aud).len(),
    decreases v.len(),
{
    if v.len() > 0 && keys.len() > 0 {
        lemma_filter_len_le(v.drop_first(), keys.drop_first(), aud);
    }
}

/// The visibility filter is idempotent: filtering an already-filtered table
/// for the same audience yields the identical table.
pub proof fn lemma_filter_idempotent(c: GameConfigView, aud: Audience)
    ensures
        spec_filter_config(spec_filter_config(c, aud), aud) == spec_filter_config(c, aud),
{
    let c1 = spec_filter_config(c, aud);
    let k1 = c1.key_type;
    lemma_filtered_keys_all_in(c.key_type, aud);
    lemma_filter_all_in(k1, k1, aud);
    assert(k1.take(k1.len() as int) =~= k1);
    lemma_filter_all_in(c1.cell_name, k1, aud);
    lemma_filter_len_le(c.cell_name, c.key_type, aud);
    assert(c1.cell_name.take(c1.cell_name.len() as int) =~= c1.cell_name);
    lemma_filter_all_in(c1.cell_type, k1, aud);
    lemma_filter_len_le(c.cell_type, c.key_type, aud);
    assert(c1.cell_type.take(c1.cell_type.len() as int) =~= c1.cell_type);
    let f1 = |row: Seq<Seq<char>>| filter_cols(row, c.key_type, aud);
    let f2 = |row: Seq<Seq<char>>| filter_cols(row, k1, aud);
    assert forall|i: int| 0 <= i < c1.data.len() implies #[trigger] c1.data.map_values(f2)[i]
        == c1.data[i] by {
        assert(c1.data[i] == f1(c.data[i]));
        lemma_filter_all_in(f1(c.data[i]), k1, aud);
        lemma_filter_len_le(c.data[i], c.key_type, aud);
        assert(f1(c.data[i]).take(f1(c.data[i]).len() as int) =~= f1(c.data[i]));
    }
    assert(c1.data.map_values(f2) =~= c1.data);
    assert(spec_filter_config(c1, aud) =~~= c1);
}

/// Drops every column that is not server-visible: the server-audience filter
/// under its historical name.
pub fn drop_client_data(config: GameConfig) -> (r: GameConfig)
    ensures
        r@ == spec_filter_config(config@, Audience::Server),
{
    filter_columns(&config, Audience::Server)
}

/// The mathematical shape of a [`RawCell`].
pub enum RawCellView {
    Text(Seq<char>),
    Other(Seq<char>),
}

/// One cell as handed over by spreadsheet ingestion: a plain string cell, or
/// any other kind of cell together with its rendered text.
#[derive(Debug, Clone, PartialEq, Eq)]
pub enum RawCell {
    Text(String),
    Other(String),
}

impl View for RawCell {
    type V = RawCellView;

    open spec fn view(&self) -> RawCellView {
        match self {
            RawCell::Text(s) => RawCellView::Text(s@),
            RawCell::Other(s) => RawCellView::Other(s@),
        }
    }
}

impl DeepView for RawCell {
    type V = RawCellView;

    open spec fn deep_view(&self) -> RawCellView {
        self.view()
    }
}

/// The rendered text of a raw cell, whatever its kind.
pub open spec fn cell_text(c: RawCellView) -> Seq<char> {
    match c {
        RawCellView::Text(s) => s,
        RawCellView::Other(s) => s,
    }
}

/// The column names of the first header row: every cell must be a plain
/// string, and the first one that is not fails with its position.
pub open spec fn spec_names_from(row: Seq<RawCellView>, j: int) -> Result<Seq<Seq<char>>, ErrorView>
    decreases row.len(),
{
    if row.len() == 0 {
        Ok(Seq::empty())
    } else {
        match row[0] {
            RawCellView::Text(s) => match spec_names_from(row.drop_first(), j + 1) {
                Ok(rest) => Ok(seq![s] + rest),
                Err(e) => Err(e),
            },
            RawCellView::Other(_) => Err(ErrorView::ExpectedString(0, j)),
        }
    }
}

/// The cell types of the second header row: every cell must be a plain
/// string whose label the registry resolves.
pub open spec fn spec_types_from(row: Seq<RawCellView>, j: int) -> Result<Seq<CellType>, ErrorView>
    decreases row.len(),
{
    if row.len() == 0 {
        Ok(Seq::empty())
    } else {
        match row[0] {
            RawCellView::Text(s) => match cell_type_of_label(s) {
                Some(t) => match spec_types_from(row.drop_first(), j + 1) {
                    Ok(rest) => Ok(seq![t] + rest),
                    Err(e) => Err(e),
                },
                None => Err(ErrorView::UnknownCellType(s)),
            },
            RawCellView::Other(_) => Err(ErrorView::ExpectedString(1, j)),
        }
    }
}

/// The visibility tags of the third header row.
pub open spec fn spec_keys_from(row: Seq<RawCellView>, j: int) -> Result<Seq<KeyType>, ErrorView>
    decreases row.len(),
{
    if row.len() == 0 {
        Ok(Seq::empty())
    } else {
        match row[0] {
            RawCellView::Text(s) => match key_type_of_label(s) {
                Some(t) => match spec_keys_from(row.drop_first(), j + 1) {
                    Ok(rest) => Ok(seq![t] + rest),
                    Err(e) => Err(e),
                },
                None => Err(ErrorView::UnknownVisibilityTag(s)),
            },
            RawCellView::Other(_) => Err(ErrorView::ExpectedString(2, j)),
        }
    }
}

/// The data rows: every row from the sixth on, each cell as its rendered
/// text.
pub open spec fn spec_data_rows(rows: Seq<Seq<RawCellView>>) -> Seq<Seq<Seq<char>>> {
    rows.map_values(|r: Seq<RawCellView>| r.map_values(|c: RawCellView| cell_text(c)))
}

/// The table built from the raw rows of one sheet: rows one to three give
/// the schema, rows four and five are reserved, the rest is data. Missing
/// header rows give empty schema sequences, which the key-tag rule then
/// drops.
pub open spec fn spec_build_config(name: Seq<char>, rows: Seq<Seq<RawCellView>>) -> Result<
    GameConfigView,
    ErrorView,
> {
    let names = if rows.len() > 0 {
        spec_names_from(rows[0], 0)
    } else {
        Ok(Seq::empty())
    };
    let types = if rows.len() > 1 {
        spec_types_from(rows[1], 0)
    } else {
        Ok(Seq::empty())
    };
    let keys = if rows.len() > 2 {
        spec_keys_from(rows[2], 0)
    } else {
        Ok(Seq::empty())
    };
    match names {
        Err(e) => Err(e),
        Ok(names) => match types {
            Err(e) => Err(e),
            Ok(types) => match keys {
                Err(e) => Err(e),
                Ok(keys) => Ok(
                    GameConfigView {
                        name: name,
                        cell_name: names,
                        key_type: keys,
                        cell_type: types,
                        data: if rows.len() > 5 {
                            spec_data_rows(rows.skip(5))
                        } else {
                            Seq::empty()
                        },
                    },
                ),
            },
        },
    }
}

/// True when some tag of the visibility row marks a primary key column, so
/// that the table is exportable.
pub open spec fn has_key_tag(keys: Seq<KeyType>) -> bool {
    exists|i: int| 0 <= i < keys.len() && marks_key(#[trigger] keys[i])
}

/// Decides whether any tag marks a primary key column.
pub fn any_key_tag(keys: &Vec<KeyType>) -> (r: bool)
    ensures
        r == has_key_tag(keys@),
{
    let mut i: usize = 0;
    while i < keys.len()
        invariant
            i <= keys@.len(),
            forall|k: int| 0 <= k < i ==> !marks_key(#[trigger] keys@[k]),
        decreases keys@.len() - i,
    {
        let is_key = match keys[i] {
            KeyType::AllKey | KeyType::All | KeyType::ServerKey | KeyType::ClientKey => true,
            _ => false,
        };
        if is_key {
            proof {
                assert(marks_key(keys@[i as int]));
            }
            return true;
        }
        i = i + 1;
    }
    false
}

fn names_from_row(row: &Vec<RawCell>) -> (r: Result<Vec<String>, ConfigError>)
    ensures
        crate::error::res_matches(r, spec_names_from(row.deep_view(), 0)),
{
    let ghost cells = row.deep_view();
    let mut out: Vec<String> = Vec::new();
    let mut i: usize = 0;
    proof {
        assert(cells.skip(0) =~= cells);
        if spec_names_from(cells, 0) is Ok {
            let whole = spec_names_from(cells, 0)->Ok_0;
            assert(out.deep_view() + whole =~= whole);
        }
    }
    while i < row.len()
        invariant
            i <= row@.len(),
            cells == row.deep_view(),
            spec_names_from(cells, 0) == match spec_names_from(cells.skip(i as int), i as int) {
                Ok(rest) => Ok::<Seq<Seq<char>>, ErrorView>(out.deep_view() + rest),
                Err(e) => Err::<Seq<Seq<char>>, ErrorView>(e),
            },
        decreases row@.len() - i,
    {
        proof {
            assert(cells.skip(i as int)[0] == cells[i as int]);
            assert(cells[i as int] == row@[i as int]@);
            assert(cells.skip(i as int).drop_first() =~= cells.skip(i + 1));
        }
        match &row[i] {
            RawCell::Text(s) => {
                let ghost before = out.deep_view();
                out.push(s.clone());
                proof {
                    assert(out.deep_view() =~= before.push(s@));
                    if spec_names_from(cells.skip(i + 1), i + 1) is Ok {
                        let rest = spec_names_from(cells.skip(i + 1), i + 1)->Ok_0;
                        assert(before + (seq![s@] + rest) =~= before.push(s@) + rest);
                    }
                }
            },
            RawCell::Other(_) => {
                proof {
                    assert(spec_names_from(cells.skip(i as int), i as int) == Err::<
                        Seq<Seq<char>>,
                        ErrorView,
                    >(ErrorView::ExpectedString(0, i as int)));
                }
                return Err(ConfigError::ExpectedString(0, i));
            },
        }
        i = i + 1;
    }
    proof {
        assert(cells.skip(row@.len() as int).len() == 0);
        assert(out.deep_view() + Seq::<Seq<char>>::empty() =~= out.deep_view());
    }
    Ok(out)
}

fn types_from_row(row: &Vec<RawCell>) -> (r: Result<Vec<CellType>, ConfigError>)
    ensures
        crate::error::res_matches(r, spec_types_from(row.deep_view(), 0)),
{
    let ghost cells = row.deep_view();
    let mut out: Vec<CellType> = Vec::new();
    let mut i: usize = 0;
    proof {
        assert(cells.skip(0) =~= cells);
        if spec_types_from(cells, 0) is Ok {
            let whole = spec_types_from(cells, 0)->Ok_0;
            assert(out@ + whole =~= whole);
        }
    }
    while i < row.len()
        invariant
            i <= row@.len(),
            cells == row.deep_view(),
            spec_types_from(cells, 0) == match spec_types_from(cells.skip(i as int), i as int) {
                Ok(rest) => Ok::<Seq<CellType>, ErrorView>(out@ + rest),
                Err(e) => Err::<Seq<CellType>, ErrorView>(e),
            },
        decreases row@.len() - i,
    {
        proof {
            assert(cells.skip(i as int)[0] == cells[i as int]);
            assert(cells[i as int] == row@[i as int]@);
            assert(cells.skip(i as int).drop_first() =~= cells.skip(i + 1));
        }
        match &row[i] {
            RawCell::Text(s) => match cell_type_from_label(s.as_str()) {
                Ok(t) => {
                    let ghost before = out@;
                    out.push(t);
                    proof {
                        if spec_types_from(cells.skip(i + 1), i + 1) is Ok {
                            let rest = spec_types_from(cells.skip(i + 1), i + 1)->Ok_0;
                            assert(before + (seq![t] + rest) =~= before.push(t) + rest);
                        }
                    }
                },
                Err(e) => {
                    return Err(e);
                },
            },
            RawCell::Other(_) => {
                return Err(ConfigError::ExpectedString(1, i));
            },
        }
        i = i + 1;
    }
    proof {
        assert(cells.skip(row@.len() as int).len() == 0);
        assert(out@ + Seq::<CellType>::empty() =~= out@);
        assert(out.deep_view() =~= out@);
    }
    Ok(out)
}

fn keys_from_row(row: &Vec<RawCell>) -> (r: Result<Vec<KeyType>, ConfigError>)
    ensures
        crate::error::res_matches(r, spec_keys_from(row.deep_view(), 0)),
{
    let ghost cells = row.deep_view();
    let mut out: Vec<KeyType> = Vec::new();
    let mut i: usize = 0;
    proof {
        assert(cells.skip(0) =~= cells);
        if spec_keys_from(cells, 0) is Ok {
            let whole = spec_keys_from(cells, 0)->Ok_0;
            assert(out@ + whole =~= whole);
        }
    }
    while i < row.len()
        invariant
            i <= row@.len(),
            cells == row.deep_view(),
            spec_keys_from(cells, 0) == match spec_keys_from(cells.skip(i as int), i as int) {
                Ok(rest) => Ok::<Seq<KeyType>, ErrorView>(out@ + rest),
                Err(e) => Err::<Seq<KeyType>, ErrorView>(e),
            },
        decreases row@.len() - i,
    {
        proof {
            assert(cells.skip(i as int)[0] == cells[i as int]);
            assert(cells[i as int] == row@[i as int]@);
            assert(cells.skip(i as int).drop_first() =~= cells.skip(i + 1));
        }
        match &row[i] {
            RawCell::Text(s) => match key_type_from_label(s.as_str()) {
                Ok(t) => {
                    let ghost before = out@;
                    out.push(t);
                    proof {
                        if spec_keys_from(cells.skip(i + 1), i + 1) is Ok {
                            let rest = spec_keys_from(cells.skip(i + 1), i + 1)->Ok_0;
                            assert(before + (seq![t] + rest) =~= before.push(t) + rest);
                        }
                    }
                },
                Err(e) => {
                    return Err(e);
                },
            },
            RawCell::Other(_) => {
                return Err(ConfigError::ExpectedString(2, i));
            },
        }
        i = i + 1;
    }
    proof {
        assert(cells.skip(row@.len() as int).len() == 0);
        assert(out@ + Seq::<KeyType>::empty() =~= out@);
        assert(out.deep_view() =~= out@);
    }
    Ok(out)
}

fn row_texts(row: &Vec<RawCell>) -> (r: Vec<String>)
    ensures
        r.deep_view() == row.deep_view().map_values(|c: RawCellView| cell_text(c)),
{
    let ghost cells = row.deep_view();
    let mut out: Vec<String> = Vec::new();
    let mut i: usize = 0;
    proof {
        assert(out.deep_view() =~= cells.take(0).map_values(|c: RawCellView| cell_text(c)));
    }
    while i < row.len()
        invariant
            i <= row@.len(),
            cells == row.deep_view(),
            out.deep_view() == cells.take(i as int).map_values(|c: RawCellView| cell_text(c)),
        decreases row@.len() - i,
    {
        proof {
            assert(cells[i as int] == row@[i as int]@);
        }
        let t = match &row[i] {
            RawCell::Text(s) => s.clone(),
            RawCell::Other(s) => s.clone(),
        };
        let ghost before = out.deep_view();
        out.push(t);
        proof {
            assert(out.deep_view() =~= before.push(t@));
            assert(cells.take(i + 1).map_values(|c: RawCellView| cell_text(c)) =~= before.push(
                t@,
            ));
        }
        i = i + 1;
    }
    proof {
        assert(cells.take(cells.len() as int) =~= cells);
    }
    out
}

/// Builds one table from the raw rows of a sheet and applies the audience
/// filter. A schema error is returned as it stands; a table whose visibility
/// row marks no key column is dropped, not an error.
pub fn compile_game_config(name: &str, rows: &Vec<Vec<RawCell>>, aud: Audience) -> (r: Result<
    Option<GameConfig>,
    ConfigError,
>)
    ensures
        match spec_build_config(name@, rows.deep_view()) {
            Err(e) => r matches Err(err) && err@ == e,
            Ok(c) => if has_key_tag(c.key_type) {
                r matches Ok(cfg) && cfg matches Some(g) && g@ == spec_filter_config(c, aud)
            } else {
                r matches Ok(cfg) && cfg is None
            },
        },
{
    let ghost rvs = rows.deep_view();
    let empty_raw: Vec<RawCell> = Vec::new();
    proof {
        assert(empty_raw.deep_view() =~= Seq::<RawCellView>::empty());
        if rows@.len() > 0 {
            assert(rvs[0] == rows@[0].deep_view());
        }
        if rows@.len() > 1 {
            assert(rvs[1] == rows@[1].deep_view());
        }
        if rows@.len() > 2 {
            assert(rvs[2] == rows@[2].deep_view());
        }
    }
    let cell_name = match names_from_row(if rows.len() > 0 {
        &rows[0]
    } else {
        &empty_raw
    }) {
        Ok(v) => v,
        Err(e) => {
            return Err(e);
        },
    };
    let cell_type = match types_from_row(if rows.len() > 1 {
        &rows[1]
    } else {
        &empty_raw
    }) {
        Ok(v) => v,
        Err(e) => {
            return Err(e);
        },
    };
    let key_type = match keys_from_row(if rows.len() > 2 {
        &rows[2]
    } else {
        &empty_raw
    }) {
        Ok(v) => v,
        Err(e) => {
            return Err(e);
        },
    };
    if !any_key_tag(&key_type) {
        return Ok(None);
    }
    let mut data: Vec<Vec<String>> = Vec::new();
    let mut i: usize = 5;
    let ghost dstart: int = if rvs.len() > 5 {
        5
    } else {
        rvs.len() as int
    };
    proof {
        assert(data.deep_view() =~= spec_data_rows(rvs.skip(dstart).take(0)));
    }
    while i < rows.len()
        invariant
            5 <= i,
            i <= rows@.len() || i == 5,
            rvs == rows.deep_view(),
            dstart == if rvs.len() > 5 {
                5int
            } else {
                rvs.len() as int
            },
            i >= dstart,
            i <= rvs.len() ==> data.deep_view() == spec_data_rows(
                rvs.skip(dstart).take(i - dstart),
            ),
            i > rvs.len() ==> data.deep_view() == spec_data_rows(rvs.skip(dstart).take(0)),
        decreases rows@.len() - i,
    {
        proof {
            assert(rvs.skip(5)[i - 5] == rvs[i as int]);
            assert(rvs[i as int] == rows@[i as int].deep_view());
        }
        let texts = row_texts(&rows[i]);
        let ghost before = data.deep_view();
        data.push(texts);
        proof {
            assert(data.deep_view() =~= before.push(texts.deep_view()));
            assert(spec_data_rows(rvs.skip(5).take(i + 1 - 5)) =~= before.push(
                texts.deep_view(),
            ));
        }
        i = i + 1;
    }
    proof {
        if rvs.len() > 5 {
            assert(rvs.skip(5).take(rvs.len() - 5) =~= rvs.skip(5));
        } else {
            assert(data.deep_view() =~= Seq::<Seq<Seq<char>>>::empty());
        }
    }
    let built = GameConfig {
        name: String::from_str(name),
        cell_name,
        key_type,
        cell_type,
        data,
    };
    proof {
        let c = spec_build_config(name@, rvs)->Ok_0;
        assert(built.key_type.deep_view() =~= built.key_type@);
        assert(built.cell_type.deep_view() =~= built.cell_type@);
        assert(built@ =~~= c);
    }
    let filtered = filter_columns(&built, aud);
    Ok(Some(filtered))
}

} // verus!
