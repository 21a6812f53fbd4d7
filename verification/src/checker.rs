//! Cell and dataset validation.
//!
//! Validation is batched, never fail-fast: every malformed cell across every
//! row of every table is collected, so one run surfaces all data-entry
//! mistakes at once.

use vstd::prelude::*;

use crate::convert::LuaWriter;
use crate::convert::spec_lua_write;
use crate::error::ConfigError;
use crate::error::ErrorView;
use crate::error::res_matches;
use crate::excel_define::CellType;
use crate::excel_define::GameConfig;
use crate::excel_define::GameConfigView;
use crate::excel_define::GameConfigs;

verus! {

/// Whether one raw cell is valid under the given cell type: exactly when the
/// codec parses it; the value itself is discarded.
pub open spec fn spec_check_cell(ty: CellType, s: Seq<char>) -> Result<(), ErrorView> {
    match spec_lua_write(ty, s) {
        Ok(_) => Ok(()),
        Err(e) => Err(e),
    }
}

/// Validates one raw cell against a cell type.
pub fn check_cell(ty: &CellType, data: &String) -> (r: Result<(), ConfigError>)
    ensures
        res_matches(r, spec_check_cell(*ty, data@)),
{
    match LuaWriter::write(ty, data) {
        Ok(_) => Ok(()),
        Err(e) => Err(e),
    }
}

/// A validator from an input to an output; `CellChecker` is the instance for
/// single cells.
pub trait Checker {
    type Input;

    type Output;

    fn check(&self, input: Self::Input) -> Result<Self::Output, ConfigError>;
}

/// Validates one `(cell type, raw cell)` pair.
pub struct CellChecker;

impl Checker for CellChecker {
    type Input = (CellType, String);

    type Output = ();

    fn check(&self, input: (CellType, String)) -> (r: Result<(), ConfigError>)
        ensures
            res_matches(r, spec_check_cell(input.0, input.1@)),
    {
        check_cell(&input.0, &input.1)
    }
}

/// The errors of the cells of one row, paired positionally with the column
/// types; a surplus of cells or of types is ignored here.
pub open spec fn spec_cells_errors(tys: Seq<CellType>, row: Seq<Seq<char>>) -> Seq<ErrorView>
    decreases tys.len(),
{
    if tys.len() == 0 || row.len() == 0 {
        Seq::empty()
    } else {
        (match spec_check_cell(tys[0], row[0]) {
            Ok(_) => Seq::<ErrorView>::empty(),
            Err(e) => seq![e],
        }) + spec_cells_errors(tys.drop_first(), row.drop_first())
    }
}

/// The errors of one data row: a row whose cell count differs from the
/// column count contributes one arity error, and then every malformed cell
/// among the positionally paired ones contributes its own.
pub open spec fn spec_row_errors(tys: Seq<CellType>, row: Seq<Seq<char>>) -> Seq<ErrorView> {
    (if row.len() != tys.len() {
        seq![ErrorView::RowArityMismatch(tys.len() as int, row.len() as int)]
    } else {
        Seq::<ErrorView>::empty()
    }) + spec_cells_errors(tys, row)
}

/// The errors of the rows of one table, in row order.
pub open spec fn spec_rows_errors(tys: Seq<CellType>, rows: Seq<Seq<Seq<char>>>) -> Seq<ErrorView>
    decreases rows.len(),
{
    if rows.len() == 0 {
        Seq::empty()
    } else {
        spec_row_errors(tys, rows[0]) + spec_rows_errors(tys, rows.drop_first())
    }
}

/// The errors of one table.
pub open spec fn spec_config_errors(c: GameConfigView) -> Seq<ErrorView> {
    spec_rows_errors(c.cell_type, c.data)
}

/// The errors of every table of a dataset, in table order.
pub open spec fn spec_dataset_errors(tables: Seq<GameConfigView>) -> Seq<ErrorView>
    decreases tables.len(),
{
    if tables.len() == 0 {
        Seq::empty()
    } else {
        spec_config_errors(tables[0]) + spec_dataset_errors(tables.drop_first())
    }
}

fn check_row(tys: &Vec<CellType>, row: &Vec<String>, errors: &mut Vec<ConfigError>)
    ensures
        final(errors).deep_view() == old(errors).deep_view() + spec_row_errors(
            tys@,
            row.deep_view(),
        ),
{
    let ghost row_views = row.deep_view();
    if row.len() != tys.len() {
        errors.push(ConfigError::RowArityMismatch(tys.len(), row.len()));
    }
    let ghost base = errors.deep_view();
    let n = if row.len() < tys.len() {
        row.len()
    } else {
        tys.len()
    };
    let mut i: usize = 0;
    proof {
        assert(tys@.skip(0) =~= tys@);
        assert(row_views.skip(0) =~= row_views);
    }
    while i < n
        invariant
            i <= n,
            n == if row_views.len() < tys@.len() {
                row_views.len()
            } else {
                tys@.len()
            },
            row_views == row.deep_view(),
            base + spec_cells_errors(tys@, row_views) == errors.deep_view() + spec_cells_errors(
                tys@.skip(i as int),
                row_views.skip(i as int),
            ),
        decreases n - i,
    {
        proof {
            assert(tys@.skip(i as int)[0] == tys@[i as int]);
            assert(row_views.skip(i as int)[0] == row_views[i as int]);
            assert(row_views[i as int] == row@[i as int]@);
            assert(tys@.skip(i as int).drop_first() =~= tys@.skip(i + 1));
            assert(row_views.skip(i as int).drop_first() =~= row_views.skip(i + 1));
        }
        let ghost before = errors.deep_view();
        match check_cell(&tys[i], &row[i]) {
            Ok(_) => {
                proof {
                    assert(before + (Seq::<ErrorView>::empty() + spec_cells_errors(
                        tys@.skip(i + 1),
                        row_views.skip(i + 1),
                    )) =~= before + spec_cells_errors(tys@.skip(i + 1), row_views.skip(i + 1)));
                }
            },
            Err(e) => {
                errors.push(e);
                proof {
                    assert(errors.deep_view() =~= before.push(e@));
                    assert(before + (seq![e@] + spec_cells_errors(
                        tys@.skip(i + 1),
                        row_views.skip(i + 1),
                    )) =~= before.push(e@) + spec_cells_errors(
                        tys@.skip(i + 1),
                        row_views.skip(i + 1),
                    ));
                }
            },
        }
        i = i + 1;
    }
    proof {
        assert(spec_cells_errors(tys@.skip(n as int), row_views.skip(n as int)) =~= Seq::<
            ErrorView,
        >::empty());
        assert(errors.deep_view() + Seq::<ErrorView>::empty() =~= errors.deep_view());
        assert(old(errors).deep_view() + spec_row_errors(tys@, row_views) =~= base
            + spec_cells_errors(tys@, row_views));
    }
}

fn check_config(config: &GameConfig, errors: &mut Vec<ConfigError>)
    ensures
        final(errors).deep_view() == old(errors).deep_view() + spec_config_errors(config@),
{
    let ghost rows_views = config.data.deep_view();
    let mut i: usize = 0;
    proof {
        assert(rows_views.skip(0) =~= rows_views);
    }
    while i < config.data.len()
        invariant
            i <= config.data@.len(),
            rows_views == config.data.deep_view(),
            old(errors).deep_view() + spec_rows_errors(config@.cell_type, rows_views)
                == errors.deep_view() + spec_rows_errors(
                config@.cell_type,
                rows_views.skip(i as int),
            ),
        decreases config.data@.len() - i,
    {
        proof {
            assert(rows_views.skip(i as int)[0] == rows_views[i as int]);
            assert(rows_views[i as int] == config.data@[i as int].deep_view());
            assert(rows_views.skip(i as int).drop_first() =~= rows_views.skip(i + 1));
        }
        let ghost before = errors.deep_view();
        check_row(&config.cell_type, &config.data[i], errors);
        proof {
            assert(before + (spec_row_errors(config@.cell_type, rows_views[i as int])
                + spec_rows_errors(config@.cell_type, rows_views.skip(i + 1))) =~= (before
                + spec_row_errors(config@.cell_type, rows_views[i as int])) + spec_rows_errors(
                config@.cell_type,
                rows_views.skip(i + 1),
            ));
        }
        i = i + 1;
    }
    proof {
        assert(spec_rows_errors(config@.cell_type, rows_views.skip(rows_views.len() as int))
            =~= Seq::<ErrorView>::empty());
        assert(errors.deep_view() + Seq::<ErrorView>::empty() =~= errors.deep_view());
    }
}

/// Validates every cell of every table. Returns all collected errors, in
/// table, row and column order, and succeeds exactly when there are none.
pub fn check_data_type(configs: &GameConfigs) -> (r: Result<(), Vec<ConfigError>>)
    ensures
        match r {
            Ok(_) => spec_dataset_errors(configs@.data).len() == 0,
            Err(es) => es.deep_view() == spec_dataset_errors(configs@.data) && es@.len() > 0,
        },
{
    let ghost tables = configs.data.deep_view();
    let mut errors: Vec<ConfigError> = Vec::new();
    let mut i: usize = 0;
    proof {
        assert(tables.skip(0) =~= tables);
        assert(errors.deep_view() =~= Seq::<ErrorView>::empty());
        assert(Seq::<ErrorView>::empty() + spec_dataset_errors(tables) =~= spec_dataset_errors(
            tables,
        ));
    }
    while i < configs.data.len()
        invariant
            i <= configs.data@.len(),
            tables == configs.data.deep_view(),
            spec_dataset_errors(tables) == errors.deep_view() + spec_dataset_errors(
                tables.skip(i as int),
            ),
        decreases configs.data@.len() - i,
    {
        proof {
            assert(tables.skip(i as int)[0] == tables[i as int]);
            assert(tables[i as int] == configs.data@[i as int].deep_view());
            assert(tables.skip(i as int).drop_first() =~= tables.skip(i + 1));
        }
        let ghost before = errors.deep_view();
        check_config(&configs.data[i], &mut errors);
        proof {
            assert(before + (spec_config_errors(tables[i as int]) + spec_dataset_errors(
                tables.skip(i + 1),
            )) =~= (before + spec_config_errors(tables[i as int])) + spec_dataset_errors(
                tables.skip(i + 1),
            ));
        }
        i = i + 1;
    }
    proof {
        assert(spec_dataset_errors(tables.skip(tables.len() as int)) =~= Seq::<ErrorView>::empty());
        assert(errors.deep_view() + Seq::<ErrorView>::empty() =~= errors.deep_view());
    }
    if errors.len() == 0 {
        proof {
            assert(errors.deep_view().len() == errors@.len());
        }
        Ok(())
    } else {
        Err(errors)
    }
}

/// The number of malformed cells of one row, over the positionally paired
/// columns.
pub open spec fn row_bad_cells(tys: Seq<CellType>, row: Seq<Seq<char>>) -> nat
    decreases tys.len(),
{
    if tys.len() == 0 || row.len() == 0 {
        0
    } else {
        (if spec_check_cell(tys[0], row[0]) is Err {
            1nat
        } else {
            0nat
        }) + row_bad_cells(tys.drop_first(), row.drop_first())
    }
}

/// The number of malformed cells of one table.
pub open spec fn table_bad_cells(tys: Seq<CellType>, rows: Seq<Seq<Seq<char>>>) -> nat
    decreases rows.len(),
{
    if rows.len() == 0 {
        0
    } else {
        row_bad_cells(tys, rows[0]) + table_bad_cells(tys, rows.drop_first())
    }
}

proof fn lemma_cells_error_count(tys: Seq<CellType>, row: Seq<Seq<char>>)
    ensures
        spec_cells_errors(tys, row).len() == row_bad_cells(tys, row),
    decreases tys.len(),
{
    if tys.len() > 0 && row.len() > 0 {
        lemma_cells_error_count(tys.drop_first(), row.drop_first());
    }
}

/// Batch-validation law: in a table whose rows all have the schema's arity, a
/// table with some number of malformed cells yields exactly that many
/// collected errors: none is lost to an early stop and none is duplicated.
pub proof fn lemma_batch_error_count(c: GameConfigView)
    requires
        forall|i: int| 0 <= i < c.data.len() ==> (#[trigger] c.data[i]).len() == c.cell_type.len(),
    ensures
        spec_config_errors(c).len() == table_bad_cells(c.cell_type, c.data),
{
    lemma_rows_error_count(c.cell_type, c.data);
}

proof fn lemma_rows_error_count(tys: Seq<CellType>, rows: Seq<Seq<Seq<char>>>)
    requires
        forall|i: int| 0 <= i < rows.len() ==> (#[trigger] rows[i]).len() == tys.len(),
    ensures
        spec_rows_errors(tys, rows).len() == table_bad_cells(tys, rows),
    decreases rows.len(),
{
    if rows.len() > 0 {
        assert(forall|i: int|
            0 <= i < rows.drop_first().len() ==> #[trigger] rows.drop_first()[i] == rows[i + 1]);
        lemma_rows_error_count(tys, rows.drop_first());
        lemma_cells_error_count(tys, rows[0]);
        assert(rows[0].len() == tys.len());
    }
}

} // verus!
