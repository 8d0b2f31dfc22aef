//! Extracting the point sequence that a selected column plots as.

use vstd::prelude::*;

use crate::numeric::{cell_numeric, parse_decimal, spec_dec, Decimal};
use crate::split::views;
use crate::table::Table;

verus! {

/// One plotted point: `x` is the row index, `y` the cell's value.
#[derive(Clone, Copy, Debug, PartialEq, Eq, Structural)]
pub struct PlotPoint {
    pub x: usize,
    pub y: Decimal,
}

/// Why a selected column could not be plotted.
#[derive(Clone, Copy, Debug, PartialEq, Eq, Structural)]
pub enum PlotError {
    /// No column of the table has the selected name.
    NoSuchColumn,
    /// The cell at `row` is not a decimal number.
    NotNumeric { row: usize },
}

/// The first index at which `name` occurs in `names`, or -1 when it is absent.
pub open spec fn first_match(names: Seq<Seq<char>>, name: Seq<char>) -> int
    decreases names.len(),
{
    if names.len() == 0 {
        -1
    } else if names[0] == name {
        0
    } else {
        let r = first_match(names.drop_first(), name);
        if r < 0 {
            -1
        } else {
            r + 1
        }
    }
}

pub proof fn lemma_first_match(names: Seq<Seq<char>>, name: Seq<char>)
    ensures
        first_match(names, name) == -1 ==> (forall|i: int|
            0 <= i < names.len() ==> names[i] != name),
        first_match(names, name) != -1 ==> {
            let r = first_match(names, name);
            &&& 0 <= r < names.len()
            &&& names[r] == name
            &&& forall|i: int| 0 <= i < r ==> names[i] != name
        },
    decreases names.len(),
{
    if names.len() > 0 && names[0] != name {
        let t = names.drop_first();
        lemma_first_match(t, name);
        let rt = first_match(t, name);
        if rt == -1 {
            assert forall|i: int| 0 <= i < names.len() implies names[i] != name by {
                if i > 0 {
                    assert(t[i - 1] == names[i]);
                }
            }
        } else {
            assert(names[rt + 1] == t[rt]);
            assert forall|i: int| 0 <= i < rt + 1 implies names[i] != name by {
                if i > 0 {
                    assert(t[i - 1] == names[i]);
                }
            }
        }
    }
}

/// The first row whose cell is not numeric, or -1 when every cell is.
pub open spec fn first_bad_cell(col: Seq<Seq<char>>) -> int
    decreases col.len(),
{
    if col.len() == 0 {
        -1
    } else if !cell_numeric(col[0]) {
        0
    } else {
        let r = first_bad_cell(col.drop_first());
        if r < 0 {
            -1
        } else {
            r + 1
        }
    }
}

pub proof fn lemma_first_bad_cell(col: Seq<Seq<char>>)
    ensures
        first_bad_cell(col) == -1 ==> (forall|i: int|
            0 <= i < col.len() ==> cell_numeric(#[trigger] col[i])),
        first_bad_cell(col) != -1 ==> {
            let r = first_bad_cell(col);
            &&& 0 <= r < col.len()
            &&& !cell_numeric(col[r])
            &&& forall|i: int| 0 <= i < r ==> cell_numeric(#[trigger] col[i])
        },
    decreases col.len(),
{
    if col.len() > 0 && cell_numeric(col[0]) {
        let t = col.drop_first();
        lemma_first_bad_cell(t);
        let rt = first_bad_cell(t);
        if rt == -1 {
            assert forall|i: int| 0 <= i < col.len() implies cell_numeric(#[trigger] col[i]) by {
                if i > 0 {
                    assert(t[i - 1] == col[i]);
                }
            }
        } else {
            assert(col[rt + 1] == t[rt]);
            assert forall|i: int| 0 <= i < rt + 1 implies cell_numeric(#[trigger] col[i]) by {
                if i > 0 {
                    assert(t[i - 1] == col[i]);
                }
            }
        }
    }
}

/// What plotting column `name` of `t` yields: the error when the name is
/// absent or a cell is not numeric, else one point per row, `x` the row
/// index and `y` the row's value in that column.
pub open spec fn spec_render(t: Table, name: Seq<char>) -> Result<Seq<PlotPoint>, PlotError> {
    let idx = first_match(t.spec_names(), name);
    if idx < 0 {
        Err(PlotError::NoSuchColumn)
    } else {
        let col = t.spec_col(idx);
        let bad = first_bad_cell(col);
        if bad >= 0 {
            Err(PlotError::NotNumeric { row: bad as usize })
        } else {
            Ok(Seq::new(col.len(), |i: int| (PlotPoint { x: i as usize, y: spec_dec(col[i]) })))
        }
    }
}

/// The index of the first column named `name`, when there is one.
pub fn find_column(t: &Table, name: &String) -> (r: Option<usize>)
    ensures
        match r {
            Some(i) => first_match(t.spec_names(), name@) == i,
            None => first_match(t.spec_names(), name@) == -1,
        },
{
    let mut ci: usize = 0;
    while ci < t.columns.len()
        invariant
            ci <= t.columns@.len(),
            forall|j: int| 0 <= j < ci ==> t.spec_names()[j] != name@,
        decreases t.columns@.len() - ci,
    {
        if t.columns[ci].name.eq(name) {
            proof {
                lemma_first_match(t.spec_names(), name@);
                assert(t.spec_names()[ci as int] == name@);
            }
            return Some(ci);
        }
        proof {
            assert(t.spec_names()[ci as int] == t.columns@[ci as int].name@);
        }
        ci = ci + 1;
    }
    proof {
        lemma_first_match(t.spec_names(), name@);
    }
    None
}

/// Plot column `name` of `t`: exactly the points of `spec_render`.
///
/// A name no column has, or a cell that is not a decimal number, is reported
/// as the corresponding error rather than ending the process.
pub fn render_plot(t: &Table, name: &String) -> (r: Result<Vec<PlotPoint>, PlotError>)
    requires
        t.wf(),
    ensures
        r matches Ok(points) ==> spec_render(*t, name@) == Ok::<Seq<PlotPoint>, PlotError>(points@),
        r matches Ok(points) ==> points@.len() == t.row_count && (forall|i: int|
            0 <= i < points@.len() ==> (#[trigger] points@[i]).x == i),
        r matches Err(e) ==> spec_render(*t, name@) == Err::<Seq<PlotPoint>, PlotError>(e),
{
    match find_column(t, name) {
        None => Err(PlotError::NoSuchColumn),
        Some(ci) => {
            let ghost gcol = t.spec_col(ci as int);
            proof {
                lemma_first_match(t.spec_names(), name@);
            }
            let col = &t.columns[ci];
            let n = col.values.len();
            let mut points: Vec<PlotPoint> = Vec::new();
            let mut j: usize = 0;
            while j < n
                invariant
                    t.wf(),
                    0 <= ci < t.columns@.len(),
                    first_match(t.spec_names(), name@) == ci as int,
                    gcol == t.spec_col(ci as int),
                    col == t.columns@[ci as int],
                    n == gcol.len(),
                    j <= n,
                    points@.len() == j,
                    forall|k: int| 0 <= k < j ==> cell_numeric(#[trigger] gcol[k]),
                    forall|k: int|
                        0 <= k < j ==> #[trigger] points@[k] == (PlotPoint {
                            x: k as usize,
                            y: spec_dec(gcol[k]),
                        }),
                decreases n - j,
            {
                proof {
                    assert(views(col.values@)[j as int] == col.values@[j as int]@);
                    assert(gcol[j as int] == col.values@[j as int]@);
                }
                match parse_decimal(col.values[j].as_str()) {
                    Some(d) => {
                        points.push(PlotPoint { x: j, y: d });
                    },
                    None => {
                        proof {
                            lemma_first_bad_cell(gcol);
                            let bad = first_bad_cell(gcol);
                            assert(!cell_numeric(gcol[j as int]));
                            if bad == -1 {
                                assert(cell_numeric(gcol[j as int]));
                            }
                            if 0 <= bad < j {
                                assert(cell_numeric(gcol[bad]));
                            }
                            if bad > j {
                                assert(cell_numeric(gcol[j as int]));
                            }
                            assert(bad == j);
                        }
                        return Err(PlotError::NotNumeric { row: j });
                    },
                }
                j = j + 1;
            }
            proof {
                lemma_first_bad_cell(gcol);
                if first_bad_cell(gcol) != -1 {
                    assert(cell_numeric(gcol[first_bad_cell(gcol)]));
                }
                assert(points@ =~= Seq::new(
                    gcol.len(),
                    |i: int| (PlotPoint { x: i as usize, y: spec_dec(gcol[i]) }),
                ));
            }
            Ok(points)
        },
    }
}

/// Plotting a column that every row holds a number in yields one point per
/// table row, with x-values 0, 1, ... in row order.
pub proof fn lemma_plot_covers_rows(t: Table, name: Seq<char>)
    requires
        t.wf(),
        first_match(t.spec_names(), name) >= 0,
        forall|i: int|
            0 <= i < t.row_count ==> cell_numeric(
                #[trigger] t.spec_col(first_match(t.spec_names(), name))[i],
            ),
    ensures
        spec_render(t, name) matches Ok(points) && points.len() == t.row_count && (forall|i: int|
            0 <= i < t.row_count ==> (#[trigger] points[i]).x == i),
{
    let idx = first_match(t.spec_names(), name);
    lemma_first_match(t.spec_names(), name);
    let col = t.spec_col(idx);
    assert(col.len() == t.row_count);
    lemma_first_bad_cell(col);
    if first_bad_cell(col) != -1 {
        assert(cell_numeric(col[first_bad_cell(col)]));
    }
}

/// A table without rows plots as the empty point sequence, not as an error.
pub proof fn lemma_zero_rows_plot_empty(t: Table, name: Seq<char>)
    requires
        t.wf(),
        t.row_count == 0,
        first_match(t.spec_names(), name) >= 0,
    ensures
        spec_render(t, name) == Ok::<Seq<PlotPoint>, PlotError>(Seq::<PlotPoint>::empty()),
{
    let idx = first_match(t.spec_names(), name);
    lemma_first_match(t.spec_names(), name);
    let col = t.spec_col(idx);
    assert(col.len() == 0);
    lemma_first_bad_cell(col);
    if first_bad_cell(col) != -1 {
        assert(cell_numeric(col[first_bad_cell(col)]));
    }
    assert(Seq::new(col.len(), |i: int| (PlotPoint { x: i as usize, y: spec_dec(col[i]) }))
        =~= Seq::<PlotPoint>::empty());
}

/// Selecting a name that no column of the table has yields the explicit
/// error, a defined outcome.
pub proof fn lemma_absent_column_is_error(t: Table, name: Seq<char>)
    requires
        forall|i: int| 0 <= i < t.spec_names().len() ==> t.spec_names()[i] != name,
    ensures
        spec_render(t, name) == Err::<Seq<PlotPoint>, PlotError>(PlotError::NoSuchColumn),
{
    lemma_first_match(t.spec_names(), name);
    if first_match(t.spec_names(), name) != -1 {
        assert(t.spec_names()[first_match(t.spec_names(), name)] == name);
    }
}

} // verus!
