//! The columnar table and the loader that parses whitespace-delimited,
//! headerless text into it.

use vstd::prelude::*;

use crate::chars::digits_of;
use crate::split::{join_char, lemma_join_push_empty, lemma_split_char_len, lemma_split_join, split_char, split_str, views};

verus! {

/// One named column of cell texts.
#[derive(Debug)]
pub struct Column {
    pub name: String,
    pub values: Vec<String>,
}

/// An ordered sequence of named columns, all of the same length.
#[derive(Debug)]
pub struct Table {
    pub columns: Vec<Column>,
    pub row_count: usize,
}

/// Why a file could not be loaded as a table.
#[derive(Clone, Copy, Debug, PartialEq, Eq, Structural)]
pub enum LoadError {
    /// The file could not be read at all. The loader itself never returns
    /// this; the caller that does the reading reports it through this type.
    Unreadable,
    /// Row `row` does not have the same number of fields as the first row.
    InconsistentRow { row: usize, expected: usize, found: usize },
}

impl Table {
    /// Every column holds one value per row.
    pub open spec fn wf(self) -> bool {
        forall|c: int|
            0 <= c < self.columns@.len() ==> (#[trigger] self.columns@[c]).values@.len()
                == self.row_count
    }

    /// The column names, in table order.
    pub open spec fn spec_names(self) -> Seq<Seq<char>> {
        self.columns@.map_values(|c: Column| c.name@)
    }

    /// The values of column `c`, in row order.
    pub open spec fn spec_col(self, c: int) -> Seq<Seq<char>> {
        views(self.columns@[c].values@)
    }

    /// The cell text at row `r` of column `c`.
    pub open spec fn spec_cell(self, r: int, c: int) -> Seq<char> {
        self.columns@[c].values@[r]@
    }

    /// The column names as owned strings, in table order.
    pub fn column_names(&self) -> (names: Vec<String>)
        ensures
            views(names@) == self.spec_names(),
    {
        let mut names: Vec<String> = Vec::new();
        let mut i: usize = 0;
        while i < self.columns.len()
            invariant
                i <= self.columns@.len(),
                names@.len() == i,
                forall|j: int| 0 <= j < i ==> (#[trigger] names@[j])@ == self.columns@[j].name@,
            decreases self.columns@.len() - i,
        {
            names.push(self.columns[i].name.clone());
            i = i + 1;
        }
        proof {
            assert(views(names@) =~~= self.spec_names());
        }
        names
    }

}

/// The lines of the text: the parts between newlines, a single trailing
/// newline ending the last line rather than opening an empty one.
pub open spec fn spec_lines(content: Seq<char>) -> Seq<Seq<char>> {
    let parts = split_char(content, '\n');
    if parts.last().len() == 0 {
        parts.drop_last()
    } else {
        parts
    }
}

/// The field matrix of the text: each line split at single spaces.
pub open spec fn spec_rows(content: Seq<char>) -> Seq<Seq<Seq<char>>> {
    spec_lines(content).map_values(|l: Seq<char>| split_char(l, ' '))
}

/// Whether every row has as many fields as the first one.
pub open spec fn rows_consistent(rows: Seq<Seq<Seq<char>>>) -> bool {
    forall|r: int| 0 <= r < rows.len() ==> (#[trigger] rows[r]).len() == rows[0].len()
}

/// The common field count, zero for an empty text.
pub open spec fn spec_width(content: Seq<char>) -> int {
    if spec_rows(content).len() == 0 {
        0
    } else {
        spec_rows(content)[0].len() as int
    }
}

/// The generated name of column `c` (the first column is `column_1`).
pub open spec fn col_name(c: nat) -> Seq<char> {
    "column_"@ + digits_of(c + 1)
}

/// Parse `content` as headerless rows of fields separated by single spaces.
///
/// On success the table holds exactly the fields of the text, in file order:
/// row `r` of column `c` is field `c` of line `r`, and the columns are named
/// `column_1`, `column_2`, ... It fails exactly when some row has a field
/// count different from the first row's, and reports the first such row.
pub fn load_table(content: &str) -> (res: Result<Table, LoadError>)
    ensures
        ({
            let rows = spec_rows(content@);
            match res {
                Ok(t) => rows_consistent(rows) && t.wf() && t.row_count == rows.len()
                    && t.columns@.len() == spec_width(content@) && (forall|c: int|
                    0 <= c < t.columns@.len() ==> (#[trigger] t.columns@[c]).name@ == col_name(
                        c as nat,
                    )) && (forall|r: int, c: int|
                    0 <= r < rows.len() && 0 <= c < t.columns@.len() ==> t.spec_cell(r, c)
                        == #[trigger] rows[r][c]),
                Err(e) => !rows_consistent(rows) && match e {
                    LoadError::InconsistentRow { row, expected, found } => 0 < row < rows.len()
                        && expected == rows[0].len() && found == rows[row as int].len() && found
                        != expected && (forall|j: int|
                        0 <= j < row ==> (#[trigger] rows[j]).len() == expected),
                    LoadError::Unreadable => false,
                },
            }
        }),
{
    let ghost grows = spec_rows(content@);
    let mut lines = split_str(content, '\n');
    let n_parts = lines.len();
    if lines[n_parts - 1].as_str().is_empty() {
        lines.pop();
    }
    proof {
        assert(views(lines@) =~~= spec_lines(content@));
        assert(grows.len() == lines@.len());
    }

    let mut rows: Vec<Vec<String>> = Vec::new();
    let mut r: usize = 0;
    while r < lines.len()
        invariant
            views(lines@) == spec_lines(content@),
            grows == spec_rows(content@),
            grows.len() == lines@.len(),
            r <= lines@.len(),
            rows@.len() == r,
            forall|j: int| 0 <= j < r ==> views((#[trigger] rows@[j])@) == grows[j],
            forall|j: int| 0 <= j < r ==> (#[trigger] grows[j]).len() == grows[0].len(),
        decreases lines@.len() - r,
    {
        let fields = split_str(lines[r].as_str(), ' ');
        proof {
            assert(grows[r as int] == split_char(views(lines@)[r as int], ' '));
            assert(views(fields@).len() == fields@.len());
        }
        if r > 0 && fields.len() != rows[0].len() {
            let expected = rows[0].len();
            proof {
                assert(grows[0].len() == views(rows@[0]@).len());
                assert(grows[r as int].len() == views(fields@).len());
            }
            return Err(
                LoadError::InconsistentRow { row: r, expected, found: fields.len() },
            );
        }
        rows.push(fields);
        r = r + 1;
    }

    let n_rows = rows.len();
    let width = if n_rows == 0 {
        0
    } else {
        rows[0].len()
    };
    proof {
        assert(width == spec_width(content@));
    }
    let mut columns: Vec<Column> = Vec::new();
    let mut c: usize = 0;
    while c < width
        invariant
            grows == spec_rows(content@),
            n_rows == grows.len(),
            n_rows == rows@.len(),
            forall|j: int| 0 <= j < n_rows ==> views((#[trigger] rows@[j])@) == grows[j],
            forall|j: int| 0 <= j < n_rows ==> (#[trigger] rows@[j])@.len() == width,
            c <= width,
            columns@.len() == c,
            forall|cc: int|
                0 <= cc < c ==> (#[trigger] columns@[cc]).name@ == col_name(cc as nat),
            forall|cc: int| 0 <= cc < c ==> (#[trigger] columns@[cc]).values@.len() == n_rows,
            forall|cc: int, j: int|
                0 <= cc < c && 0 <= j < n_rows ==> #[trigger] columns@[cc].values@[j]@
                    == grows[j][cc],
        decreases width - c,
    {
        let mut vals: Vec<String> = Vec::new();
        let mut j: usize = 0;
        while j < n_rows
            invariant
                grows == spec_rows(content@),
                n_rows == grows.len(),
                n_rows == rows@.len(),
                forall|jj: int| 0 <= jj < n_rows ==> views((#[trigger] rows@[jj])@) == grows[jj],
                forall|jj: int| 0 <= jj < n_rows ==> (#[trigger] rows@[jj])@.len() == width,
                c < width,
                j <= n_rows,
                vals@.len() == j,
                forall|t: int| 0 <= t < j ==> (#[trigger] vals@[t])@ == grows[t][c as int],
            decreases n_rows - j,
        {
            let cell = rows[j][c].clone();
            proof {
                assert(views(rows@[j as int]@)[c as int] == grows[j as int][c as int]);
            }
            vals.push(cell);
            j = j + 1;
        }
        let mut name = "column_".to_owned();
        name.append(crate::chars::format_usize(c + 1).as_str());
        columns.push(Column { name, values: vals });
        c = c + 1;
    }
    let t = Table { columns, row_count: n_rows };
    proof {
        assert(rows_consistent(grows));
        assert(t.wf());
    }
    Ok(t)
}

/// The text that the field matrix of `content` denotes: each row's fields
/// joined with spaces, the rows joined with newlines.
pub open spec fn spec_unparsed(content: Seq<char>) -> Seq<char> {
    join_char(spec_rows(content).map_values(|row: Seq<Seq<char>>| join_char(row, ' ')), '\n')
}

/// The table a text loads as holds exactly the text's fields: joining them
/// back gives the text, up to one trailing newline.
pub proof fn lemma_fields_reproduce_content(content: Seq<char>)
    ensures
        spec_unparsed(content) == content || spec_unparsed(content) + seq!['\n'] == content,
{
    let parts = split_char(content, '\n');
    lemma_split_join(content, '\n');
    lemma_split_char_len(content, '\n');
    let lines = spec_lines(content);
    assert forall|i: int| 0 <= i < lines.len() implies join_char(
        #[trigger] spec_rows(content)[i],
        ' ',
    ) == lines[i] by {
        lemma_split_join(lines[i], ' ');
    }
    assert(spec_rows(content).map_values(|row: Seq<Seq<char>>| join_char(row, ' ')) =~= lines);
    if parts.last().len() == 0 {
        assert(parts =~~= lines.push(Seq::<char>::empty()));
        if lines.len() == 0 {
            assert(parts =~~= seq![Seq::<char>::empty()]);
            assert(join_char(parts, '\n') =~= Seq::<char>::empty());
            assert(spec_unparsed(content) =~= content);
        } else {
            lemma_join_push_empty(lines, '\n');
            assert(spec_unparsed(content) + seq!['\n'] == content);
        }
    } else {
        assert(parts =~~= lines);
        assert(spec_unparsed(content) == content);
    }
}

} // verus!
