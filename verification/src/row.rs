//! Rows of the output table: every cell between double quotes, the cells
//! joined by the delimiter, the line closed by a line feed. Nothing inside a
//! cell is escaped.

use crate::fields::FieldMap;
use crate::text::{joined, strings};
use vstd::prelude::*;
use vstd::string::StringExecFns;

verus! {

/// `value` between two double quotes, as it stands.
pub open spec fn quoted(value: Seq<char>) -> Seq<char> {
    seq!['"'] + value + seq!['"']
}

/// What the field `name` shows in a row: its value, or nothing where it has
/// none.
pub open spec fn cell_value(found: Map<Seq<char>, Seq<char>>, name: Seq<char>) -> Seq<char> {
    if found.contains_key(name) {
        found[name]
    } else {
        Seq::empty()
    }
}

/// The quoted cells of the header: the field names themselves.
pub open spec fn header_cells(names: Seq<Seq<char>>) -> Seq<Seq<char>> {
    names.map_values(|name: Seq<char>| quoted(name))
}

/// The quoted cells of a row, in the order of `names`.
pub open spec fn row_cells(names: Seq<Seq<char>>, found: Map<Seq<char>, Seq<char>>) -> Seq<
    Seq<char>,
> {
    names.map_values(|name: Seq<char>| quoted(cell_value(found, name)))
}

/// The header line.
pub open spec fn header_text(names: Seq<Seq<char>>, delimiter: Seq<char>) -> Seq<char> {
    joined(header_cells(names), delimiter) + seq!['\n']
}

/// The line of one row.
pub open spec fn row_text(
    names: Seq<Seq<char>>,
    found: Map<Seq<char>, Seq<char>>,
    delimiter: Seq<char>,
) -> Seq<char> {
    joined(row_cells(names, found), delimiter) + seq!['\n']
}

/// Adds one quoted cell to a line, after the delimiter unless the cell is the
/// first of its line.
fn push_cell(line: &mut String, first: bool, delimiter: &str, value: &str)
    ensures
        final(line)@ == old(line)@ + (if first {
            Seq::empty()
        } else {
            delimiter@
        }) + quoted(value@),
{
    proof {
        reveal_strlit("\"");
    }
    if !first {
        line.append(delimiter);
    }
    line.append("\"");
    line.append(value);
    line.append("\"");
    assert("\""@ =~= seq!['"']);
    assert(line@ =~= old(line)@ + (if first {
        Seq::empty()
    } else {
        delimiter@
    }) + quoted(value@));
}

/// Joining one cell more: the cells before it, the delimiter unless there
/// are none, and the cell.
proof fn lemma_joined_push(cells: Seq<Seq<char>>, delimiter: Seq<char>, n: int)
    requires
        0 <= n < cells.len(),
    ensures
        joined(cells.take(n + 1), delimiter) == joined(cells.take(n), delimiter) + (if n == 0 {
            Seq::empty()
        } else {
            delimiter
        }) + cells[n],
{
    let longer = cells.take(n + 1);
    assert(longer.drop_last() =~= cells.take(n));
    assert(longer.last() == cells[n]);
    if n == 0 {
        assert(joined(cells.take(0), delimiter) =~= Seq::<char>::empty());
        assert(joined(longer, delimiter) =~= Seq::<char>::empty() + Seq::<char>::empty()
            + cells[n]);
    }
}

/// The header line for `fields`: each name between double quotes, joined by
/// `delimiter`, closed by a line feed.
pub fn encode_header(fields: &Vec<String>, delimiter: &str) -> (line: String)
    ensures
        line@ == header_text(strings(fields@), delimiter@),
{
    let ghost cells = header_cells(strings(fields@));
    let mut line = String::new();
    let mut i: usize = 0;
    assert(cells.take(0) =~= Seq::<Seq<char>>::empty());
    while i < fields.len()
        invariant
            i <= fields.len(),
            cells == header_cells(strings(fields@)),
            line@ == joined(cells.take(i as int), delimiter@),
        decreases fields.len() - i,
    {
        proof {
            lemma_joined_push(cells, delimiter@, i as int);
        }
        push_cell(&mut line, i == 0, delimiter, fields[i].as_str());
        i += 1;
    }
    assert(cells.take(i as int) =~= cells);
    line.append("\n");
    proof {
        reveal_strlit("\n");
        assert("\n"@ =~= seq!['\n']);
    }
    line
}

/// The line of one row: for each of `fields`, in order, its value in `found`
/// between double quotes, or an empty pair of quotes where it has none;
/// joined by `delimiter`, closed by a line feed.
pub fn encode_row(fields: &Vec<String>, found: &FieldMap, delimiter: &str) -> (line: String)
    ensures
        line@ == row_text(strings(fields@), found@, delimiter@),
{
    let ghost cells = row_cells(strings(fields@), found@);
    let mut line = String::new();
    let mut i: usize = 0;
    assert(cells.take(0) =~= Seq::<Seq<char>>::empty());
    while i < fields.len()
        invariant
            i <= fields.len(),
            cells == row_cells(strings(fields@), found@),
            line@ == joined(cells.take(i as int), delimiter@),
        decreases fields.len() - i,
    {
        proof {
            lemma_joined_push(cells, delimiter@, i as int);
        }
        match found.get(&fields[i]) {
            Some(value) => {
                push_cell(&mut line, i == 0, delimiter, value.as_str());
            },
            None => {
                push_cell(&mut line, i == 0, delimiter, "");
                proof {
                    reveal_strlit("");
                    assert(""@ =~= Seq::<char>::empty());
                }
            },
        }
        i += 1;
    }
    assert(cells.take(i as int) =~= cells);
    line.append("\n");
    proof {
        reveal_strlit("\n");
        assert("\n"@ =~= seq!['\n']);
    }
    line
}

/// The header is a row like any other: it is the row of the values that give
/// each field its own name.
pub proof fn lemma_header_is_row_of_names(
    names: Seq<Seq<char>>,
    found: Map<Seq<char>, Seq<char>>,
    delimiter: Seq<char>,
)
    requires
        forall|i: int|
            0 <= i < names.len() ==> found.contains_key(#[trigger] names[i]) && found[names[i]]
                == names[i],
    ensures
        header_text(names, delimiter) == row_text(names, found, delimiter),
{
    assert(header_cells(names) =~= row_cells(names, found));
}

/// A row has one cell for each field, in the order of the fields; each cell
/// is the field's value between double quotes, and empty between them where
/// the field has none.
pub proof fn lemma_row_cells(names: Seq<Seq<char>>, found: Map<Seq<char>, Seq<char>>)
    ensures
        row_cells(names, found).len() == names.len(),
        forall|i: int|
            0 <= i < names.len() ==> #[trigger] row_cells(names, found)[i] == (if found.contains_key(
                names[i],
            ) {
                quoted(found[names[i]])
            } else {
                seq!['"', '"']
            }),
{
    assert forall|i: int| 0 <= i < names.len() implies #[trigger] row_cells(names, found)[i] == (
    if found.contains_key(names[i]) {
        quoted(found[names[i]])
    } else {
        seq!['"', '"']
    }) by {
        if !found.contains_key(names[i]) {
            assert(quoted(Seq::empty()) =~= seq!['"', '"']);
        }
    }
}

} // verus!
