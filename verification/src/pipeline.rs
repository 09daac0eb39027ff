//! From the bodies of the messages to the lines of the table: the header,
//! then one row for each body, in the order in which the bodies came.

use crate::error::ErrorKind;
use crate::fields::{extract, extracted};
use crate::row::{encode_header, encode_row, header_text, row_text};
use crate::settings::Settings;
use crate::text::{lines_of, strings};
use vstd::prelude::*;

verus! {

/// The row of one message: its fields, found and rendered.
pub open spec fn message_row(body: Seq<char>, names: Seq<Seq<char>>, delimiter: Seq<char>) -> Seq<
    char,
> {
    row_text(names, extracted(lines_of(body), names), delimiter)
}

/// The lines of the table: the header, then the row of each body.
pub open spec fn table_lines(
    bodies: Seq<Seq<char>>,
    names: Seq<Seq<char>>,
    delimiter: Seq<char>,
) -> Seq<Seq<char>> {
    seq![header_text(names, delimiter)] + bodies.map_values(
        |body: Seq<char>| message_row(body, names, delimiter),
    )
}

/// Renders the table for `bodies`: the header line, then one line for each
/// body, in order.
pub fn render(bodies: &Vec<String>, fields: &Vec<String>, delimiter: &str) -> (lines: Vec<String>)
    ensures
        strings(lines@) == table_lines(strings(bodies@), strings(fields@), delimiter@),
{
    let ghost goal = table_lines(strings(bodies@), strings(fields@), delimiter@);
    let mut lines: Vec<String> = Vec::new();
    lines.push(encode_header(fields, delimiter));
    let mut i: usize = 0;
    assert(strings(lines@) =~= goal.take(1));
    while i < bodies.len()
        invariant
            i <= bodies.len(),
            goal == table_lines(strings(bodies@), strings(fields@), delimiter@),
            lines.len() == i + 1,
            strings(lines@) == goal.take(i + 1),
        decreases bodies.len() - i,
    {
        let ghost before = lines@;
        let found = extract(bodies[i].as_str(), fields);
        lines.push(encode_row(fields, &found, delimiter));
        proof {
            assert(strings(lines@) =~= strings(before).push(lines@[i + 1]@));
            assert(goal[i + 1] == message_row(bodies@[i as int]@, strings(fields@), delimiter@));
            assert(goal.take(i + 2) =~= goal.take(i + 1).push(goal[i + 1]));
        }
        i += 1;
    }
    assert(goal.take(i + 1) =~= goal);
    lines
}

/// The lines that a run hands to its output: the table for the bodies that
/// the session brought, or, where the session failed, its failure and no line
/// at all.
pub fn report(outcome: Result<Vec<String>, ErrorKind>, settings: &Settings) -> (result: Result<
    Vec<String>,
    ErrorKind,
>)
    ensures
        match outcome {
            Ok(bodies) => result is Ok && strings(result->Ok_0@) == table_lines(
                strings(bodies@),
                settings@.fields,
                settings@.delimiter,
            ),
            Err(kind) => result == Err::<Vec<String>, ErrorKind>(kind),
        },
{
    match outcome {
        Ok(bodies) => Ok(render(&bodies, settings.fields(), settings.delimiter())),
        Err(kind) => Err(kind),
    }
}

/// The table has the header first and then one line for each body, in the
/// order of the bodies.
pub proof fn lemma_table_shape(bodies: Seq<Seq<char>>, names: Seq<Seq<char>>, delimiter: Seq<char>)
    ensures
        table_lines(bodies, names, delimiter).len() == bodies.len() + 1,
        table_lines(bodies, names, delimiter)[0] == header_text(names, delimiter),
        forall|i: int|
            0 <= i < bodies.len() ==> #[trigger] table_lines(bodies, names, delimiter)[i + 1]
                == message_row(bodies[i], names, delimiter),
{
}

} // verus!
