//! Laws of the format, proved about the model that the executable code implements.

use vstd::prelude::*;
use crate::error::ParseError;
use crate::header::{field_value, header_dims};
use crate::pattern::{decode, lemma_flatten_binary, Cursor, Grid};
use crate::state::{cells, extra_rows, lemma_decode_text_wf, padded, run_count, DecoderState};
use crate::text::{
    all_digits, all_space, decimal, lacks, lemma_index_of_absent, lemma_index_of_split,
    lemma_trim_end, lemma_trim_start,
};

verus! {

/// `digits` is the decimal notation of a number that fits the machine word.
pub open spec fn is_number(digits: Seq<char>) -> bool {
    digits.len() > 0 && all_digits(digits) && decimal(digits) <= usize::MAX
}

/// A header field taken apart: `name = digits`, with any white space around the
/// number.
pub struct Field {
    /// What stands in front of `=`.
    pub name: Seq<char>,
    /// The white space between `=` and the number.
    pub before: Seq<char>,
    /// The number.
    pub digits: Seq<char>,
    /// The white space behind the number.
    pub after: Seq<char>,
}

impl Field {
    /// The field as it is written.
    pub open spec fn text(self) -> Seq<char> {
        self.name + seq!['='] + (self.before + self.digits + self.after)
    }

    /// The name holds neither `=` nor `,`, the number is a number, and what
    /// surrounds it is white space.
    pub open spec fn valid(self) -> bool {
        &&& lacks(self.name, '=')
        &&& lacks(self.name, ',')
        &&& all_space(self.before)
        &&& all_space(self.after)
        &&& is_number(self.digits)
    }
}

/// The header in its usual spelling, `x = <width>, y = <height>, rule = <rule>`.
pub open spec fn canonical_header(width: Seq<char>, height: Seq<char>, rule: Seq<char>) -> Seq<
    char,
> {
    seq!['x', ' ', '=', ' '] + width + seq![',', ' ', 'y', ' ', '=', ' '] + height + seq![
        ',',
        ' ',
        'r',
        'u',
        'l',
        'e',
        ' ',
        '=',
        ' ',
    ] + rule
}

/// The value of a field is the number written behind its `=`, whatever white space
/// surrounds the number and whatever name stands in front.
pub proof fn lemma_field_value(field: Field)
    requires
        field.valid(),
    ensures
        field_value(field.text()) == Some(decimal(field.digits)),
{
    let rhs = field.before + field.digits + field.after;
    lemma_index_of_split(field.name, '=', rhs);
    lemma_index_of_absent(rhs, '=');
    assert(rhs =~= field.before + (field.digits + field.after));
    lemma_trim_start(field.before, field.digits + field.after);
    lemma_trim_end(field.digits, field.after);
}

/// The declared dimensions of a header are the numbers of its first two fields.
///
/// This holds for every spelling of the two fields: any names without `=` and `,`,
/// any white space around the numbers, and anything at all behind the second field,
/// as long as a comma separates it from that field.
pub proof fn lemma_header_dims(first: Field, second: Field, tail: Seq<char>)
    requires
        first.valid(),
        second.valid(),
        tail.len() == 0 || tail[0] == ',',
    ensures
        header_dims(first.text() + seq![','] + second.text() + tail) == Some(
            (decimal(first.digits), decimal(second.digits)),
        ),
{
    let f1 = first.text();
    let f2 = second.text();
    let line = f1 + seq![','] + f2 + tail;
    let rest = f2 + tail;
    lemma_field_value(first);
    lemma_field_value(second);
    assert(lacks(f1, ',') && lacks(f2, ','));
    assert(line =~= f1 + seq![','] + rest);
    lemma_index_of_split(f1, ',', rest);
    if tail.len() == 0 {
        lemma_index_of_absent(f2, ',');
    } else {
        assert(rest =~= f2 + seq![','] + tail.drop_first());
        lemma_index_of_split(f2, ',', tail.drop_first());
    }
}

/// In a header of the usual spelling, the declared width and height are the numbers
/// written after `x =` and `y =`, and reading the header sets exactly these.
pub proof fn lemma_canonical_header(
    state: DecoderState,
    width: Seq<char>,
    height: Seq<char>,
    rule: Seq<char>,
)
    requires
        is_number(width),
        is_number(height),
    ensures
        header_dims(canonical_header(width, height, rule)) == Some(
            (decimal(width), decimal(height)),
        ),
        state.decode_line(canonical_header(width, height, rule)) == Ok::<
            DecoderState,
            ParseError,
        >(DecoderState { width: decimal(width), height: decimal(height), ..state }),
{
    let line = canonical_header(width, height, rule);
    let first = Field {
        name: seq!['x', ' '],
        before: seq![' '],
        digits: width,
        after: Seq::empty(),
    };
    let second = Field {
        name: seq![' ', 'y', ' '],
        before: seq![' '],
        digits: height,
        after: Seq::empty(),
    };
    let tail = seq![',', ' ', 'r', 'u', 'l', 'e', ' ', '=', ' '] + rule;
    lemma_header_dims(first, second, tail);
    assert(line =~= first.text() + seq![','] + second.text() + tail);
}

/// Whatever a text decodes to has exactly `width * height` cells, each 0 or 1.
pub proof fn lemma_decoded_shape(text: Seq<char>)
    ensures
        decode(text) matches Ok(grid) ==> grid.wf() && grid.cells.len() == grid.width
            * grid.height,
{
    let start = DecoderState::initial();
    lemma_decode_text_wf(start, text);
    if let Ok(state) = start.decode_text(text) {
        lemma_flatten_binary(state.rows);
    }
}

/// A buffer of digits always gives a run count unless its value is too large for
/// the machine word; the empty buffer gives one. So a decoder that collects digits
/// only can fail on a count for no other reason than its size.
pub proof fn lemma_run_count(digits: Seq<char>)
    requires
        all_digits(digits),
    ensures
        digits.len() == 0 ==> run_count(digits) == Ok::<nat, ParseError>(1),
        digits.len() > 0 && decimal(digits) <= usize::MAX ==> run_count(digits) == Ok::<
            nat,
            ParseError,
        >(decimal(digits)),
        digits.len() > 0 && decimal(digits) > usize::MAX ==> run_count(digits) == Err::<
            nat,
            ParseError,
        >(ParseError::InvalidRunCount),
{
}

/// A run without a count is a run of one: with no digits pending, `b` does what
/// `1b` does and `o` does what `1o` does, whatever follows on the line.
pub proof fn lemma_run_without_count(state: DecoderState, tag: char, rest: Seq<char>)
    requires
        state.digits.len() == 0,
        tag == 'b' || tag == 'o',
    ensures
        state.decode_body(seq![tag] + rest) == state.decode_body(seq!['1', tag] + rest),
        state.step(tag) == state.push_digit('1').step(tag),
        state.step(tag) matches Ok(next) && next.row == state.row.push(
            if tag == 'o' {
                1u8
            } else {
                0u8
            },
        ),
{
    let one = seq!['1'];
    assert(state.digits.push('1') =~= one);
    assert(decimal(one) == 1) by {
        reveal_with_fuel(decimal, 2);
    }
    let short = seq![tag] + rest;
    let long = seq!['1', tag] + rest;
    assert(short.drop_first() =~= rest);
    assert(long.drop_first() =~= short);
    let primed = state.push_digit('1');
    let next = state.step(tag)->Ok_0;
    assert(primed.decode_body(short) == next.decode_body(rest));
}

/// Closing a row, by `$` or by `!`: a row that is not longer than the declared
/// width is extended by dead cells to exactly that width and becomes the next row;
/// a longer row is rejected.
pub proof fn lemma_closed_row(state: DecoderState)
    ensures
        state.row.len() > state.width ==> {
            &&& state.close_row() == Err::<DecoderState, ParseError>(ParseError::RowTooLong)
            &&& state.end_row() == Err::<DecoderState, ParseError>(ParseError::RowTooLong)
        },
        state.row.len() <= state.width ==> {
            &&& state.close_row() matches Ok(next)
            &&& next.rows.len() == state.rows.len() + 1
            &&& next.rows.take(state.rows.len() as int) == state.rows
            &&& next.rows.last() == state.row + cells((state.width - state.row.len()) as nat, 0)
            &&& next.rows.last().len() == state.width
            &&& next.row.len() == 0
        },
        state.row.len() <= state.width ==> (state.end_row() matches Ok(next) ==> {
            &&& next.rows.len() > state.rows.len()
            &&& next.rows.take(state.rows.len() as int) == state.rows
            &&& next.rows[state.rows.len() as int] == state.row + cells(
                (state.width - state.row.len()) as nat,
                0,
            )
            &&& next.row.len() == 0
        }),
{
    if state.row.len() <= state.width {
        assert(padded(state.row, state.width) =~= state.row + cells(
            (state.width - state.row.len()) as nat,
            0,
        ));
    }
}

/// A row separator with count `n` closes the current row and appends `n - 1` rows of
/// dead cells, each of the declared width; with a count of one, or none, it appends
/// no such row.
pub proof fn lemma_separator_blank_rows(state: DecoderState, n: nat)
    requires
        state.row.len() <= state.width,
        run_count(state.digits) == Ok::<nat, ParseError>(n),
    ensures
        state.end_row() matches Ok(next) && {
            &&& next.rows.len() == state.rows.len() + 1 + extra_rows(n)
            &&& forall|i: int|
                state.rows.len() < i < next.rows.len() ==> #[trigger] next.rows[i] == cells(
                    state.width,
                    0,
                )
            &&& next.digits.len() == 0
        },
        n >= 1 ==> extra_rows(n) == n - 1,
        n <= 1 ==> state.end_row() == Ok::<DecoderState, ParseError>(
            DecoderState { digits: Seq::empty(), ..state.close_row()->Ok_0 },
        ),
        state.digits.len() == 0 ==> n == 1,
{
}

/// The cursor after `n` pulls.
pub open spec fn pulled(cursor: Cursor, n: nat) -> Cursor
    decreases n,
{
    if n == 0 {
        cursor
    } else {
        pulled(cursor, (n - 1) as nat).advance()
    }
}

/// Walking a grid of height `H` from the start: pull number `n + 1` hands out row `n`
/// as long as `n < H`, and nothing from then on, without moving the cursor again.
pub proof fn lemma_iteration(grid: Grid, n: nat)
    ensures
        pulled(Cursor::start(grid), n).grid == grid,
        n < grid.height ==> {
            &&& pulled(Cursor::start(grid), n).index == n
            &&& pulled(Cursor::start(grid), n).item() == Some(grid.row(n as int))
        },
        n >= grid.height ==> {
            &&& pulled(Cursor::start(grid), n).index == grid.height
            &&& pulled(Cursor::start(grid), n).item() is None
            &&& pulled(Cursor::start(grid), n).advance() == pulled(Cursor::start(grid), n)
        },
    decreases n,
{
    if n > 0 {
        lemma_iteration(grid, (n - 1) as nat);
    }
}

} // verus!
