//! The decoder as a mathematical state machine.
//!
//! A run-length encoded pattern is read one character at a time. The state holds the
//! rows finished so far, the row under construction, the digits of a run count that
//! has not been used yet, and the dimensions that the header declared. Every
//! transition is a function from a state to a new state or to an error.

use vstd::prelude::*;
use crate::error::ParseError;
use crate::header::header_dims;
use crate::text::{all_digits, index_of, is_digit, lemma_index_of, parse_uint};

verus! {

/// What the decoder knows after reading a prefix of the input.
#[verifier::ext_equal]
pub struct DecoderState {
    /// The rows that were closed, top row first.
    pub rows: Seq<Seq<u8>>,
    /// The cells of the row that is being built.
    pub row: Seq<u8>,
    /// The digits read since the last run, row separator or start of input.
    pub digits: Seq<char>,
    /// The width that the header declared; zero before any header.
    pub width: nat,
    /// The height that the header declared; zero before any header.
    pub height: nat,
}

/// Every cell of `row` is 0 (dead) or 1 (alive).
pub open spec fn binary(row: Seq<u8>) -> bool {
    forall|i: int| 0 <= i < row.len() ==> #[trigger] row[i] <= 1
}

/// `n` cells that all hold `cell`.
pub open spec fn cells(n: nat, cell: u8) -> Seq<u8> {
    Seq::new(n, |i: int| cell)
}

/// `n` rows of `width` dead cells each.
pub open spec fn blank_rows(n: nat, width: nat) -> Seq<Seq<u8>> {
    Seq::new(n, |i: int| cells(width, 0))
}

/// `row` followed by as many dead cells as it takes to reach `width`.
/// A row that is already as long as `width`, or longer, is left as it is.
pub open spec fn padded(row: Seq<u8>, width: nat) -> Seq<u8> {
    if row.len() < width {
        row + cells((width - row.len()) as nat, 0)
    } else {
        row
    }
}

/// The run count that a digit buffer stands for: one when it is empty, else its
/// decimal value. A buffer that is no unsigned number of machine size is an error.
pub open spec fn run_count(digits: Seq<char>) -> Result<nat, ParseError> {
    if digits.len() == 0 {
        Ok(1)
    } else {
        match parse_uint(digits) {
            Some(n) => Ok(n),
            None => Err(ParseError::InvalidRunCount),
        }
    }
}

/// How many blank rows follow a row that a separator with count `n` closed:
/// `n - 1`, and none when `n` is zero or one.
pub open spec fn extra_rows(n: nat) -> nat {
    if n > 1 {
        (n - 1) as nat
    } else {
        0
    }
}

impl DecoderState {
    /// The state before any input: no rows, no cells, no digits, no dimensions.
    pub open spec fn initial() -> DecoderState {
        DecoderState {
            rows: Seq::empty(),
            row: Seq::empty(),
            digits: Seq::empty(),
            width: 0,
            height: 0,
        }
    }

    /// The buffer holds digits only, and every cell is 0 or 1.
    pub open spec fn wf(self) -> bool {
        &&& all_digits(self.digits)
        &&& binary(self.row)
        &&& forall|i: int| 0 <= i < self.rows.len() ==> binary(#[trigger] self.rows[i])
    }

    /// A digit joins the buffer.
    pub open spec fn push_digit(self, c: char) -> DecoderState {
        DecoderState { digits: self.digits.push(c), ..self }
    }

    /// A run of `cell`: the buffer gives the count and is emptied, and that many
    /// cells join the current row.
    pub open spec fn emit_run(self, cell: u8) -> Result<DecoderState, ParseError> {
        match run_count(self.digits) {
            Ok(n) => Ok(
                DecoderState { row: self.row + cells(n, cell), digits: Seq::empty(), ..self },
            ),
            Err(e) => Err(e),
        }
    }

    /// The current row is closed: padded to the declared width, appended to the rows,
    /// and a new empty row begun. A row longer than the declared width is an error.
    /// The digit buffer is left alone.
    pub open spec fn close_row(self) -> Result<DecoderState, ParseError> {
        if self.row.len() > self.width {
            Err(ParseError::RowTooLong)
        } else {
            Ok(
                DecoderState {
                    rows: self.rows.push(padded(self.row, self.width)),
                    row: Seq::empty(),
                    ..self
                },
            )
        }
    }

    /// A row separator: the current row is closed, then the buffer gives a count `n`
    /// and is emptied, and `extra_rows(n)` blank rows follow.
    pub open spec fn end_row(self) -> Result<DecoderState, ParseError> {
        match self.close_row() {
            Ok(closed) => match run_count(self.digits) {
                Ok(n) => Ok(
                    DecoderState {
                        rows: closed.rows + blank_rows(extra_rows(n), self.width),
                        digits: Seq::empty(),
                        ..closed
                    },
                ),
                Err(e) => Err(e),
            },
            Err(e) => Err(e),
        }
    }

    /// The transition on one body character other than the terminator `!`.
    /// Characters that the format does not know are skipped.
    pub open spec fn step(self, c: char) -> Result<DecoderState, ParseError> {
        if is_digit(c) {
            Ok(self.push_digit(c))
        } else if c == 'b' {
            self.emit_run(0)
        } else if c == 'o' {
            self.emit_run(1)
        } else if c == '$' {
            self.end_row()
        } else {
            Ok(self)
        }
    }

    /// A body line, character by character. At the first `!` the current row is
    /// closed and the rest of the line is not read.
    pub open spec fn decode_body(self, line: Seq<char>) -> Result<DecoderState, ParseError>
        decreases line.len(),
    {
        if line.len() == 0 {
            Ok(self)
        } else if line[0] == '!' {
            self.close_row()
        } else {
            match self.step(line[0]) {
                Ok(next) => next.decode_body(line.drop_first()),
                Err(e) => Err(e),
            }
        }
    }

    /// A header line: its first two fields become the declared width and height.
    pub open spec fn decode_header(self, line: Seq<char>) -> Result<DecoderState, ParseError> {
        match header_dims(line) {
            Some((width, height)) => Ok(DecoderState { width, height, ..self }),
            None => Err(ParseError::HeaderParse),
        }
    }

    /// One line of input. A line that begins with `#` is a comment and changes
    /// nothing; one that begins with `x` is the header; any other is a body line.
    pub open spec fn decode_line(self, line: Seq<char>) -> Result<DecoderState, ParseError> {
        if line.len() > 0 && line[0] == '#' {
            Ok(self)
        } else if line.len() > 0 && line[0] == 'x' {
            self.decode_header(line)
        } else {
            self.decode_body(line)
        }
    }

    /// A whole text: its lines, separated by line feeds, one after the other.
    /// The text after the last line feed is a line too, even when it is empty.
    pub open spec fn decode_text(self, text: Seq<char>) -> Result<DecoderState, ParseError>
        decreases text.len(),
    {
        let end = index_of(text, '\n');
        match self.decode_line(text.take(end)) {
            Ok(next) => if 0 <= end < text.len() {
                next.decode_text(text.skip(end + 1))
            } else {
                Ok(next)
            },
            Err(e) => Err(e),
        }
    }
}

/// A well-formed state stays well-formed when its current row is closed.
pub proof fn lemma_close_row_wf(state: DecoderState)
    requires
        state.wf(),
    ensures
        state.close_row() matches Ok(next) ==> next.wf(),
{
}

/// A well-formed state stays well-formed under every transition on one character.
pub proof fn lemma_step_wf(state: DecoderState, c: char)
    requires
        state.wf(),
    ensures
        state.step(c) matches Ok(next) ==> next.wf(),
{
    if c == '$' {
        lemma_close_row_wf(state);
    }
}

/// A well-formed state stays well-formed over a body line.
pub proof fn lemma_decode_body_wf(state: DecoderState, line: Seq<char>)
    requires
        state.wf(),
    ensures
        state.decode_body(line) matches Ok(next) ==> next.wf(),
    decreases line.len(),
{
    if line.len() > 0 {
        if line[0] == '!' {
            lemma_close_row_wf(state);
        } else {
            lemma_step_wf(state, line[0]);
            if let Ok(next) = state.step(line[0]) {
                lemma_decode_body_wf(next, line.drop_first());
            }
        }
    }
}

/// A well-formed state stays well-formed over any line.
pub proof fn lemma_decode_line_wf(state: DecoderState, line: Seq<char>)
    requires
        state.wf(),
    ensures
        state.decode_line(line) matches Ok(next) ==> next.wf(),
{
    lemma_decode_body_wf(state, line);
}

/// A well-formed state stays well-formed over a whole text.
pub proof fn lemma_decode_text_wf(state: DecoderState, text: Seq<char>)
    requires
        state.wf(),
    ensures
        state.decode_text(text) matches Ok(next) ==> next.wf(),
    decreases text.len(),
{
    let end = index_of(text, '\n');
    lemma_index_of(text, '\n');
    lemma_decode_line_wf(state, text.take(end));
    if let Ok(next) = state.decode_line(text.take(end)) {
        if end < text.len() {
            lemma_decode_text_wf(next, text.skip(end + 1));
        }
    }
}

/// How a step of the executable decoder relates to the model. On success the parser
/// holds the state that the model gives; on failure it reports the model's error and
/// is back in its initial state.
pub open spec fn lands(
    reported: Result<(), ParseError>,
    after: DecoderState,
    expected: Result<DecoderState, ParseError>,
) -> bool {
    match expected {
        Ok(state) => reported is Ok && after == state,
        Err(e) => reported == Err::<(), ParseError>(e) && after == DecoderState::initial(),
    }
}

} // verus!
