//! The executable decoder: a parser that is fed lines and collects rows.

use vstd::prelude::*;
use vstd::slice::slice_subrange;
use crate::error::ParseError;
use crate::header::parse_dimensions;
use crate::pattern::{decode, rows_view, Pattern};
use crate::state::{
    binary, blank_rows, cells, lands, lemma_decode_body_wf, lemma_decode_text_wf, padded,
    run_count, DecoderState,
};
use crate::text::{chars_of, find_char, is_digit_char, lemma_index_of, parse_unsigned};

verus! {

/// Appends `n` cells holding `cell` to `row`.
pub fn push_cells(row: &mut Vec<u8>, n: usize, cell: u8)
    ensures
        final(row)@ == old(row)@ + cells(n as nat, cell),
{
    let mut k: usize = 0;
    while k < n
        invariant
            k <= n,
            row@ == old(row)@ + cells(k as nat, cell),
        decreases n - k,
    {
        row.push(cell);
        k += 1;
    }
}

/// Decoder state that outlives a line: a row, and even a single run, may continue
/// on the next line.
#[derive(Debug)]
pub struct Parser {
    rows: Vec<Vec<u8>>,
    digits: Vec<char>,
    current_row: Vec<u8>,
    width: usize,
    height: usize,
}

impl View for Parser {
    type V = DecoderState;

    closed spec fn view(&self) -> DecoderState {
        DecoderState {
            rows: rows_view(self.rows@),
            row: self.current_row@,
            digits: self.digits@,
            width: self.width as nat,
            height: self.height as nat,
        }
    }
}

impl Parser {
    /// A parser that has read nothing.
    pub fn new() -> (p: Parser)
        ensures
            p@ == DecoderState::initial(),
    {
        Parser {
            digits: Vec::new(),
            rows: Vec::new(),
            current_row: Vec::new(),
            width: 0,
            height: 0,
        }
    }

    /// The rows closed so far, top row first.
    pub fn rows(&self) -> (r: &Vec<Vec<u8>>)
        ensures
            rows_view(r@) == self@.rows,
    {
        &self.rows
    }

    /// The declared width; zero before a header was read.
    pub fn width(&self) -> (w: usize)
        ensures
            w == self@.width,
    {
        self.width
    }

    /// The declared height; zero before a header was read.
    pub fn height(&self) -> (h: usize)
        ensures
            h == self@.height,
    {
        self.height
    }

    /// Forgets everything that was read.
    fn reset(&mut self)
        ensures
            final(self)@ == DecoderState::initial(),
    {
        self.rows = Vec::new();
        self.digits = Vec::new();
        self.current_row = Vec::new();
        self.width = 0;
        self.height = 0;
    }

    /// Resolves the pending run count and empties the digit buffer.
    ///
    /// An empty buffer counts as one. A buffer whose value does not fit the machine
    /// word gives `InvalidRunCount` and resets the parser.
    pub fn digit_val(&mut self) -> (r: Result<usize, ParseError>)
        ensures
            (match run_count(old(self)@.digits) {
                Ok(n) => n <= usize::MAX && r == Ok::<usize, ParseError>(n as usize)
                    && final(self)@ == (DecoderState { digits: Seq::empty(), ..old(self)@ }),
                Err(e) => r == Err::<usize, ParseError>(e) && final(self)@
                    == DecoderState::initial(),
            }),
            old(self)@.wf() ==> final(self)@.wf(),
    {
        if self.digits.len() == 0 {
            return Ok(1);
        }
        match parse_unsigned(self.digits.as_slice()) {
            Some(num) => {
                self.digits.clear();
                Ok(num)
            },
            None => {
                self.reset();
                Err(ParseError::InvalidRunCount)
            },
        }
    }

    /// Brings `row` to the declared width by appending dead cells.
    ///
    /// A row that is longer than the declared width is left as it is and reported as
    /// `RowTooLong`.
    pub fn ensure_row_len(&self, row: &mut Vec<u8>) -> (r: Result<(), ParseError>)
        ensures
            old(row)@.len() <= self@.width ==> r is Ok && final(row)@ == padded(
                old(row)@,
                self@.width,
            ),
            old(row)@.len() > self@.width ==> r == Err::<(), ParseError>(ParseError::RowTooLong)
                && final(row)@ == old(row)@,
    {
        let len = row.len();
        if len < self.width {
            push_cells(row, self.width - len, 0);
            Ok(())
        } else if len > self.width {
            Err(ParseError::RowTooLong)
        } else {
            Ok(())
        }
    }

    /// Closes the current row: pads it, appends it to the rows and starts a new one.
    fn close_row(&mut self) -> (r: Result<(), ParseError>)
        ensures
            lands(r, final(self)@, old(self)@.close_row()),
    {
        let mut row: Vec<u8> = Vec::new();
        std::mem::swap(&mut row, &mut self.current_row);
        match self.ensure_row_len(&mut row) {
            Ok(()) => {
                self.rows.push(row);
                assert(rows_view(self.rows@) =~= rows_view(old(self).rows@).push(row@));
                Ok(())
            },
            Err(e) => {
                self.reset();
                Err(e)
            },
        }
    }

    /// Appends `n` rows of dead cells, each as wide as the header declared.
    fn push_blank_rows(&mut self, n: usize)
        ensures
            final(self)@ == (DecoderState {
                rows: old(self)@.rows + blank_rows(n as nat, old(self)@.width),
                ..old(self)@
            }),
    {
        let mut k: usize = 0;
        while k < n
            invariant
                k <= n,
                self@ == (DecoderState {
                    rows: old(self)@.rows + blank_rows(k as nat, old(self)@.width),
                    ..old(self)@
                }),
            decreases n - k,
        {
            let ghost before = self.rows@;
            let mut blank_row: Vec<u8> = Vec::new();
            push_cells(&mut blank_row, self.width, 0);
            self.rows.push(blank_row);
            k += 1;
            assert(rows_view(self.rows@) =~= rows_view(before).push(blank_row@));
            assert(blank_rows(k as nat, self.width as nat) =~= blank_rows(
                (k - 1) as nat,
                self.width as nat,
            ).push(blank_row@));
        }
    }

    /// Feeds one body line to the state machine.
    ///
    /// Digits are collected; `b` and `o` append a run of dead or live cells; `$`
    /// closes the row and may add blank rows; `!` closes the row and ends the line;
    /// every other character is skipped.
    pub fn parse_pattern_line(&mut self, line: &[char]) -> (r: Result<(), ParseError>)
        ensures
            lands(r, final(self)@, old(self)@.decode_body(line@)),
            old(self)@.wf() ==> final(self)@.wf(),
    {
        let mut i: usize = 0;
        proof {
            assert(line@.skip(0) =~= line@);
            if old(self)@.wf() {
                lemma_decode_body_wf(old(self)@, line@);
            }
        }
        while i < line.len()
            invariant
                i <= line.len(),
                old(self)@.decode_body(line@) == self@.decode_body(line@.skip(i as int)),
                old(self)@.wf() ==> (old(self)@.decode_body(line@) matches Ok(end) ==> end.wf()),
            decreases line.len() - i,
        {
            let ch = line[i];
            let ghost before = self@;
            proof {
                assert(line@.skip(i as int).drop_first() =~= line@.skip(i + 1));
            }
            if is_digit_char(ch) {
                self.digits.push(ch);
            } else if ch == 'b' {
                let num = self.digit_val()?;
                push_cells(&mut self.current_row, num, 0);
            } else if ch == 'o' {
                let num = self.digit_val()?;
                push_cells(&mut self.current_row, num, 1);
            } else if ch == '$' {
                self.close_row()?;
                let num = self.digit_val()?;
                if num > 1 {
                    self.push_blank_rows(num - 1);
                }
            } else if ch == '!' {
                return self.close_row();
            }
            i += 1;
        }
        Ok(())
    }

    /// Decodes a whole text and packs the rows into a pattern.
    ///
    /// Whatever the parser has read before is forgotten first, so the result depends
    /// on `text` alone: decoding the same text again gives the same pattern. On
    /// success the parser keeps the state that reading the text left, so that the
    /// rows can be looked at; on any failure it is reset.
    pub fn parse(&mut self, text: &str) -> (r: Result<Pattern, ParseError>)
        ensures
            (match decode(text@) {
                Ok(grid) => r is Ok && r->Ok_0@ == grid && grid.wf()
                    && DecoderState::initial().decode_text(text@) == Ok::<
                    DecoderState,
                    ParseError,
                >(final(self)@),
                Err(e) => r is Err && r->Err_0 == e && final(self)@ == DecoderState::initial(),
            }),
            final(self)@.wf(),
    {
        self.reset();
        let chars = chars_of(text);
        let all = chars.as_slice();
        let mut start: usize = 0;
        let mut more = true;
        let ghost fresh = DecoderState::initial();
        proof {
            assert(text@.skip(0) =~= text@);
            lemma_decode_text_wf(fresh, text@);
        }
        while more
            invariant
                start <= all.len(),
                all@ == text@,
                fresh == DecoderState::initial(),
                more ==> fresh.decode_text(text@) == self@.decode_text(text@.skip(start as int)),
                !more ==> fresh.decode_text(text@) == Ok::<DecoderState, ParseError>(self@),
            decreases all.len() - start + if more { 1nat } else { 0nat },
        {
            let rest = slice_subrange(all, start, all.len());
            let end = find_char(rest, '\n');
            proof {
                lemma_index_of(rest@, '\n');
            }
            let line = slice_subrange(rest, 0, end);
            self.parse_line(line)?;
            if end < rest.len() {
                proof {
                    assert(rest@.skip(end + 1) =~= text@.skip(start + end + 1));
                }
                start = start + end + 1;
            } else {
                more = false;
            }
        }
        proof {
            assert forall|i: int| 0 <= i < self.rows@.len() implies binary(
                #[trigger] self.rows@[i]@,
            ) by {
                assert(self@.rows[i] == self.rows@[i]@);
            }
        }
        match Pattern::from_rows(self.width, self.height, &self.rows) {
            Ok(pattern) => Ok(pattern),
            Err(e) => {
                self.reset();
                Err(e)
            },
        }
    }

    /// Reads the declared dimensions from a header line.
    ///
    /// A line without a second field, without `=` in one of the first two fields, or
    /// with a dimension that is no unsigned number gives `HeaderParse` and resets the
    /// parser.
    pub fn parse_rule_line(&mut self, line: &[char]) -> (r: Result<(), ParseError>)
        ensures
            lands(r, final(self)@, old(self)@.decode_header(line@)),
            old(self)@.wf() ==> final(self)@.wf(),
    {
        match parse_dimensions(line) {
            Some((x_val, y_val)) => {
                self.width = x_val;
                self.height = y_val;
                Ok(())
            },
            None => {
                self.reset();
                Err(ParseError::HeaderParse)
            },
        }
    }

    /// Feeds one line: a comment is skipped, a header sets the dimensions, anything
    /// else is decoded as body.
    pub fn parse_line(&mut self, line: &[char]) -> (r: Result<(), ParseError>)
        ensures
            lands(r, final(self)@, old(self)@.decode_line(line@)),
            old(self)@.wf() ==> final(self)@.wf(),
    {
        if line.len() > 0 && line[0] == '#' {
            Ok(())
        } else if line.len() > 0 && line[0] == 'x' {
            self.parse_rule_line(line)
        } else {
            self.parse_pattern_line(line)
        }
    }
}

} // verus!
