//! Parsing of fixed wall layouts.
//!
//! A layout is a byte text of `0`/`1` tokens separated by commas, one grid
//! row per line. Whitespace (spaces, tabs, carriage returns) is ignored, a
//! trailing comma at the end of a row is allowed, blank lines are skipped,
//! and any token other than exactly `1` means "not a wall". The grammar is
//! given by a small state machine folded over the bytes, so the parser's
//! contract pins the result exactly.

use vstd::prelude::*;

verus! {

/// Bytes the parser skips: space, tab, carriage return.
pub open spec fn is_layout_space(b: u8) -> bool {
    b == 32 || b == 9 || b == 13
}

/// A token marks a wall exactly when it is the single byte `1`.
pub open spec fn token_is_wall(tok: Seq<u8>) -> bool {
    tok.len() == 1 && tok[0] == 49
}

/// Parser state: finished rows, the row being built, the token being built.
pub ghost struct ParseState {
    pub rows: Seq<Seq<bool>>,
    pub row: Seq<bool>,
    pub tok: Seq<u8>,
}

/// The state before any byte is read.
pub open spec fn parse_init() -> ParseState {
    ParseState { rows: Seq::empty(), row: Seq::empty(), tok: Seq::empty() }
}

/// One byte of input applied to the parser state: whitespace is skipped, a
/// comma closes the pending token into a cell, a newline closes the pending
/// token (if any) and then the row (if non-empty), and any other byte
/// extends the pending token.
pub open spec fn parse_step(st: ParseState, b: u8) -> ParseState {
    if is_layout_space(b) {
        st
    } else if b == 44 {
        ParseState { rows: st.rows, row: st.row.push(token_is_wall(st.tok)), tok: Seq::empty() }
    } else if b == 10 {
        let row2 = if st.tok.len() > 0 {
            st.row.push(token_is_wall(st.tok))
        } else {
            st.row
        };
        if row2.len() > 0 {
            ParseState { rows: st.rows.push(row2), row: Seq::empty(), tok: Seq::empty() }
        } else {
            ParseState { rows: st.rows, row: st.row, tok: Seq::empty() }
        }
    } else {
        ParseState { rows: st.rows, row: st.row, tok: st.tok.push(b) }
    }
}

/// The parser state after reading all of `bytes`.
pub open spec fn parse_fold(bytes: Seq<u8>) -> ParseState
    decreases bytes.len(),
{
    if bytes.len() == 0 {
        parse_init()
    } else {
        parse_step(parse_fold(bytes.drop_last()), bytes.last())
    }
}

/// Flush the end of input: a pending token becomes one more cell, a pending
/// non-empty row becomes one more row.
pub open spec fn parse_finish(st: ParseState) -> Seq<Seq<bool>> {
    let row2 = if st.tok.len() > 0 {
        st.row.push(token_is_wall(st.tok))
    } else {
        st.row
    };
    if row2.len() > 0 {
        st.rows.push(row2)
    } else {
        st.rows
    }
}

/// The wall flags a layout text denotes, row by row.
pub open spec fn parse_layout_spec(bytes: Seq<u8>) -> Seq<Seq<bool>> {
    parse_finish(parse_fold(bytes))
}

/// The mathematical rows a vector of exec rows stands for.
pub open spec fn rows_view(rows: Seq<Vec<bool>>) -> Seq<Seq<bool>> {
    Seq::new(rows.len(), |i: int| rows[i]@)
}

/// Parse a layout text into wall flags, one inner vector per grid row.
pub fn parse_layout(m: &[u8]) -> (flags: Vec<Vec<bool>>)
    ensures
        rows_view(flags@) == parse_layout_spec(m@),
{
    let mut rows: Vec<Vec<bool>> = Vec::new();
    let mut row: Vec<bool> = Vec::new();
    let mut tok: Vec<u8> = Vec::new();
    let n: usize = m.len();
    let mut i: usize = 0;
    proof {
        assert(m@.take(0) =~= Seq::<u8>::empty());
        assert(rows_view(rows@) =~= Seq::<Seq<bool>>::empty());
        assert(parse_fold(m@.take(0)) == parse_init());
    }
    while i < n
        invariant
            i <= n,
            n == m@.len(),
            parse_fold(m@.take(i as int)) == (ParseState { rows: rows_view(rows@), row: row@, tok: tok@ }),
        decreases n - i,
    {
        let ghost pre = ParseState { rows: rows_view(rows@), row: row@, tok: tok@ };
        let b: u8 = m[i];
        if b == 32 || b == 9 || b == 13 {
            // whitespace: skip
        } else if b == 44 {
            let wall: bool = tok.len() == 1 && tok[0] == 49;
            row.push(wall);
            tok = Vec::new();
        } else if b == 10 {
            if tok.len() > 0 {
                let wall: bool = tok.len() == 1 && tok[0] == 49;
                row.push(wall);
                tok = Vec::new();
            }
            if row.len() > 0 {
                rows.push(row);
                row = Vec::new();
            }
        } else {
            tok.push(b);
        }
        proof {
            assert(m@.take(i + 1).drop_last() =~= m@.take(i as int));
            assert(m@.take(i + 1).last() == m@[i as int]);
            assert(parse_step(pre, b).rows =~= rows_view(rows@));
            assert(parse_step(pre, b).row =~= row@);
            assert(parse_step(pre, b).tok =~= tok@);
            assert(parse_fold(m@.take(i + 1)) == parse_step(pre, b));
        }
        i = i + 1;
    }
    proof {
        assert(m@.take(n as int) =~= m@);
    }
    if tok.len() > 0 {
        let wall: bool = tok.len() == 1 && tok[0] == 49;
        row.push(wall);
    }
    if row.len() > 0 {
        rows.push(row);
    }
    proof {
        assert(parse_layout_spec(m@) =~= rows_view(rows@));
    }
    rows
}

} // verus!
