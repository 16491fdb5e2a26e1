//! Seeding: building a generation-0 grid from the lines of a pattern text,
//! or at random.
//!
//! A pattern text holds one live cell per line, as two whitespace-separated
//! decimal coordinates `x y` (row, then column, 0-indexed); every cell not
//! named is dead. A line that does not fit that shape, or that names a cell
//! outside the grid, is rejected with its line number and cause.

use vstd::prelude::*;

use crate::grid::Grid;

verus! {

/// Why a pattern text was rejected: the first offending line (0-indexed)
/// and the cause.
#[derive(Clone, Copy, PartialEq, Eq, Structural, Debug)]
pub enum SeedError {
    /// The line does not hold two whitespace-separated decimal numbers that
    /// fit the machine's word size.
    Malformed { line: usize },
    /// The line's coordinates name a cell outside `[0, N) x [0, N)`.
    OutOfRange { line: usize },
}

/// Whether byte `b` is blank: a space or a tab.
pub open spec fn is_blank(b: u8) -> bool {
    b == 32 || b == 9
}

/// Whether byte `b` is a decimal digit.
pub open spec fn is_digit(b: u8) -> bool {
    48 <= b <= 57
}

/// Whether every byte of `s` is a decimal digit.
pub open spec fn all_digits(s: Seq<u8>) -> bool {
    forall|i: int| 0 <= i < s.len() ==> is_digit(#[trigger] s[i])
}

/// The value of a sequence of decimal digit bytes, most significant first.
pub open spec fn digits_value(s: Seq<u8>) -> int
    decreases s.len(),
{
    if s.len() == 0 {
        0
    } else {
        digits_value(s.drop_last()) * 10 + (s.last() - 48)
    }
}

/// The length of the leading run of non-blank bytes of `s`.
pub open spec fn token_len(s: Seq<u8>) -> int
    decreases s.len(),
{
    if s.len() == 0 || is_blank(s[0]) {
        0
    } else {
        1 + token_len(s.drop_first())
    }
}

/// The leading run of non-blank bytes is never longer than the sequence.
proof fn lemma_token_len_bounds(s: Seq<u8>)
    ensures
        0 <= token_len(s) <= s.len(),
    decreases s.len(),
{
    if s.len() != 0 && !is_blank(s[0]) {
        lemma_token_len_bounds(s.drop_first());
    }
}

/// The blank-separated tokens of a line, in order.
pub open spec fn tokens(s: Seq<u8>) -> Seq<Seq<u8>>
    decreases s.len(),
    via tokens_decreases
{
    if s.len() == 0 {
        Seq::empty()
    } else if is_blank(s[0]) {
        tokens(s.drop_first())
    } else {
        seq![s.take(token_len(s))] + tokens(s.skip(token_len(s)))
    }
}

#[via_fn]
proof fn tokens_decreases(s: Seq<u8>) {
    lemma_token_len_bounds(s);
    if s.len() != 0 && !is_blank(s[0]) {
        lemma_token_len_bounds(s.drop_first());
    }
}

/// A line is well-formed when it holds at least two tokens and the first two
/// are decimal numbers that fit in `usize`. (Tokens past the second are
/// tolerated and ignored.)
pub open spec fn line_ok(s: Seq<u8>) -> bool {
    &&& tokens(s).len() >= 2
    &&& all_digits(tokens(s)[0])
    &&& all_digits(tokens(s)[1])
    &&& digits_value(tokens(s)[0]) <= usize::MAX
    &&& digits_value(tokens(s)[1]) <= usize::MAX
}

/// A well-formed line whose coordinates both lie below `n`.
pub open spec fn line_in_range(s: Seq<u8>, n: int) -> bool {
    &&& line_ok(s)
    &&& digits_value(tokens(s)[0]) < n
    &&& digits_value(tokens(s)[1]) < n
}

/// Whether the line names exactly the cell `(x, y)`.
pub open spec fn marks_cell(s: Seq<u8>, x: int, y: int) -> bool {
    &&& line_ok(s)
    &&& digits_value(tokens(s)[0]) == x
    &&& digits_value(tokens(s)[1]) == y
}

/// Dropping a leading blank does not change the tokens of a suffix.
proof fn lemma_tokens_skip_blank(s: Seq<u8>, i: int)
    requires
        0 <= i < s.len(),
        is_blank(s[i]),
    ensures
        tokens(s.skip(i)) == tokens(s.skip(i + 1)),
{
    assert(s.skip(i).drop_first() =~= s.skip(i + 1));
}

/// At a non-blank byte, the tokens of the suffix start with the token there
/// and continue with the tokens after it.
proof fn lemma_tokens_step(s: Seq<u8>, i: int)
    requires
        0 <= i < s.len(),
        !is_blank(s[i]),
    ensures
        tokens(s.skip(i)) == seq![s.subrange(i, i + token_len(s.skip(i)))] + tokens(
            s.skip(i + token_len(s.skip(i))),
        ),
{
    let t = s.skip(i);
    lemma_token_len_bounds(t);
    assert(t.take(token_len(t)) =~= s.subrange(i, i + token_len(t)));
    assert(t.skip(token_len(t)) =~= s.skip(i + token_len(t)));
}

/// The leading token of the suffix at `i` ends exactly at the first blank
/// (or the end of the line).
proof fn lemma_token_len_split(s: Seq<u8>, i: int, j: int)
    requires
        0 <= i <= j <= s.len(),
        forall|k: int| i <= k < j ==> !is_blank(#[trigger] s[k]),
        j == s.len() || is_blank(s[j]),
    ensures
        token_len(s.skip(i)) == j - i,
    decreases j - i,
{
    if i < j {
        assert(s.skip(i).drop_first() =~= s.skip(i + 1));
        lemma_token_len_split(s, i + 1, j);
    }
}

/// A sequence of digits has a non-negative value.
proof fn lemma_digits_value_nonneg(t: Seq<u8>)
    requires
        all_digits(t),
    ensures
        digits_value(t) >= 0,
    decreases t.len(),
{
    if t.len() > 0 {
        assert(all_digits(t.drop_last())) by {
            assert(forall|i: int|
                0 <= i < t.len() - 1 ==> t.drop_last()[i] == #[trigger] t[i]);
        }
        lemma_digits_value_nonneg(t.drop_last());
    }
}

/// Reading more digits never shrinks the value: a prefix of a digit string
/// is worth no more than the whole.
proof fn lemma_digits_prefix_le(t: Seq<u8>, m: int)
    requires
        all_digits(t),
        0 <= m <= t.len(),
    ensures
        digits_value(t.take(m)) <= digits_value(t),
    decreases t.len() - m,
{
    if m < t.len() {
        assert(t.take(m + 1).drop_last() =~= t.take(m));
        assert(t.take(m + 1).last() == t[m]);
        assert(all_digits(t.take(m))) by {
            assert(forall|i: int| 0 <= i < m ==> t.take(m)[i] == #[trigger] t[i]);
        }
        lemma_digits_value_nonneg(t.take(m));
        lemma_digits_prefix_le(t, m + 1);
    } else {
        assert(t.take(m) =~= t);
    }
}

/// Find the first non-blank byte at or after `from`; the tokens of the
/// suffix are unchanged by the move.
fn skip_blanks(line: &Vec<u8>, from: usize) -> (j: usize)
    requires
        from <= line.len(),
    ensures
        from <= j <= line.len(),
        j < line.len() ==> !is_blank(line[j as int]),
        tokens(line@.skip(from as int)) == tokens(line@.skip(j as int)),
{
    let mut j = from;
    while j < line.len() && (line[j] == 32 || line[j] == 9)
        invariant
            from <= j <= line.len(),
            tokens(line@.skip(from as int)) == tokens(line@.skip(j as int)),
        decreases line.len() - j,
    {
        proof {
            lemma_tokens_skip_blank(line@, j as int);
        }
        j = j + 1;
    }
    j
}

/// Scan the token that starts at the non-blank byte `from`: return its end
/// and, if it is a decimal number that fits in `usize`, its value.
fn parse_number(line: &Vec<u8>, from: usize) -> (r: (Option<usize>, usize))
    requires
        from < line.len(),
        !is_blank(line[from as int]),
    ensures
        ({
            let tl = token_len(line@.skip(from as int));
            let tok = line@.subrange(from as int, from as int + tl);
            &&& r.1 == from + tl
            &&& from < r.1 <= line.len()
            &&& (r.1 == line.len() || is_blank(line[r.1 as int]))
            &&& (r.0 is Some <==> all_digits(tok) && digits_value(tok) <= usize::MAX)
            &&& (r.0 matches Some(v) ==> v == digits_value(tok))
        }),
{
    let ghost s = line@;
    let len = line.len();
    let mut end = from;
    while end < len && !(line[end] == 32 || line[end] == 9)
        invariant
            from <= end <= len,
            len == line.len(),
            s == line@,
            forall|k: int| from <= k < end ==> !is_blank(#[trigger] s[k]),
        decreases len - end,
    {
        end = end + 1;
    }
    proof {
        lemma_token_len_split(s, from as int, end as int);
    }
    let ghost tok = s.subrange(from as int, end as int);
    let mut val: usize = 0;
    let mut k = from;
    while k < end
        invariant
            from <= k <= end <= len,
            len == line.len(),
            tok == s.subrange(from as int, end as int),
            s == line@,
            token_len(s.skip(from as int)) == end - from,
            end == len || is_blank(s[end as int]),
            forall|m: int| from <= m < k ==> is_digit(#[trigger] s[m]),
            val == digits_value(s.subrange(from as int, k as int)),
        decreases end - k,
    {
        let b = line[k];
        proof {
            assert(tok[k - from] == s[k as int]);
        }
        if b < 48 || b > 57 {
            return (None, end);
        }
        proof {
            assert(s.subrange(from as int, k + 1).drop_last() =~= s.subrange(from as int, k as int));
            assert(s.subrange(from as int, k + 1).last() == s[k as int]);
        }
        let d = (b - 48) as usize;
        let next_val = match val.checked_mul(10) {
            Some(v10) => v10.checked_add(d),
            None => None,
        };
        match next_val {
            Some(v) => {
                val = v;
            },
            None => {
                proof {
                    assert(digits_value(s.subrange(from as int, k + 1)) > usize::MAX);
                    if all_digits(tok) {
                        lemma_digits_prefix_le(tok, k + 1 - from);
                        assert(tok.take(k + 1 - from) =~= s.subrange(from as int, k + 1));
                    }
                }
                return (None, end);
            },
        }
        k = k + 1;
    }
    proof {
        assert(tok =~= s.subrange(from as int, k as int));
        assert(all_digits(tok)) by {
            assert(forall|i: int|
                0 <= i < tok.len() ==> tok[i] == #[trigger] s[from + i]);
        }
    }
    (Some(val), end)
}

/// Parse one line of a pattern text into its `(x, y)` coordinates.
///
/// The result is `Some` exactly when the line holds two whitespace-separated
/// decimal numbers that fit in `usize` (anything after the second is
/// ignored), and then carries their values.
pub fn parse_seed_line(line: &Vec<u8>) -> (r: Option<(usize, usize)>)
    ensures
        r is Some <==> line_ok(line@),
        r matches Some(xy) ==> xy.0 == digits_value(tokens(line@)[0]) && xy.1 == digits_value(
            tokens(line@)[1],
        ),
{
    let ghost s = line@;
    proof {
        assert(s.skip(0) =~= s);
    }
    let i0 = skip_blanks(line, 0);
    if i0 == line.len() {
        proof {
            assert(s.skip(i0 as int) =~= Seq::<u8>::empty());
        }
        return None;
    }
    let (v0, j0) = parse_number(line, i0);
    proof {
        lemma_tokens_step(s, i0 as int);
    }
    let i1 = skip_blanks(line, j0);
    if i1 == line.len() {
        proof {
            assert(s.skip(i1 as int) =~= Seq::<u8>::empty());
            assert(tokens(s).len() == 1);
        }
        return None;
    }
    let (v1, j1) = parse_number(line, i1);
    proof {
        lemma_tokens_step(s, i1 as int);
        assert(tokens(s)[0] == s.subrange(i0 as int, i0 + token_len(s.skip(i0 as int))));
        assert(tokens(s)[1] == s.subrange(i1 as int, i1 + token_len(s.skip(i1 as int))));
    }
    match (v0, v1) {
        (Some(x), Some(y)) => Some((x, y)),
        _ => None,
    }
}

/// Build a generation-0 grid of side `n` from the lines of a pattern text.
///
/// Succeeds exactly when every line is well-formed and names an in-range
/// cell; the grid then has a live cell exactly where some line names one.
/// On failure the error carries the first offending line (0-indexed) and
/// its cause; lines before it are all good.
pub fn grid_from_lines(n: usize, lines: &Vec<Vec<u8>>) -> (r: Result<Grid, SeedError>)
    requires
        n * n <= usize::MAX,
    ensures
        (r is Ok) <==> (forall|i: int|
            0 <= i < lines.len() ==> line_in_range(#[trigger] lines[i]@, n as int)),
        r matches Ok(g) ==> {
            &&& g.wf()
            &&& g.side() == n
            &&& forall|x: int, y: int|
                0 <= x < n && 0 <= y < n ==> ((#[trigger] g.alive(x, y)) <==> exists|i: int|
                    0 <= i < lines.len() && marks_cell(#[trigger] lines[i]@, x, y))
        },
        r matches Err(e) ==> match e {
            SeedError::Malformed { line } => {
                &&& line < lines.len()
                &&& !line_ok(lines[line as int]@)
                &&& forall|i: int| 0 <= i < line ==> line_in_range(#[trigger] lines[i]@, n as int)
            },
            SeedError::OutOfRange { line } => {
                &&& line < lines.len()
                &&& line_ok(lines[line as int]@)
                &&& !line_in_range(lines[line as int]@, n as int)
                &&& forall|i: int| 0 <= i < line ==> line_in_range(#[trigger] lines[i]@, n as int)
            },
        },
{
    let mut g = Grid::new(n);
    let mut li: usize = 0;
    while li < lines.len()
        invariant
            g.wf(),
            g.side() == n,
            li <= lines.len(),
            forall|i: int| 0 <= i < li ==> line_in_range(#[trigger] lines[i]@, n as int),
            forall|x: int, y: int|
                0 <= x < n && 0 <= y < n ==> ((#[trigger] g.alive(x, y)) <==> exists|i: int|
                    0 <= i < li && marks_cell(#[trigger] lines[i]@, x, y)),
        decreases lines.len() - li,
    {
        let line = &lines[li];
        match parse_seed_line(line) {
            None => {
                proof {
                    assert(!line_in_range(lines[li as int]@, n as int));
                }
                return Err(SeedError::Malformed { line: li });
            },
            Some((x, y)) => {
                if x >= n || y >= n {
                    proof {
                        assert(!line_in_range(lines[li as int]@, n as int));
                    }
                    return Err(SeedError::OutOfRange { line: li });
                }
                let ghost g0 = g;
                g.set(x, y, true);
                proof {
                    assert(line_in_range(lines[li as int]@, n as int));
                    assert forall|xx: int, yy: int| 0 <= xx < n && 0 <= yy < n implies ((
                    #[trigger] g.alive(xx, yy)) <==> exists|i: int|
                        0 <= i < li + 1 && marks_cell(#[trigger] lines[i]@, xx, yy)) by {
                        if xx == x && yy == y {
                            assert(g.alive(xx, yy));
                            assert(0 <= li < li + 1 && marks_cell(lines[li as int]@, xx, yy));
                        } else {
                            assert(g.alive(xx, yy) == g0.alive(xx, yy));
                            assert(!marks_cell(lines[li as int]@, xx, yy));
                            if g.alive(xx, yy) {
                                let i = choose|i: int|
                                    0 <= i < li && marks_cell(#[trigger] lines[i]@, xx, yy);
                                assert(0 <= i < li + 1 && marks_cell(lines[i]@, xx, yy));
                            }
                            if exists|i: int|
                                0 <= i < li + 1 && marks_cell(#[trigger] lines[i]@, xx, yy) {
                                let i = choose|i: int|
                                    0 <= i < li + 1 && marks_cell(#[trigger] lines[i]@, xx, yy);
                                assert(i != li);
                                assert(0 <= i < li && marks_cell(lines[i]@, xx, yy));
                            }
                        }
                    }
                }
            },
        }
        li = li + 1;
    }
    Ok(g)
}

/// One uniform-random cell state.
///
/// Relies on rand::random::<bool>(): it returns a boolean drawn from the
/// thread-local generator. Nothing can be promised of the value.
#[verifier::external_body]
fn random_cell() -> bool {
    rand::random::<bool>()
}

/// A grid of side `n` with every cell drawn at random.
pub fn random_grid(n: usize) -> (g: Grid)
    requires
        n * n <= usize::MAX,
    ensures
        g.wf(),
        g.side() == n,
{
    let mut g = Grid::new(n);
    let mut x: usize = 0;
    while x < n
        invariant
            g.wf(),
            g.side() == n,
            x <= n,
        decreases n - x,
    {
        let mut y: usize = 0;
        while y < n
            invariant
                g.wf(),
                g.side() == n,
                x < n,
                y <= n,
            decreases n - y,
        {
            let c = random_cell();
            g.set(x, y, c);
            y = y + 1;
        }
        x = x + 1;
    }
    g
}

} // verus!
