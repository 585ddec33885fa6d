//! Sudokus as lines of digits and as rows of numbers, and their solutions.
//!
//! Solving is the work of the `sudoku` crate: this module turns rows into
//! lines and lines into rows, says which lines the solver takes, and makes
//! the call.

use vstd::prelude::*;

verus! {

/// Whether `c` is a decimal digit.
pub open spec fn is_digit(c: char) -> bool {
    '0' <= c && c <= '9'
}

/// Whether `c` can stand for a cell: a digit, or a dot or an underscore
/// for an empty cell.
pub open spec fn is_cell(c: char) -> bool {
    is_digit(c) || c == '.' || c == '_'
}

/// Whether `c` can follow a sudoku on its line.
pub open spec fn is_delimiter(c: char) -> bool {
    c == '\t' || c == ' ' || c == '\r' || c == '\n' || c == ';' || c == ','
}

/// Whether a line holds a sudoku: eighty-one cells, and after them nothing
/// or a delimiter and whatever follows it.
pub open spec fn is_sudoku_line(line: Seq<char>) -> bool {
    &&& line.len() >= 81
    &&& forall|i: int| 0 <= i < 81 ==> is_cell(#[trigger] line[i])
    &&& line.len() > 81 ==> is_delimiter(line[81])
}

/// The number that a digit stands for.
pub open spec fn digit_value(c: char) -> u32 {
    (c as u32 - 48) as u32
}

/// The digit that stands for a number below ten.
pub open spec fn digit_of(n: u32) -> char {
    ((48 + n) as u8) as char
}

/// The solution of the sudoku on a line, if it has exactly one.
pub uninterp spec fn unique_solution(line: Seq<char>) -> Option<Seq<char>>;

/// `Sudoku::solution` of the `sudoku` crate, on the sudoku that
/// `Sudoku::from_str_line` reads from the line, written as a line again by
/// `to_string`. `from_str_line` takes the lines that hold a sudoku. The
/// solution is there if the sudoku has exactly one; it has a digit from 1 to
/// 9 in each of its eighty-one cells.
#[verifier::external_body]
fn solve(line: &str) -> (r: Option<String>)
    requires
        is_sudoku_line(line@),
    ensures
        match r {
            Some(s) => unique_solution(line@) == Some(s@) && s@.len() == 81 && forall|i: int|
                0 <= i < 81 ==> is_digit(#[trigger] s@[i]),
            None => unique_solution(line@) is None,
        },
{
    ::sudoku::Sudoku::from_str_line(line).ok()?.solution().map(|s| s.to_string())
}

/// Whether the line `line` holds a sudoku.
pub fn is_valid_line(line: &str) -> (r: bool)
    ensures
        r == is_sudoku_line(line@),
{
    let n = line.unicode_len();
    if n < 81 {
        return false;
    }
    let mut i: usize = 0;
    while i < 81
        invariant
            i <= 81,
            n == line@.len(),
            n >= 81,
            forall|j: int| 0 <= j < i ==> is_cell(#[trigger] line@[j]),
        decreases 81 - i,
    {
        let c = line.get_char(i);
        if !(('0' <= c && c <= '9') || c == '.' || c == '_') {
            return false;
        }
        i = i + 1;
    }
    if n > 81 {
        let c = line.get_char(81);
        c == '\t' || c == ' ' || c == '\r' || c == '\n' || c == ';' || c == ','
    } else {
        true
    }
}

/// The rows of a line of digits: nine numbers to a row, the last row as
/// short as it must be.
pub fn string_to_9x9_array(s: &str) -> (r: Vec<Vec<u32>>)
    requires
        forall|i: int| 0 <= i < s@.len() ==> is_digit(#[trigger] s@[i]),
    ensures
        r.len() == (s@.len() + 8) / 9,
        forall|i: int|
            0 <= i < r.len() ==> (#[trigger] r[i]).len() == if (i + 1) * 9 <= s@.len() {
                9
            } else {
                s@.len() - i * 9
            },
        forall|i: int, j: int|
            0 <= i < r.len() && 0 <= j < r[i].len() ==> #[trigger] r[i][j] == digit_value(
                s@[i * 9 + j],
            ),
{
    let n = s.unicode_len();
    let mut rows: Vec<Vec<u32>> = Vec::new();
    let mut row: Vec<u32> = Vec::new();
    let mut k: usize = 0;
    while k < n
        invariant
            k <= n,
            n == s@.len(),
            forall|i: int| 0 <= i < s@.len() ==> is_digit(#[trigger] s@[i]),
            rows.len() == k / 9,
            row.len() == k % 9,
            forall|i: int| 0 <= i < rows.len() ==> (#[trigger] rows[i]).len() == 9,
            forall|i: int, j: int|
                0 <= i < rows.len() && 0 <= j < 9 ==> #[trigger] rows[i][j] == digit_value(
                    s@[i * 9 + j],
                ),
            forall|j: int|
                0 <= j < row.len() ==> #[trigger] row[j] == digit_value(s@[(k / 9) * 9 + j]),
        decreases n - k,
    {
        let c = s.get_char(k);
        assert(is_digit(s@[k as int]));
        let d: u32 = (c as u32) - 48;
        row.push(d);
        if row.len() == 9 {
            let ghost done = rows@;
            rows.push(row);
            row = Vec::new();
            assert forall|i: int, j: int|
                0 <= i < rows.len() && 0 <= j < 9 implies #[trigger] rows[i][j] == digit_value(
                s@[i * 9 + j],
            ) by {
                if i < done.len() {
                    assert(rows[i] == done[i]);
                }
            }
        }
        k = k + 1;
    }
    if row.len() > 0 {
        let ghost done = rows@;
        rows.push(row);
        assert forall|i: int, j: int|
            0 <= i < rows.len() && 0 <= j < rows[i].len() implies #[trigger] rows[i][j]
            == digit_value(s@[i * 9 + j]) by {
            if i < done.len() {
                assert(rows[i] == done[i]);
            }
        }
    }
    rows
}

/// The digits of the first `n` rows, row after row.
pub open spec fn digits_of(array: Seq<Vec<u32>>, n: nat) -> Seq<char>
    decreases n,
{
    if n == 0 || n > array.len() {
        Seq::empty()
    } else {
        digits_of(array, (n - 1) as nat) + array[n - 1]@.map_values(|x: u32| digit_of(x))
    }
}

/// The line of digits of rows of numbers below ten.
pub fn array_9x9_to_string(array: &Vec<Vec<u32>>) -> (r: String)
    requires
        forall|i: int, j: int|
            0 <= i < array.len() && 0 <= j < array[i].len() ==> #[trigger] array[i][j] < 10,
    ensures
        r@ == digits_of(array@, array.len() as nat),
{
    let mut out = String::new();
    let mut i: usize = 0;
    while i < array.len()
        invariant
            i <= array.len(),
            forall|a: int, b: int|
                0 <= a < array.len() && 0 <= b < array[a].len() ==> #[trigger] array[a][b] < 10,
            out@ == digits_of(array@, i as nat),
        decreases array.len() - i,
    {
        let row = &array[i];
        let ghost before = out@;
        let mut j: usize = 0;
        while j < row.len()
            invariant
                j <= row.len(),
                forall|b: int| 0 <= b < row.len() ==> #[trigger] row[b] < 10,
                out@ == before + row@.take(j as int).map_values(|x: u32| digit_of(x)),
            decreases row.len() - j,
        {
            let n = row[j];
            assert(row[j as int] < 10);
            out.push((48 + n as u8) as char);
            assert(row@.take(j + 1) == row@.take(j as int).push(row@[j as int]));
            assert(out@ =~= before + row@.take(j + 1).map_values(|x: u32| digit_of(x)));
            j = j + 1;
        }
        assert(row@.take(row.len() as int) == row@);
        i = i + 1;
    }
    out
}

/// The solution of the sudoku on the line, as a line; the empty line where
/// the sudoku has no solution or more than one.
pub fn from_str_line(sudoku_line: String) -> (r: String)
    requires
        is_sudoku_line(sudoku_line@),
    ensures
        r@ == match unique_solution(sudoku_line@) {
            Some(s) => s,
            None => Seq::<char>::empty(),
        },
{
    match solve(sudoku_line.as_str()) {
        Some(solution) => solution,
        None => String::new(),
    }
}

/// The solution of the sudoku in the rows, as rows; no rows where the sudoku
/// has no solution or more than one.
pub fn from_num_list(sudoku_list: Vec<Vec<u32>>) -> (r: Vec<Vec<u32>>)
    requires
        forall|i: int, j: int|
            0 <= i < sudoku_list.len() && 0 <= j < sudoku_list[i].len()
                ==> #[trigger] sudoku_list[i][j] < 10,
        digits_of(sudoku_list@, sudoku_list.len() as nat).len() == 81,
    ensures
        unique_solution(digits_of(sudoku_list@, sudoku_list.len() as nat)) is None ==> r.len()
            == 0,
        unique_solution(digits_of(sudoku_list@, sudoku_list.len() as nat)) is Some ==> {
            let s = unique_solution(digits_of(sudoku_list@, sudoku_list.len() as nat))->0;
            &&& r.len() == 9
            &&& forall|i: int, j: int|
                0 <= i < 9 && 0 <= j < 9 ==> r[i].len() == 9 && #[trigger] r[i][j] == digit_value(
                    s[i * 9 + j],
                )
        },
{
    let line = array_9x9_to_string(&sudoku_list);
    proof {
        lemma_digits(sudoku_list@, sudoku_list.len() as nat);
    }
    match solve(line.as_str()) {
        Some(solution) => string_to_9x9_array(solution.as_str()),
        None => Vec::new(),
    }
}

/// The line of rows of numbers below ten holds digits alone.
proof fn lemma_digits(array: Seq<Vec<u32>>, n: nat)
    requires
        n <= array.len(),
        forall|i: int, j: int|
            0 <= i < array.len() && 0 <= j < array[i].len() ==> #[trigger] array[i][j] < 10,
    ensures
        forall|k: int|
            0 <= k < digits_of(array, n).len() ==> is_digit(#[trigger] digits_of(array, n)[k]),
    decreases n,
{
    if n > 0 {
        lemma_digits(array, (n - 1) as nat);
        let head = digits_of(array, (n - 1) as nat);
        let row = array[n - 1]@;
        assert forall|k: int| 0 <= k < digits_of(array, n).len() implies is_digit(
            #[trigger] digits_of(array, n)[k],
        ) by {
            if k >= head.len() {
                let j = k - head.len();
                assert(digits_of(array, n)[k] == digit_of(row[j]));
                assert(array[n - 1][j] < 10);
            }
        }
    }
}

} // verus!
