use vstd::prelude::*;

use crate::order::{text_row, text_rows};
use crate::text::{push_char, push_str};

verus! {

/// How a cell is displayed: the text `NULL` shows as a blank.
pub open spec fn shown(c: Seq<char>) -> Seq<char> {
    if c == seq!['N', 'U', 'L', 'L'] {
        Seq::empty()
    } else {
        c
    }
}

pub open spec fn repeated(c: char, n: nat) -> Seq<char> {
    Seq::new(n, |i: int| c)
}

pub open spec fn max_int(a: int, b: int) -> int {
    if a >= b { a } else { b }
}

/// The widest displayed cell of column `i` among the first `m` rows.
pub open spec fn widest_cell(rows: Seq<Seq<Seq<char>>>, i: int, m: int) -> int
    decreases m,
{
    if m <= 0 {
        0
    } else {
        let w = if i < rows[m - 1].len() { shown(rows[m - 1][i]).len() as int } else { 0 };
        max_int(widest_cell(rows, i, m - 1), w)
    }
}

/// Column width: the longest of the header and the displayed cells, at least 3.
pub open spec fn column_width(headers: Seq<Seq<char>>, rows: Seq<Seq<Seq<char>>>, i: int) -> int {
    max_int(3, max_int(headers[i].len() as int, widest_cell(rows, i, rows.len() as int)))
}

pub open spec fn column_widths(headers: Seq<Seq<char>>, rows: Seq<Seq<Seq<char>>>) -> Seq<int> {
    Seq::new(headers.len(), |i: int| column_width(headers, rows, i))
}

/// One bordered cell: a space, the displayed text left-aligned and padded to the width,
/// a space, and the right border.
pub open spec fn cell_line(c: Seq<char>, w: int) -> Seq<char> {
    seq![' '] + shown(c) + repeated(' ', (w - shown(c).len() + 1) as nat) + seq!['|']
}

/// The first `n` cells of a line, after the left border.
pub open spec fn row_line(cells: Seq<Seq<char>>, widths: Seq<int>, n: int) -> Seq<char>
    decreases n,
{
    if n <= 0 {
        seq!['|']
    } else {
        row_line(cells, widths, n - 1) + cell_line(cells[n - 1], widths[n - 1])
    }
}

pub open spec fn line_of(cells: Seq<Seq<char>>, widths: Seq<int>) -> Seq<char> {
    row_line(cells, widths, if cells.len() < widths.len() { cells.len() as int } else { widths.len() as int })
}

pub open spec fn separator(widths: Seq<int>, n: int) -> Seq<char>
    decreases n,
{
    if n <= 0 {
        seq!['|']
    } else {
        separator(widths, n - 1) + seq![' '] + repeated('-', widths[n - 1] as nat) + seq![' ', '|']
    }
}

pub open spec fn body_lines(rows: Seq<Seq<Seq<char>>>, widths: Seq<int>, m: int) -> Seq<char>
    decreases m,
{
    if m <= 0 {
        Seq::empty()
    } else {
        body_lines(rows, widths, m - 1) + line_of(rows[m - 1], widths) + seq!['\n']
    }
}

/// The rendered table: header line, separator line, then one line per row.
pub open spec fn table_text(headers: Seq<Seq<char>>, rows: Seq<Seq<Seq<char>>>) -> Seq<char> {
    let w = column_widths(headers, rows);
    line_of(headers, w) + seq!['\n'] + separator(w, w.len() as int) + seq!['\n'] + body_lines(
        rows,
        w,
        rows.len() as int,
    )
}

proof fn lemma_widest_cell(rows: Seq<Seq<Seq<char>>>, i: int, m: int, j: int)
    requires
        0 <= j < m <= rows.len(),
        i < rows[j].len(),
    ensures
        shown(rows[j][i]).len() <= widest_cell(rows, i, m),
    decreases m,
{
    if j < m - 1 {
        lemma_widest_cell(rows, i, m - 1, j);
    }
}

fn is_null_text(c: &String) -> (r: bool)
    ensures
        r == (c@ == seq!['N', 'U', 'L', 'L']),
{
    let n = "NULL".to_owned();
    proof {
        reveal_strlit("NULL");
    }
    assert(n@ =~= seq!['N', 'U', 'L', 'L']);
    *c == n
}

fn shown_len(c: &String) -> (r: usize)
    ensures
        r == shown(c@).len(),
{
    if is_null_text(c) {
        0
    } else {
        c.unicode_len()
    }
}

fn push_repeated(s: &mut String, c: char, n: usize)
    ensures
        final(s)@ == old(s)@ + repeated(c, n as nat),
{
    let mut i: usize = 0;
    while i < n
        invariant
            i <= n,
            s@ == old(s)@ + repeated(c, i as nat),
        decreases n - i,
    {
        push_char(s, c);
        i += 1;
        assert(s@ =~= old(s)@ + repeated(c, i as nat));
    }
}

fn widths_of(headers: &Vec<String>, rows: &Vec<Vec<String>>) -> (r: Vec<usize>)
    ensures
        r@.len() == headers@.len(),
        forall|i: int| 0 <= i < r@.len() ==> r@[i] as int == column_widths(text_row(*headers), text_rows(rows@))[i],
{
    let ghost hs = text_row(*headers);
    let ghost rs = text_rows(rows@);
    let mut r: Vec<usize> = Vec::new();
    let mut i: usize = 0;
    while i < headers.len()
        invariant
            i <= headers@.len(),
            hs == text_row(*headers),
            rs == text_rows(rows@),
            r@.len() == i,
            forall|k: int| 0 <= k < i ==> (#[trigger] r@[k]) as int == column_width(hs, rs, k),
        decreases headers.len() - i,
    {
        let mut w: usize = 0;
        let mut j: usize = 0;
        while j < rows.len()
            invariant
                j <= rows@.len(),
                i < headers@.len(),
                rs == text_rows(rows@),
                w as int == widest_cell(rs, i as int, j as int),
            decreases rows.len() - j,
        {
            assert(rs[j as int] == text_row(rows@[j as int]));
            if i < rows[j].len() {
                let cw = shown_len(&rows[j][i]);
                if cw > w {
                    w = cw;
                }
            }
            j += 1;
        }
        let hl = headers[i].unicode_len();
        if hl > w {
            w = hl;
        }
        if w < 3 {
            w = 3;
        }
        r.push(w);
        i += 1;
    }
    r
}

fn format_row(cells: &Vec<String>, widths: &Vec<usize>) -> (r: String)
    requires
        forall|i: int| 0 <= i < cells@.len() && i < widths@.len() ==> shown((#[trigger] cells@[i])@).len() <= widths@[i],
    ensures
        r@ == line_of(text_row(*cells), widths@.map_values(|w: usize| w as int)),
{
    let ghost ws = widths@.map_values(|w: usize| w as int);
    let ghost cs = text_row(*cells);
    let n = if cells.len() < widths.len() { cells.len() } else { widths.len() };
    let mut s = String::new();
    push_char(&mut s, '|');
    assert(s@ =~= seq!['|']);
    let mut i: usize = 0;
    while i < n
        invariant
            i <= n,
            n <= cells@.len(),
            n <= widths@.len(),
            ws == widths@.map_values(|w: usize| w as int),
            cs == text_row(*cells),
            forall|k: int| 0 <= k < cells@.len() && k < widths@.len() ==> shown((#[trigger] cells@[k])@).len() <= widths@[k],
            s@ == row_line(cs, ws, i as int),
        decreases n - i,
    {
        let ghost before = s@;
        let c = &cells[i];
        assert(cs[i as int] == c@);
        let len = shown_len(c);
        push_char(&mut s, ' ');
        if !is_null_text(c) {
            push_str(&mut s, c.as_str());
        }
        push_repeated(&mut s, ' ', widths[i] - len);
        push_char(&mut s, ' ');
        push_char(&mut s, '|');
        assert(repeated(' ', (widths@[i as int] - len) as nat).push(' ') =~= repeated(' ', (ws[i as int] - shown(cs[i as int]).len() + 1) as nat));
        assert(s@ =~= before + cell_line(cs[i as int], ws[i as int]));
        i += 1;
    }
    s
}

/// Renders a bordered, left-aligned table with a header line and a separator line.
pub fn render_table(headers: &Vec<String>, rows: &Vec<Vec<String>>) -> (r: String)
    ensures
        r@ == table_text(text_row(*headers), text_rows(rows@)),
{
    let ghost hs = text_row(*headers);
    let ghost rs = text_rows(rows@);
    let widths = widths_of(headers, rows);
    let ghost ws = widths@.map_values(|w: usize| w as int);
    assert(ws =~= column_widths(hs, rs));
    proof {
        assert forall|j: int, i: int| 0 <= j < rs.len() && 0 <= i < rs[j].len() && i < ws.len() implies shown(
            #[trigger] rs[j][i],
        ).len() <= ws[i] by {
            lemma_widest_cell(rs, i, rs.len() as int, j);
        }
    }
    let mut result = format_row(headers, &widths);
    push_char(&mut result, '\n');
    let mut sep = String::new();
    push_char(&mut sep, '|');
    assert(sep@ =~= seq!['|']);
    let mut i: usize = 0;
    while i < widths.len()
        invariant
            i <= widths@.len(),
            ws == widths@.map_values(|w: usize| w as int),
            sep@ == separator(ws, i as int),
        decreases widths.len() - i,
    {
        let ghost before = sep@;
        push_char(&mut sep, ' ');
        push_repeated(&mut sep, '-', widths[i]);
        push_char(&mut sep, ' ');
        push_char(&mut sep, '|');
        assert(sep@ =~= before + seq![' '] + repeated('-', ws[i as int] as nat) + seq![' ', '|']);
        i += 1;
    }
    push_str(&mut result, sep.as_str());
    push_char(&mut result, '\n');
    let mut j: usize = 0;
    while j < rows.len()
        invariant
            j <= rows@.len(),
            rs == text_rows(rows@),
            ws == widths@.map_values(|w: usize| w as int),
            ws == column_widths(hs, rs),
            forall|a: int, i: int| 0 <= a < rs.len() && 0 <= i < rs[a].len() && i < ws.len() ==> shown(
                #[trigger] rs[a][i],
            ).len() <= ws[i],
            result@ == line_of(hs, ws) + seq!['\n'] + separator(ws, ws.len() as int) + seq!['\n'] + body_lines(
                rs,
                ws,
                j as int,
            ),
        decreases rows.len() - j,
    {
        let ghost before = result@;
        assert(rs[j as int] == text_row(rows@[j as int]));
        assert forall|i: int| 0 <= i < rows@[j as int]@.len() && i < widths@.len() implies shown(
            (#[trigger] rows@[j as int]@[i])@,
        ).len() <= widths@[i] by {
            assert(rs[j as int][i] == rows@[j as int]@[i]@);
        }
        let line = format_row(&rows[j], &widths);
        push_str(&mut result, line.as_str());
        push_char(&mut result, '\n');
        assert(result@ =~= line_of(hs, ws) + seq!['\n'] + separator(ws, ws.len() as int) + seq!['\n'] + body_lines(
            rs,
            ws,
            j + 1,
        ));
        j += 1;
    }
    result
}

/// Renders query results as bordered tables.
pub struct TableFormatter;

impl TableFormatter {
    /// Renders a bordered, left-aligned table: each column as wide as its longest entry (at
    /// least 3), cells holding `NULL` shown blank.
    pub fn format_table(headers: &Vec<String>, rows: &Vec<Vec<String>>) -> (r: String)
        ensures
            r@ == table_text(text_row(*headers), text_rows(rows@)),
    {
        render_table(headers, rows)
    }
}

} // verus!
