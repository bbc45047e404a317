use vstd::prelude::*;

use crate::eval::{chars_less, text_lt};
use crate::sql::SortDirection;
use crate::text::chars_of;

verus! {

pub open spec fn is_digit(c: char) -> bool {
    '0' <= c && c <= '9'
}

/// The value of a nonempty run of decimal digits.
pub open spec fn digits_value(s: Seq<char>) -> int
    decreases s.len(),
{
    if s.len() == 0 {
        0
    } else {
        digits_value(s.drop_last()) * 10 + (s.last() as int - '0' as int)
    }
}

pub open spec fn all_digits(s: Seq<char>) -> bool {
    forall|i: int| 0 <= i < s.len() ==> is_digit(#[trigger] s[i])
}

/// The digits part of a number's text: without a leading sign.
pub open spec fn unsigned_part(s: Seq<char>) -> Seq<char> {
    if s.len() > 0 && (s[0] == '-' || s[0] == '+') {
        s.drop_first()
    } else {
        s
    }
}

pub open spec fn parse_digits(body: Seq<char>, neg: bool) -> Option<int> {
    let v = if neg { -digits_value(body) } else { digits_value(body) };
    if body.len() > 0 && all_digits(body) && i64::MIN <= v <= i64::MAX {
        Some(v)
    } else {
        None
    }
}

/// The integer that a text denotes as a 64-bit decimal: an optional sign and at least one
/// digit, within range.
pub open spec fn parse_int(s: Seq<char>) -> Option<int> {
    parse_digits(unsigned_part(s), s.len() > 0 && s[0] == '-')
}

proof fn lemma_digits_value_nonneg(s: Seq<char>)
    requires
        all_digits(s),
    ensures
        digits_value(s) >= 0,
    decreases s.len(),
{
    if s.len() > 0 {
        lemma_digits_value_nonneg(s.drop_last());
    }
}

pub proof fn lemma_digits_value_grows(s: Seq<char>)
    requires
        all_digits(s),
    ensures
        forall|i: int| 0 <= i <= s.len() ==> digits_value(#[trigger] s.take(i)) <= digits_value(s),
    decreases s.len(),
{
    if s.len() > 0 {
        let p = s.drop_last();
        lemma_digits_value_grows(p);
        lemma_digits_value_nonneg(p);
        assert forall|i: int| 0 <= i <= s.len() implies digits_value(#[trigger] s.take(i)) <= digits_value(s) by {
            if i < s.len() {
                assert(s.take(i) =~= p.take(i));
            } else {
                assert(s.take(i) =~= s);
            }
        }
    }
}

/// Parses a decimal 64-bit integer with an optional sign.
pub fn parse_i64(s: &Vec<char>) -> (r: Option<i64>)
    ensures
        r matches Some(v) ==> parse_int(s@) == Some(v as int),
        r is None ==> parse_int(s@) is None,
{
    let n = s.len();
    let neg = n > 0 && s[0] == '-';
    let start: usize = if n > 0 && (s[0] == '-' || s[0] == '+') { 1 } else { 0 };
    let ghost body = unsigned_part(s@);
    assert(body =~= s@.subrange(start as int, n as int));
    assert(parse_int(s@) == parse_digits(body, neg));
    if start >= n {
        assert(body.len() == 0);
        return None;
    }
    let mut acc: i128 = 0;
    let mut i: usize = start;
    while i < n
        invariant
            start <= i <= n,
            n == s@.len(),
            body == s@.subrange(start as int, n as int),
            parse_int(s@) == parse_digits(body, neg),
            acc as int == digits_value(body.take(i - start)),
            0 <= acc <= 0x8000_0000_0000_0000,
            all_digits(body.take(i - start)),
        decreases n - i,
    {
        let c = s[i];
        assert(body.take(i - start + 1).drop_last() =~= body.take(i - start));
        assert(body[i - start] == c);
        if !('0' <= c && c <= '9') {
            assert(!all_digits(body));
            return None;
        }
        let d = (c as u32 - '0' as u32) as i128;
        let next = acc * 10 + d;
        assert(all_digits(body.take(i - start + 1)));
        if next > 0x8000_0000_0000_0000 {
            proof {
                if all_digits(body) {
                    lemma_digits_value_grows(body);
                    assert(body.take(body.len() as int) =~= body);
                    assert(digits_value(body.take(i - start + 1)) <= digits_value(body));
                }
            }
            return None;
        }
        acc = next;
        i += 1;
    }
    assert(body.take(n - start) =~= body);
    if neg {
        Some((0 - acc) as i64)
    } else if acc == 0x8000_0000_0000_0000 {
        None
    } else {
        Some(acc as i64)
    }
}

/// Whether cell `a` sorts before cell `b` in ascending order: numerically when both parse as
/// integers, otherwise as text.
pub open spec fn cell_lt(a: Seq<char>, b: Seq<char>) -> bool {
    match (parse_int(a), parse_int(b)) {
        (Some(x), Some(y)) => x < y,
        _ => text_lt(a, b),
    }
}

/// Whether `a` must come before `b` in the given direction.
pub open spec fn sorts_before(dir: SortDirection, a: Seq<char>, b: Seq<char>) -> bool {
    match dir {
        SortDirection::Asc => cell_lt(a, b),
        SortDirection::Desc => cell_lt(b, a),
    }
}

pub fn cell_less(a: &String, b: &String) -> (r: bool)
    ensures
        r == cell_lt(a@, b@),
{
    let ca = chars_of(a.as_str());
    let cb = chars_of(b.as_str());
    match (parse_i64(&ca), parse_i64(&cb)) {
        (Some(x), Some(y)) => x < y,
        _ => chars_less(&ca, &cb),
    }
}

/// Inserting `x` at the end of a sorted sequence, moving it left past every element it
/// sorts before.
pub open spec fn insert_sorted(
    s: Seq<Seq<Seq<char>>>,
    x: Seq<Seq<char>>,
    key: int,
    dir: SortDirection,
) -> Seq<Seq<Seq<char>>>
    decreases s.len(),
{
    if s.len() == 0 {
        seq![x]
    } else if sorts_before(dir, x[key], s.last()[key]) {
        insert_sorted(s.drop_last(), x, key, dir).push(s.last())
    } else {
        s.push(x)
    }
}

/// The stable insertion sort of `rows` by column `key`.
pub open spec fn sort_rows(rows: Seq<Seq<Seq<char>>>, key: int, dir: SortDirection) -> Seq<Seq<Seq<char>>>
    decreases rows.len(),
{
    if rows.len() == 0 {
        rows
    } else {
        insert_sorted(sort_rows(rows.drop_last(), key, dir), rows.last(), key, dir)
    }
}

pub open spec fn text_row(r: Vec<String>) -> Seq<Seq<char>> {
    r@.map_values(|c: String| c@)
}

pub open spec fn text_rows(rows: Seq<Vec<String>>) -> Seq<Seq<Seq<char>>> {
    rows.map_values(|r: Vec<String>| text_row(r))
}

pub open spec fn keyed(rows: Seq<Seq<Seq<char>>>, key: int) -> bool {
    forall|i: int| 0 <= i < rows.len() ==> key < (#[trigger] rows[i]).len()
}

fn sorts_before_exec(dir: SortDirection, a: &String, b: &String) -> (r: bool)
    ensures
        r == sorts_before(dir, a@, b@),
{
    match dir {
        SortDirection::Asc => cell_less(a, b),
        SortDirection::Desc => cell_less(b, a),
    }
}

/// Moves row `i` left past every row of the (sorted) prefix that it sorts before.
fn insert_row_sorted(rows: &mut Vec<Vec<String>>, i: usize, key: usize, dir: SortDirection)
    requires
        i < old(rows)@.len(),
        keyed(text_rows(old(rows)@), key as int),
    ensures
        final(rows)@.len() == old(rows)@.len(),
        keyed(text_rows(final(rows)@), key as int),
        text_rows(final(rows)@).take(i + 1) == insert_sorted(
            text_rows(old(rows)@).take(i as int),
            text_rows(old(rows)@)[i as int],
            key as int,
            dir,
        ),
        forall|k: int| i < k < final(rows)@.len() ==> text_rows(final(rows)@)[k] == text_rows(old(rows)@)[k],
{
    let ghost p = text_rows(rows@).take(i as int);
    let ghost x = text_rows(rows@)[i as int];
    let ghost n = rows@.len();
    assert(p.take(i as int) =~= p);
    assert(p.subrange(i as int, i as int) =~= Seq::<Seq<Seq<char>>>::empty());
    assert(insert_sorted(p, x, key as int, dir) =~= insert_sorted(p.take(i as int), x, key as int, dir) + p.subrange(
        i as int,
        i as int,
    ));
    assert forall|k: int| 0 <= k < n implies key < (#[trigger] rows@[k])@.len() by {
        assert(text_rows(rows@)[k].len() == rows@[k]@.len());
    }
    let mut j: usize = i;
    while j > 0 && sorts_before_exec(dir, &rows[j][key], &rows[j - 1][key])
        invariant
            j <= i < n,
            rows@.len() == n,
            p.len() == i,
            keyed(text_rows(rows@), key as int),
            forall|k: int| 0 <= k < n ==> key < (#[trigger] rows@[k])@.len(),
            text_rows(rows@)[j as int] == x,
            forall|k: int| 0 <= k < j ==> #[trigger] text_rows(rows@)[k] == p[k],
            forall|k: int| j < k <= i ==> #[trigger] text_rows(rows@)[k] == p[k - 1],
            forall|k: int| i < k < n ==> #[trigger] text_rows(rows@)[k] == text_rows(old(rows)@)[k],
            insert_sorted(p, x, key as int, dir) == insert_sorted(p.take(j as int), x, key as int, dir) + p.subrange(
                j as int,
                i as int,
            ),
        decreases j,
    {
        let ghost q = p.take(j as int);
        assert(q.drop_last() =~= p.take(j - 1));
        assert(q.last() == p[j - 1]);
        assert(text_rows(rows@)[j - 1] == p[j - 1]);
        assert(insert_sorted(q, x, key as int, dir) == insert_sorted(p.take(j - 1), x, key as int, dir).push(p[j - 1]));
        assert(insert_sorted(p.take(j - 1), x, key as int, dir).push(p[j - 1]) + p.subrange(j as int, i as int)
            =~= insert_sorted(p.take(j - 1), x, key as int, dir) + p.subrange(j - 1, i as int));
        let ghost before = rows@;
        let moved = rows.remove(j);
        rows.insert(j - 1, moved);
        assert forall|k: int| 0 <= k < n implies #[trigger] rows@[k] == (if k == j - 1 {
            before[j as int]
        } else if k == j {
            before[j - 1]
        } else {
            before[k]
        }) by {}
        assert forall|k: int| 0 <= k < n implies #[trigger] text_rows(rows@)[k] == (if k == j - 1 {
            text_rows(before)[j as int]
        } else if k == j {
            text_rows(before)[j - 1]
        } else {
            text_rows(before)[k]
        }) by {}
        assert forall|k: int| 0 <= k < n implies key < (#[trigger] rows@[k])@.len() by {
            assert(text_rows(rows@)[k].len() == rows@[k]@.len());
        }
        j -= 1;
    }
    proof {
        let q = p.take(j as int);
        if j > 0 {
            assert(q.drop_last() =~= p.take(j - 1));
            assert(q.last() == p[j - 1]);
            assert(text_rows(rows@)[j - 1] == p[j - 1]);
        } else {
            assert(q =~= Seq::<Seq<Seq<char>>>::empty());
        }
        assert(insert_sorted(q, x, key as int, dir) == q.push(x));
        assert(text_rows(rows@).take(i + 1) =~= q.push(x) + p.subrange(j as int, i as int));
    }
}

/// Sorts result rows stably by the cells of column `key`.
pub fn sort_by_column(rows: &mut Vec<Vec<String>>, key: usize, dir: SortDirection)
    requires
        keyed(text_rows(old(rows)@), key as int),
    ensures
        text_rows(final(rows)@) == sort_rows(text_rows(old(rows)@), key as int, dir),
{
    let ghost orig = text_rows(rows@);
    let ghost n = rows@.len();
    let mut i: usize = 0;
    assert(text_rows(rows@).take(0) =~= sort_rows(orig.take(0), key as int, dir));
    while i < rows.len()
        invariant
            i <= n,
            rows@.len() == n,
            orig.len() == n,
            keyed(text_rows(rows@), key as int),
            text_rows(rows@).take(i as int) == sort_rows(orig.take(i as int), key as int, dir),
            forall|k: int| i <= k < n ==> #[trigger] text_rows(rows@)[k] == orig[k],
        decreases n - i,
    {
        assert(orig.take(i + 1).drop_last() =~= orig.take(i as int));
        assert(orig.take(i + 1).last() == orig[i as int]);
        insert_row_sorted(rows, i, key, dir);
        i += 1;
    }
    assert(text_rows(rows@).take(n as int) =~= text_rows(rows@));
    assert(orig.take(n as int) =~= orig);
}

} // verus!
