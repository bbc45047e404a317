use vstd::prelude::*;

use crate::db::{sql_effect, text_of, Database, ErrorDisplayMode, StorageType};
use crate::error::{brief_text, detailed_text, DbError};
use crate::lexer::upper;
use crate::types::TableModel;
use crate::lexer::whitespace;
use crate::text::{chars_of, push_char, push_str, string_of};

verus! {

/// Where the comment stripper is: inside a line comment, a block comment, or a quoted
/// string (with its quote character).
pub struct StripState {
    pub line: bool,
    pub block: bool,
    pub quoted: bool,
    pub quote: char,
}

/// The text of `s` from `i` on with `--` line comments and `/* */` block comments removed;
/// comment markers inside quoted strings are kept. A quote preceded by a backslash neither
/// opens nor closes a string.
pub open spec fn strip_from(s: Seq<char>, i: int, st: StripState) -> Seq<char>
    decreases s.len() - i,
{
    if i < 0 || i >= s.len() {
        Seq::empty()
    } else {
        let c = s[i];
        let has_next = i + 1 < s.len();
        let opens = !st.line && !st.block && (c == '\'' || c == '"') && (i == 0 || s[i - 1] != '\\');
        let quoted = if opens { if !st.quoted { true } else if c == st.quote { false } else { true } } else {
            st.quoted
        };
        let quote = if opens && !st.quoted { c } else { st.quote };
        let st1 = StripState { quoted, quote, ..st };
        if !st1.quoted && !st1.block && !st1.line && c == '-' && has_next && s[i + 1] == '-' {
            strip_from(s, i + 2, StripState { line: true, ..st1 })
        } else if !st1.quoted && !st1.line && !st1.block && c == '/' && has_next && s[i + 1] == '*' {
            strip_from(s, i + 2, StripState { block: true, ..st1 })
        } else if !st1.quoted && !st1.line && st1.block && c == '*' && has_next && s[i + 1] == '/' {
            strip_from(s, i + 2, StripState { block: false, ..st1 })
        } else {
            let line = if st1.line && (c == '\n' || c == '\r') { false } else { st1.line };
            let st2 = StripState { line, ..st1 };
            let rest = strip_from(s, i + 1, st2);
            if !st2.line && !st2.block {
                seq![c] + rest
            } else {
                rest
            }
        }
    }
}

pub open spec fn start_state() -> StripState {
    StripState { line: false, block: false, quoted: false, quote: '\0' }
}

/// Removes SQL comments, keeping quoted text intact.
pub fn remove_comments(sql: &str) -> (r: String)
    ensures
        r@ == strip_from(sql@, 0, start_state()),
{
    let s = chars_of(sql);
    let n = s.len();
    let mut out = String::new();
    let mut line = false;
    let mut block = false;
    let mut quoted = false;
    let mut quote = '\0';
    let mut i: usize = 0;
    while i < n
        invariant
            s@ == sql@,
            n == s@.len(),
            i <= n + 1,
            strip_from(s@, 0, start_state()) == out@ + strip_from(
                s@,
                i as int,
                StripState { line, block, quoted, quote },
            ),
        decreases n + 1 - i,
    {
        let ghost before = out@;
        let ghost st = StripState { line, block, quoted, quote };
        let c = s[i];
        let has_next = n - i > 1;
        if !line && !block && (c == '\'' || c == '"') && (i == 0 || s[i - 1] != '\\') {
            if !quoted {
                quoted = true;
                quote = c;
            } else if c == quote {
                quoted = false;
            }
        }
        if !quoted && !block && !line && c == '-' && has_next && s[i + 1] == '-' {
            line = true;
            i = i + 2;
            continue;
        }
        if !quoted && !line && !block && c == '/' && has_next && s[i + 1] == '*' {
            block = true;
            i = i + 2;
            continue;
        }
        if !quoted && !line && block && c == '*' && has_next && s[i + 1] == '/' {
            block = false;
            i = i + 2;
            continue;
        }
        if line && (c == '\n' || c == '\r') {
            line = false;
        }
        if !line && !block {
            push_char(&mut out, c);
            assert(before + (seq![c] + strip_from(s@, i + 1, StripState { line, block, quoted, quote })) =~= out@
                + strip_from(s@, i + 1, StripState { line, block, quoted, quote }));
        }
        i = i + 1;
    }
    assert(strip_from(s@, i as int, StripState { line, block, quoted, quote }) == Seq::<char>::empty());
    assert(out@ + Seq::<char>::empty() =~= out@);
    out
}

/// The pieces of `s` between `;` separators (as `str::split` gives them).
pub open spec fn pieces(s: Seq<char>) -> Seq<Seq<char>>
    decreases s.len(),
{
    if s.len() == 0 {
        seq![Seq::empty()]
    } else {
        let p = pieces(s.drop_last());
        if s.last() == ';' {
            p.push(Seq::empty())
        } else {
            p.update(p.len() - 1, p.last().push(s.last()))
        }
    }
}

pub open spec fn leading_ws(t: Seq<char>, i: int) -> int
    decreases t.len() - i,
{
    if 0 <= i < t.len() && whitespace(t[i]) {
        leading_ws(t, i + 1)
    } else {
        i
    }
}

pub open spec fn trailing_ws(t: Seq<char>, j: int, lo: int) -> int
    decreases j - lo,
{
    if lo < j && j <= t.len() && whitespace(t[j - 1]) {
        trailing_ws(t, j - 1, lo)
    } else {
        j
    }
}

/// `t` without leading and trailing whitespace.
pub open spec fn trimmed(t: Seq<char>) -> Seq<char> {
    let a = leading_ws(t, 0);
    t.subrange(a, trailing_ws(t, t.len() as int, a))
}

/// The nonempty trimmed pieces among the first `n`.
pub open spec fn statements_of(ps: Seq<Seq<char>>, n: int) -> Seq<Seq<char>>
    decreases n,
{
    if n <= 0 {
        Seq::empty()
    } else {
        let prev = statements_of(ps, n - 1);
        let t = trimmed(ps[n - 1]);
        if t.len() == 0 {
            prev
        } else {
            prev.push(t)
        }
    }
}

/// Whether `c` is whitespace, as the lexer classifies it.
fn is_ws(c: char) -> (r: bool)
    ensures
        r == whitespace(c),
{
    crate::lexer::char_is_whitespace(c)
}

proof fn lemma_leading(t: Seq<char>, i: int)
    requires
        0 <= i <= t.len(),
    ensures
        i <= leading_ws(t, i) <= t.len(),
    decreases t.len() - i,
{
    if i < t.len() && whitespace(t[i]) {
        lemma_leading(t, i + 1);
    }
}

proof fn lemma_trailing(t: Seq<char>, j: int, lo: int)
    requires
        0 <= lo <= j <= t.len(),
    ensures
        lo <= trailing_ws(t, j, lo) <= j,
    decreases j - lo,
{
    if lo < j && whitespace(t[j - 1]) {
        lemma_trailing(t, j - 1, lo);
    }
}

/// Trims the characters `s[from..to]`.
fn trim_range(s: &Vec<char>, from: usize, to: usize) -> (r: String)
    requires
        from <= to <= s@.len(),
    ensures
        r@ == trimmed(s@.subrange(from as int, to as int)),
{
    let ghost t = s@.subrange(from as int, to as int);
    let mut a = from;
    while a < to && is_ws(s[a])
        invariant
            from <= a <= to <= s@.len(),
            t == s@.subrange(from as int, to as int),
            leading_ws(t, 0) == leading_ws(t, a - from),
        decreases to - a,
    {
        assert(t[a - from] == s@[a as int]);
        a += 1;
    }
    if a < to {
        assert(t[a - from] == s@[a as int]);
    }
    assert(leading_ws(t, a - from) == a - from);
    let mut b = to;
    while b > a && is_ws(s[b - 1])
        invariant
            from <= a <= b <= to <= s@.len(),
            t == s@.subrange(from as int, to as int),
            trailing_ws(t, t.len() as int, a - from) == trailing_ws(t, b - from, a - from),
        decreases b - a,
    {
        assert(t[b - 1 - from] == s@[b - 1]);
        b -= 1;
    }
    if b > a {
        assert(t[b - 1 - from] == s@[b - 1]);
    }
    assert(trailing_ws(t, b - from, a - from) == b - from);
    let r = string_of(s, a, b);
    assert(r@ =~= t.subrange(a - from, b - from));
    r
}

/// The statements of a script: the text between `;` separators, trimmed, empty ones dropped.
pub fn split_statements(sql: &str) -> (r: Vec<String>)
    ensures
        r@.map_values(|x: String| x@) == statements_of(pieces(sql@), pieces(sql@).len() as int),
{
    let s = chars_of(sql);
    let n = s.len();
    let mut out: Vec<String> = Vec::new();
    let mut start: usize = 0;
    let mut i: usize = 0;
    assert(pieces(s@.take(0)) == seq![Seq::<char>::empty()]);
    while i < n
        invariant
            s@ == sql@,
            n == s@.len(),
            start <= i <= n,
            pieces(s@.take(i as int)).len() >= 1,
            pieces(s@.take(i as int)).last() == s@.subrange(start as int, i as int),
            out@.map_values(|x: String| x@) == statements_of(
                pieces(s@.take(i as int)),
                pieces(s@.take(i as int)).len() - 1,
            ),
        decreases n - i,
    {
        let ghost p = pieces(s@.take(i as int));
        assert(s@.take(i + 1).drop_last() =~= s@.take(i as int));
        assert(s@.take(i + 1).last() == s@[i as int]);
        if s[i] == ';' {
            let piece = trim_range(&s, start, i);
            let ghost q = pieces(s@.take(i + 1));
            assert(q == p.push(Seq::empty()));
            assert(q[p.len() - 1] == p.last());
            assert(statements_of(q, p.len() - 1) == statements_of(p, p.len() - 1)) by {
                lemma_statements_prefix(p, q, p.len() - 1);
            }
            if piece.unicode_len() > 0 {
                let ghost before = out@.map_values(|x: String| x@);
                out.push(piece);
                assert(out@.map_values(|x: String| x@) =~= before.push(piece@));
            }
            start = i + 1;
            assert(q.last() =~= s@.subrange(start as int, i + 1));
        } else {
            let ghost q = pieces(s@.take(i + 1));
            assert(q == p.update(p.len() - 1, p.last().push(s@[i as int])));
            assert(statements_of(q, p.len() - 1) == statements_of(p, p.len() - 1)) by {
                lemma_statements_prefix(p, q, p.len() - 1);
            }
            assert(q.last() =~= s@.subrange(start as int, i + 1));
        }
        i += 1;
    }
    assert(s@.take(n as int) =~= s@);
    let ghost p = pieces(s@);
    let piece = trim_range(&s, start, n);
    if piece.unicode_len() > 0 {
        let ghost before = out@.map_values(|x: String| x@);
        out.push(piece);
        assert(out@.map_values(|x: String| x@) =~= before.push(piece@));
    }
    out
}

proof fn lemma_statements_prefix(p: Seq<Seq<char>>, q: Seq<Seq<char>>, n: int)
    requires
        0 <= n <= p.len(),
        n <= q.len(),
        forall|k: int| 0 <= k < n ==> #[trigger] p[k] == q[k],
    ensures
        statements_of(q, n) == statements_of(p, n),
    decreases n,
{
    if n > 0 {
        lemma_statements_prefix(p, q, n - 1);
    }
}

/// What running a script produced: whether every statement succeeded, and the text to show.
pub struct SqlResult {
    pub success: bool,
    pub error_message: String,
    pub output: String,
}

/// A statement that is a query: it starts with `SELECT` in any case.
pub open spec fn is_select_text(t: Seq<char>) -> bool {
    t.len() >= 6 && upper(t.subrange(0, 6)) == "SELECT"@
}

fn starts_with_select(stmt: &String) -> (r: bool)
    ensures
        r == is_select_text(stmt@),
{
    let cs = chars_of(stmt.as_str());
    if cs.len() < 6 {
        return false;
    }
    let u = crate::lexer::upper_chars(&cs, 0, 6);
    crate::lexer::same(&u, "SELECT")
}

/// The state of a script run between statements.
pub struct RunState {
    pub db: Seq<TableModel>,
    pub output: Seq<char>,
    pub success: bool,
    pub error_message: Seq<char>,
    pub last_shown: bool,
    pub ran_select: bool,
    pub shown_any: bool,
}

pub open spec fn start_run(db: Seq<TableModel>) -> RunState {
    RunState {
        db,
        output: Seq::empty(),
        success: true,
        error_message: Seq::empty(),
        last_shown: false,
        ran_select: false,
        shown_any: false,
    }
}

pub open spec fn error_text(mode: ErrorDisplayMode, e: DbError) -> Seq<char> {
    if mode == ErrorDisplayMode::Brief {
        brief_text(e)
    } else {
        detailed_text(e)
    }
}

/// The state after one statement `stmt` that left the catalog `after` and returned `r`: a
/// query that follows shown output is preceded by a blank line; a result's text is appended;
/// an error's message is appended on its own line, the run is marked failed, and the first
/// error's message is kept (`Error` if that message is empty).
pub open spec fn step(st: RunState, stmt: Seq<char>, mode: ErrorDisplayMode, after: Seq<TableModel>, r: Result<
    String,
    DbError,
>) -> RunState {
    let sel = is_select_text(stmt);
    let out0 = if sel && st.last_shown { st.output.push('\n') } else { st.output };
    match r {
        Ok(t) => RunState {
            db: after,
            output: out0 + t@,
            last_shown: t@.len() > 0,
            shown_any: st.shown_any || t@.len() > 0,
            ran_select: st.ran_select || sel,
            ..st
        },
        Err(e) => {
            let m = error_text(mode, e);
            RunState {
                db: after,
                output: out0 + m + seq!['\n'],
                success: false,
                error_message: if st.error_message.len() == 0 {
                    if m.len() == 0 { "Error"@ } else { m }
                } else {
                    st.error_message
                },
                last_shown: false,
                ran_select: st.ran_select || sel,
                ..st
            }
        },
    }
}

/// The output at the end of a run: a notice when queries ran but none showed a row.
pub open spec fn finish(st: RunState) -> Seq<char> {
    if st.ran_select && !st.shown_any {
        st.output + "There are no results to be displayed.\n"@
    } else {
        st.output
    }
}

/// Running the statements in order from state `st` may end with catalog `db`, output `out`,
/// success flag `ok` and first error message `err`: each statement, with a `;` appended, is
/// executed as `sql_effect` says; with `stop`, the first failing statement ends the run.
pub open spec fn runs(
    stmts: Seq<Seq<char>>,
    mode: ErrorDisplayMode,
    stop: bool,
    st: RunState,
    db: Seq<TableModel>,
    out: Seq<char>,
    ok: bool,
    err: Seq<char>,
) -> bool
    decreases stmts.len(),
{
    if stmts.len() == 0 {
        db == st.db && out == finish(st) && ok == st.success && err == st.error_message
    } else {
        exists|after: Seq<TableModel>, r: Result<String, DbError>|
            #[trigger] sql_effect(stmts[0].push(';'), st.db, after, r) && {
                let nx = step(st, stmts[0], mode, after, r);
                if stop && r is Err {
                    db == nx.db && out == nx.output && ok == nx.success && err == nx.error_message
                } else {
                    runs(stmts.drop_first(), mode, stop, nx, db, out, ok, err)
                }
            }
    }
}

/// The statements of a script, after comment removal.
pub open spec fn script_statements(sql: Seq<char>) -> Seq<Seq<char>> {
    let text = strip_from(sql, 0, start_state());
    statements_of(pieces(text), pieces(text).len() as int)
}

proof fn lemma_run_step(
    rest: Seq<Seq<char>>,
    mode: ErrorDisplayMode,
    stop: bool,
    cur: RunState,
    after: Seq<TableModel>,
    r: Result<String, DbError>,
    d: Seq<TableModel>,
    o: Seq<char>,
    k: bool,
    m: Seq<char>,
)
    requires
        rest.len() > 0,
        sql_effect(rest[0].push(';'), cur.db, after, r),
        !(stop && r is Err),
        runs(rest.drop_first(), mode, stop, step(cur, rest[0], mode, after, r), d, o, k, m),
    ensures
        runs(rest, mode, stop, cur, d, o, k, m),
{
}

proof fn lemma_run_stop(
    rest: Seq<Seq<char>>,
    mode: ErrorDisplayMode,
    cur: RunState,
    after: Seq<TableModel>,
    r: Result<String, DbError>,
)
    requires
        rest.len() > 0,
        sql_effect(rest[0].push(';'), cur.db, after, r),
        r is Err,
    ensures
        ({
            let nx = step(cur, rest[0], mode, after, r);
            runs(rest, mode, true, cur, nx.db, nx.output, nx.success, nx.error_message)
        }),
{
}

/// Runs the statements of a script in order against `db`, collecting what they print:
/// result tables (a blank line between consecutive query results), error messages in the
/// database's display mode, and a notice when queries ran but none produced rows. With
/// `stop_on_error`, the first failing statement ends the run.
#[verifier::rlimit(50)]
pub fn run_script(db: &mut Database, sql: &str, stop_on_error: bool) -> (r: SqlResult)
    requires
        old(db).wf(),
    ensures
        final(db).wf(),
        final(db).mode() == old(db).mode(),
        runs(
            script_statements(sql@),
            old(db).mode(),
            stop_on_error,
            start_run(old(db)@),
            final(db)@,
            r.output@,
            r.success,
            r.error_message@,
        ),
{
    let cleaned = remove_comments(sql);
    let statements = split_statements(cleaned.as_str());
    let ghost all = statements@.map_values(|x: String| x@);
    let ghost mode = db.mode();
    let ghost init = start_run(old(db)@);
    assert(all == script_statements(sql@));
    let mut output = String::new();
    let mut error_message = String::new();
    let mut success = true;
    let mut last_had_output = false;
    let mut ran_select = false;
    let mut shown_any = false;
    let mut i: usize = 0;
    assert(all.subrange(0, all.len() as int) =~= all);
    while i < statements.len()
        invariant
            i <= statements@.len(),
            db.wf(),
            db.mode() == mode,
            mode == old(db).mode(),
            all == statements@.map_values(|x: String| x@),
            all == script_statements(sql@),
            all.len() == statements@.len(),
            init == start_run(old(db)@),
            forall|d: Seq<TableModel>, o: Seq<char>, k: bool, m: Seq<char>|
                #[trigger] runs(
                    all.subrange(i as int, all.len() as int),
                    mode,
                    stop_on_error,
                    RunState {
                        db: db@,
                        output: output@,
                        success,
                        error_message: error_message@,
                        last_shown: last_had_output,
                        ran_select,
                        shown_any,
                    },
                    d,
                    o,
                    k,
                    m,
                ) ==> runs(all, mode, stop_on_error, init, d, o, k, m),
        decreases statements.len() - i,
    {
        let ghost cur = RunState {
            db: db@,
            output: output@,
            success,
            error_message: error_message@,
            last_shown: last_had_output,
            ran_select,
            shown_any,
        };
        let ghost rest = all.subrange(i as int, all.len() as int);
        let stmt = &statements[i];
        assert(rest[0] == stmt@);
        assert(rest.drop_first() =~= all.subrange(i + 1, all.len() as int));
        let sel = starts_with_select(stmt);
        if sel {
            ran_select = true;
            if last_had_output {
                push_char(&mut output, '\n');
            }
        }
        let mut text = stmt.clone();
        push_char(&mut text, ';');
        let ghost before_db = db@;
        let res = db.execute_sql_with_output(text.as_str());
        let ghost r = text_of(res);
        let ghost after = db@;
        assert(sql_effect(rest[0].push(';'), cur.db, after, r));
        match res {
            Ok((t, shown)) => {
                push_str(&mut output, t.as_str());
                last_had_output = shown;
                if shown {
                    shown_any = true;
                }
            },
            Err(e) => {
                let m = db.format_error(&e);
                push_str(&mut output, m.as_str());
                push_char(&mut output, '\n');
                success = false;
                last_had_output = false;
                if error_message.unicode_len() == 0 {
                    error_message = m;
                    if error_message.unicode_len() == 0 {
                        push_str(&mut error_message, "Error");
                        assert(error_message@ =~= "Error"@);
                    }
                }
                if stop_on_error {
                    let ghost nx = step(cur, rest[0], mode, after, r);
                    assert(output@ =~= nx.output);
                    assert(error_message@ == nx.error_message);
                    proof {
                        lemma_run_stop(rest, mode, cur, after, r);
                        assert(nx.db == db@ && nx.success == success);
                        assert(runs(rest, mode, stop_on_error, cur, db@, output@, success, error_message@));
                    }
                    return SqlResult { success, error_message, output };
                }
            },
        }
        let ghost nx = step(cur, rest[0], mode, after, r);
        assert(output@ =~= nx.output);
        assert(error_message@ == nx.error_message);
        assert(nx == RunState {
            db: db@,
            output: output@,
            success,
            error_message: error_message@,
            last_shown: last_had_output,
            ran_select,
            shown_any,
        });
        assert forall|d: Seq<TableModel>, o: Seq<char>, k: bool, m: Seq<char>|
            #[trigger] runs(all.subrange(i + 1, all.len() as int), mode, stop_on_error, nx, d, o, k, m) implies runs(
            all,
            mode,
            stop_on_error,
            init,
            d,
            o,
            k,
            m,
        ) by {
            lemma_run_step(rest, mode, stop_on_error, cur, after, r, d, o, k, m);
        }
        i += 1;
    }
    let ghost fin = RunState {
        db: db@,
        output: output@,
        success,
        error_message: error_message@,
        last_shown: last_had_output,
        ran_select,
        shown_any,
    };
    if ran_select && !shown_any {
        push_str(&mut output, "There are no results to be displayed.\n");
    }
    assert(output@ =~= finish(fin));
    assert(all.subrange(i as int, all.len() as int) =~= Seq::<Seq<char>>::empty());
    assert(runs(Seq::<Seq<char>>::empty(), mode, stop_on_error, fin, db@, output@, success, error_message@));
    SqlResult { success, error_message, output }
}

/// Runs a script against a fresh in-memory database, continuing past errors.
pub fn execute_sql(sql_statement: &str) -> (r: SqlResult)
    ensures
        exists|db: Seq<TableModel>|
            #[trigger] runs(
                script_statements(sql_statement@),
                ErrorDisplayMode::Brief,
                false,
                start_run(Seq::empty()),
                db,
                r.output@,
                r.success,
                r.error_message@,
            ),
{
    let mut db = Database::new(StorageType::Memory);
    assert(db@ =~= Seq::<TableModel>::empty());
    let r = run_script(&mut db, sql_statement, false);
    assert(runs(
        script_statements(sql_statement@),
        ErrorDisplayMode::Brief,
        false,
        start_run(Seq::empty()),
        db@,
        r.output@,
        r.success,
        r.error_message@,
    ));
    r
}

} // verus!
