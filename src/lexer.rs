use vstd::prelude::*;

use crate::error::DbError;
use crate::order::{digits_value, is_digit};
use crate::text::{push_char, string_of};

verus! {

/// A lexical token; `S` is the type of its text (`String` when lexing, `Seq<char>` in
/// specifications).
#[derive(Debug, Clone, PartialEq)]
pub enum TokenOf<S> {
    // keywords
    Create,
    Table,
    Drop,
    Insert,
    Into,
    Values,
    Update,
    SetKeyword,
    Delete,
    From,
    Where,
    Select,
    Primary,
    Key,
    And,
    Or,
    Is,
    Not,
    Null,
    Order,
    By,
    Asc,
    Desc,
    // operators and punctuation
    Eq,
    Ne,
    Gt,
    Lt,
    Ge,
    Le,
    Plus,
    Minus,
    Asterisk,
    Slash,
    Comma,
    Semicolon,
    LParen,
    RParen,
    // literals, names and comments
    Identifier(S),
    String(S),
    Number(i32),
    Comment(S),
    MultiLineComment(S),
}

pub type Token = TokenOf<String>;

pub type TokenModel = TokenOf<Seq<char>>;

impl View for Token {
    type V = TokenModel;

    open spec fn view(&self) -> TokenModel {
        match self {
            TokenOf::Create => TokenOf::Create,
            TokenOf::Table => TokenOf::Table,
            TokenOf::Drop => TokenOf::Drop,
            TokenOf::Insert => TokenOf::Insert,
            TokenOf::Into => TokenOf::Into,
            TokenOf::Values => TokenOf::Values,
            TokenOf::Update => TokenOf::Update,
            TokenOf::SetKeyword => TokenOf::SetKeyword,
            TokenOf::Delete => TokenOf::Delete,
            TokenOf::From => TokenOf::From,
            TokenOf::Where => TokenOf::Where,
            TokenOf::Select => TokenOf::Select,
            TokenOf::Primary => TokenOf::Primary,
            TokenOf::Key => TokenOf::Key,
            TokenOf::And => TokenOf::And,
            TokenOf::Or => TokenOf::Or,
            TokenOf::Is => TokenOf::Is,
            TokenOf::Not => TokenOf::Not,
            TokenOf::Null => TokenOf::Null,
            TokenOf::Order => TokenOf::Order,
            TokenOf::By => TokenOf::By,
            TokenOf::Asc => TokenOf::Asc,
            TokenOf::Desc => TokenOf::Desc,
            TokenOf::Eq => TokenOf::Eq,
            TokenOf::Ne => TokenOf::Ne,
            TokenOf::Gt => TokenOf::Gt,
            TokenOf::Lt => TokenOf::Lt,
            TokenOf::Ge => TokenOf::Ge,
            TokenOf::Le => TokenOf::Le,
            TokenOf::Plus => TokenOf::Plus,
            TokenOf::Minus => TokenOf::Minus,
            TokenOf::Asterisk => TokenOf::Asterisk,
            TokenOf::Slash => TokenOf::Slash,
            TokenOf::Comma => TokenOf::Comma,
            TokenOf::Semicolon => TokenOf::Semicolon,
            TokenOf::LParen => TokenOf::LParen,
            TokenOf::RParen => TokenOf::RParen,
            TokenOf::Identifier(x) => TokenOf::Identifier(x@),
            TokenOf::String(x) => TokenOf::String(x@),
            TokenOf::Number(x) => TokenOf::Number(*x),
            TokenOf::Comment(x) => TokenOf::Comment(x@),
            TokenOf::MultiLineComment(x) => TokenOf::MultiLineComment(x@),
        }
    }
}

impl TokenOf<String> {
    /// A copy with the same content.
    pub fn copy(&self) -> (r: Token)
        ensures
            r@ == self@,
    {
        match self {
            TokenOf::Create => TokenOf::Create,
            TokenOf::Table => TokenOf::Table,
            TokenOf::Drop => TokenOf::Drop,
            TokenOf::Insert => TokenOf::Insert,
            TokenOf::Into => TokenOf::Into,
            TokenOf::Values => TokenOf::Values,
            TokenOf::Update => TokenOf::Update,
            TokenOf::SetKeyword => TokenOf::SetKeyword,
            TokenOf::Delete => TokenOf::Delete,
            TokenOf::From => TokenOf::From,
            TokenOf::Where => TokenOf::Where,
            TokenOf::Select => TokenOf::Select,
            TokenOf::Primary => TokenOf::Primary,
            TokenOf::Key => TokenOf::Key,
            TokenOf::And => TokenOf::And,
            TokenOf::Or => TokenOf::Or,
            TokenOf::Is => TokenOf::Is,
            TokenOf::Not => TokenOf::Not,
            TokenOf::Null => TokenOf::Null,
            TokenOf::Order => TokenOf::Order,
            TokenOf::By => TokenOf::By,
            TokenOf::Asc => TokenOf::Asc,
            TokenOf::Desc => TokenOf::Desc,
            TokenOf::Eq => TokenOf::Eq,
            TokenOf::Ne => TokenOf::Ne,
            TokenOf::Gt => TokenOf::Gt,
            TokenOf::Lt => TokenOf::Lt,
            TokenOf::Ge => TokenOf::Ge,
            TokenOf::Le => TokenOf::Le,
            TokenOf::Plus => TokenOf::Plus,
            TokenOf::Minus => TokenOf::Minus,
            TokenOf::Asterisk => TokenOf::Asterisk,
            TokenOf::Slash => TokenOf::Slash,
            TokenOf::Comma => TokenOf::Comma,
            TokenOf::Semicolon => TokenOf::Semicolon,
            TokenOf::LParen => TokenOf::LParen,
            TokenOf::RParen => TokenOf::RParen,
            TokenOf::Identifier(x) => TokenOf::Identifier(x.clone()),
            TokenOf::String(x) => TokenOf::String(x.clone()),
            TokenOf::Number(x) => TokenOf::Number(*x),
            TokenOf::Comment(x) => TokenOf::Comment(x.clone()),
            TokenOf::MultiLineComment(x) => TokenOf::MultiLineComment(x.clone()),
        }
    }

    pub fn is_comment_token(&self) -> (r: bool)
        ensures
            r == (self@ is Comment || self@ is MultiLineComment),
    {
        match self {
            TokenOf::Comment(_) | TokenOf::MultiLineComment(_) => true,
            _ => false,
        }
    }
}

/// The name for what `char::is_alphabetic` returns.
pub uninterp spec fn alphabetic(c: char) -> bool;

/// The name for what `char::is_alphanumeric` returns.
pub uninterp spec fn alphanumeric(c: char) -> bool;

/// Whether `c` has the Unicode White_Space property (as `char::is_whitespace` reports).
pub open spec fn whitespace(c: char) -> bool {
    let u = c as u32;
    (0x9 <= u && u <= 0xd) || u == 0x20 || u == 0x85 || u == 0xa0 || u == 0x1680 || (0x2000 <= u && u
        <= 0x200a) || u == 0x2028 || u == 0x2029 || u == 0x202f || u == 0x205f || u == 0x3000
}

/// Relies on `char::is_alphabetic`: whether the character has the Unicode Alphabetic property
/// (among ASCII characters, exactly the letters).
#[verifier::external_body]
fn is_alphabetic(c: char) -> (r: bool)
    ensures
        r == alphabetic(c),
        (c as u32) < 128 ==> (r <==> ('a' <= c && c <= 'z') || ('A' <= c && c <= 'Z')),
{
    c.is_alphabetic()
}

/// Relies on `char::is_alphanumeric`: whether the character is alphabetic or numeric (among
/// ASCII characters, exactly the letters and digits).
#[verifier::external_body]
fn is_alphanumeric(c: char) -> (r: bool)
    ensures
        r == alphanumeric(c),
        (c as u32) < 128 ==> (r <==> ('a' <= c && c <= 'z') || ('A' <= c && c <= 'Z') || ('0' <= c && c <= '9')),
{
    c.is_alphanumeric()
}

/// Whether the character has the Unicode White_Space property.
pub(crate) fn char_is_whitespace(c: char) -> (r: bool)
    ensures
        r == whitespace(c),
{
    let u = c as u32;
    (0x9 <= u && u <= 0xd) || u == 0x20 || u == 0x85 || u == 0xa0 || u == 0x1680 || (0x2000 <= u && u
        <= 0x200a) || u == 0x2028 || u == 0x2029 || u == 0x202f || u == 0x205f || u == 0x3000
}

pub open spec fn ascii_upper(c: char) -> char {
    if 'a' <= c && c <= 'z' {
        ((c as u32) - 32) as char
    } else {
        c
    }
}

pub open spec fn upper(w: Seq<char>) -> Seq<char> {
    w.map_values(|c: char| ascii_upper(c))
}

/// The keyword that an (upper-cased) word spells, if any.
pub open spec fn keyword_of(u: Seq<char>) -> Option<TokenModel> {
    if u == "CREATE"@ {
        Some(TokenOf::Create)
    } else     if u == "TABLE"@ {
        Some(TokenOf::Table)
    } else     if u == "DROP"@ {
        Some(TokenOf::Drop)
    } else     if u == "INSERT"@ {
        Some(TokenOf::Insert)
    } else     if u == "INTO"@ {
        Some(TokenOf::Into)
    } else     if u == "VALUES"@ {
        Some(TokenOf::Values)
    } else     if u == "UPDATE"@ {
        Some(TokenOf::Update)
    } else     if u == "SET"@ {
        Some(TokenOf::SetKeyword)
    } else     if u == "DELETE"@ {
        Some(TokenOf::Delete)
    } else     if u == "FROM"@ {
        Some(TokenOf::From)
    } else     if u == "WHERE"@ {
        Some(TokenOf::Where)
    } else     if u == "SELECT"@ {
        Some(TokenOf::Select)
    } else     if u == "PRIMARY"@ {
        Some(TokenOf::Primary)
    } else     if u == "KEY"@ {
        Some(TokenOf::Key)
    } else     if u == "AND"@ {
        Some(TokenOf::And)
    } else     if u == "OR"@ {
        Some(TokenOf::Or)
    } else     if u == "IS"@ {
        Some(TokenOf::Is)
    } else     if u == "NOT"@ {
        Some(TokenOf::Not)
    } else     if u == "NULL"@ {
        Some(TokenOf::Null)
    } else     if u == "ORDER"@ {
        Some(TokenOf::Order)
    } else     if u == "BY"@ {
        Some(TokenOf::By)
    } else     if u == "ASC"@ {
        Some(TokenOf::Asc)
    } else     if u == "DESC"@ {
        Some(TokenOf::Desc)
    } else {
        None
    }
}

/// A word is a keyword, compared case-insensitively, or else an identifier.
pub open spec fn word_token(w: Seq<char>) -> TokenModel {
    match keyword_of(upper(w)) {
        Some(k) => k,
        None => TokenOf::Identifier(w),
    }
}

pub open spec fn ident_char(c: char) -> bool {
    alphanumeric(c) || c == '_'
}

/// The number of identifier characters starting at `i`.
pub open spec fn word_len(s: Seq<char>, i: int) -> nat
    decreases s.len() - i,
{
    if 0 <= i < s.len() && ident_char(s[i]) {
        (1 + word_len(s, i + 1)) as nat
    } else {
        0
    }
}

/// The number of decimal digits starting at `i`.
pub open spec fn digits_len(s: Seq<char>, i: int) -> nat
    decreases s.len() - i,
{
    if 0 <= i < s.len() && is_digit(s[i]) {
        (1 + digits_len(s, i + 1)) as nat
    } else {
        0
    }
}

/// The number of characters from `i` before the next `c` (or the end).
pub open spec fn until_len(s: Seq<char>, i: int, c: char) -> nat
    decreases s.len() - i,
{
    if 0 <= i < s.len() && s[i] != c {
        (1 + until_len(s, i + 1, c)) as nat
    } else {
        0
    }
}

/// The number of characters from `i` before the next `*/` (or the end).
pub open spec fn block_len(s: Seq<char>, i: int) -> nat
    decreases s.len() - i,
{
    if 0 <= i < s.len() && !(i + 1 < s.len() && s[i] == '*' && s[i + 1] == '/') {
        (1 + block_len(s, i + 1)) as nat
    } else {
        0
    }
}

/// An operator or punctuation token at `i`, with its width.
pub open spec fn operator_at(s: Seq<char>, i: int) -> Option<(TokenModel, int)> {
    let c = s[i];
    let eq_next = s.len() - i > 1 && s[i + 1] == '=';
    if c == '=' {
        Some((TokenOf::Eq, 1))
    } else if c == '!' && eq_next {
        Some((TokenOf::Ne, 2))
    } else if c == '>' {
        if eq_next { Some((TokenOf::Ge, 2)) } else { Some((TokenOf::Gt, 1)) }
    } else if c == '<' {
        if eq_next { Some((TokenOf::Le, 2)) } else { Some((TokenOf::Lt, 1)) }
    } else if c == ',' {
        Some((TokenOf::Comma, 1))
    } else if c == ';' {
        Some((TokenOf::Semicolon, 1))
    } else if c == '(' {
        Some((TokenOf::LParen, 1))
    } else if c == ')' {
        Some((TokenOf::RParen, 1))
    } else if c == '*' {
        Some((TokenOf::Asterisk, 1))
    } else if c == '+' {
        Some((TokenOf::Plus, 1))
    } else if c == '-' {
        Some((TokenOf::Minus, 1))
    } else if c == '/' {
        Some((TokenOf::Slash, 1))
    } else {
        None
    }
}

pub open spec fn next_is(s: Seq<char>, i: int, d: char) -> bool {
    i + 1 < s.len() && s[i + 1] == d
}

/// A position, capped at the end of the input.
pub open spec fn capped(j: int, n: int) -> int {
    if j < n {
        j
    } else {
        n
    }
}

pub open spec fn cons(t: TokenModel, rest: Result<Seq<TokenModel>, Seq<char>>) -> Result<Seq<TokenModel>, Seq<char>> {
    match rest {
        Ok(r) => Ok(seq![t] + r),
        Err(m) => Err(m),
    }
}

/// The message for a character that starts no token.
pub open spec fn unknown_char_text(c: char) -> Seq<char> {
    "unknown character: "@.push(c)
}

pub open spec fn out_of_range_text() -> Seq<char> {
    "integer literal out of range"@
}

/// The tokens of `s` from position `i`, or the message for the first unknown character or
/// integer literal beyond the 32-bit range.
pub open spec fn lex(s: Seq<char>, i: int) -> Result<Seq<TokenModel>, Seq<char>>
    decreases s.len() - i,
{
    if i < 0 || i >= s.len() {
        Ok(Seq::empty())
    } else {
        let c = s[i];
        if whitespace(c) {
            lex(s, i + 1)
        } else if c == '-' && next_is(s, i, '-') {
            let k = until_len(s, i + 2, '\n');
            cons(TokenOf::Comment(s.subrange(i + 2, i + 2 + k)), lex(s, capped(i + 2 + k, s.len() as int)))
        } else if c == '/' && next_is(s, i, '*') {
            let k = block_len(s, i + 2);
            let end = if i + 2 + k < s.len() { i + 4 + k } else { i + 2 + k };
            cons(TokenOf::MultiLineComment(s.subrange(i + 2, i + 2 + k)), lex(s, capped(end, s.len() as int)))
        } else if alphabetic(c) {
            let k = word_len(s, i + 1);
            cons(word_token(s.subrange(i, i + 1 + k)), lex(s, capped(i + 1 + k, s.len() as int)))
        } else if is_digit(c) {
            let k = digits_len(s, i + 1);
            let v = digits_value(s.subrange(i, i + 1 + k));
            if v <= i32::MAX {
                cons(TokenOf::Number(v as i32), lex(s, capped(i + 1 + k, s.len() as int)))
            } else {
                Err(out_of_range_text())
            }
        } else if c == '\'' || c == '"' {
            let k = until_len(s, i + 1, c);
            let end = if i + 1 + k < s.len() { i + 2 + k } else { i + 1 + k };
            cons(TokenOf::String(s.subrange(i + 1, i + 1 + k)), lex(s, capped(end, s.len() as int)))
        } else {
            match operator_at(s, i) {
                Some((t, w)) => if w >= 1 {
                    cons(t, lex(s, capped(i + w, s.len() as int)))
                } else {
                    Err(unknown_char_text(c))
                },
                None => Err(unknown_char_text(c)),
            }
        }
    }
}

pub open spec fn join(done: Seq<TokenModel>, rest: Result<Seq<TokenModel>, Seq<char>>) -> Result<
    Seq<TokenModel>,
    Seq<char>,
> {
    match rest {
        Ok(r) => Ok(done + r),
        Err(m) => Err(m),
    }
}

proof fn lemma_join_cons(done: Seq<TokenModel>, t: TokenModel, rest: Result<Seq<TokenModel>, Seq<char>>)
    ensures
        join(done, cons(t, rest)) == join(done.push(t), rest),
{
    if let Ok(r) = rest {
        assert(done + (seq![t] + r) =~= done.push(t) + r);
    }
}

fn scan_until(s: &Vec<char>, i: usize, c: char) -> (j: usize)
    requires
        i <= s@.len(),
    ensures
        j == i + until_len(s@, i as int, c),
        j <= s@.len(),
{
    let mut j = i;
    while j < s.len() && s[j] != c
        invariant
            i <= j <= s@.len(),
            until_len(s@, i as int, c) == (j - i) + until_len(s@, j as int, c),
        decreases s.len() - j,
    {
        j += 1;
    }
    j
}

fn scan_block(s: &Vec<char>, i: usize) -> (j: usize)
    requires
        i <= s@.len(),
    ensures
        j == i + block_len(s@, i as int),
        j <= s@.len(),
        j < s@.len() ==> j + 1 < s@.len(),
{
    let mut j = i;
    while j < s.len() && !(s.len() - j > 1 && s[j] == '*' && s[j + 1] == '/')
        invariant
            i <= j <= s@.len(),
            block_len(s@, i as int) == (j - i) + block_len(s@, j as int),
        decreases s.len() - j,
    {
        j += 1;
    }
    j
}

fn scan_word(s: &Vec<char>, i: usize) -> (j: usize)
    requires
        i <= s@.len(),
    ensures
        j == i + word_len(s@, i as int),
        j <= s@.len(),
{
    let mut j = i;
    while j < s.len() && (is_alphanumeric(s[j]) || s[j] == '_')
        invariant
            i <= j <= s@.len(),
            word_len(s@, i as int) == (j - i) + word_len(s@, j as int),
        decreases s.len() - j,
    {
        j += 1;
    }
    j
}

/// The upper-cased (ASCII) characters `s[i..j]`.
pub fn upper_chars(s: &Vec<char>, i: usize, j: usize) -> (r: String)
    requires
        i <= j <= s@.len(),
    ensures
        r@ == upper(s@.subrange(i as int, j as int)),
{
    let mut r = String::new();
    let mut k = i;
    while k < j
        invariant
            i <= k <= j,
            j <= s@.len(),
            r@ == upper(s@.subrange(i as int, k as int)),
        decreases j - k,
    {
        let c = s[k];
        let u = if 'a' <= c && c <= 'z' { ((c as u8) - 32) as char } else { c };
        assert(u == ascii_upper(c));
        push_char(&mut r, u);
        k += 1;
        assert(r@ =~= upper(s@.subrange(i as int, k as int)));
    }
    r
}

/// The value and end of the digit run starting at `i`, or `None` beyond the 32-bit range.
fn scan_number(s: &Vec<char>, i: usize) -> (r: Option<(i32, usize)>)
    requires
        i < s@.len(),
        is_digit(s@[i as int]),
    ensures
        ({
            let k = digits_len(s@, i + 1);
            let v = digits_value(s@.subrange(i as int, i + 1 + k));
            &&& r matches Some((x, j)) ==> j == i + 1 + k && x as int == v && v <= i32::MAX && j <= s@.len()
            &&& r is None ==> v > i32::MAX
        }),
{
    let ghost k = digits_len(s@, i + 1);
    let ghost whole = s@.subrange(i as int, i + 1 + k);
    let mut acc: i64 = 0;
    let mut j = i;
    proof {
        lemma_digits_len_all(s@, i + 1);
    }
    while j < s.len() && '0' <= s[j] && s[j] <= '9'
        invariant
            i <= j <= s@.len(),
            j <= i + 1 + k,
            j == i || is_digit(s@[i as int]),
            i + 1 + k <= s@.len(),
            forall|x: int| i <= x < i + 1 + k ==> is_digit(#[trigger] s@[x]),
            i + 1 + k < s@.len() ==> !is_digit(s@[i + 1 + k]),
            whole == s@.subrange(i as int, i + 1 + k),
            k == digits_len(s@, i + 1),
            acc as int == digits_value(s@.subrange(i as int, j as int)),
            0 <= acc <= i32::MAX,
        decreases s.len() - j,
    {
        let d = (s[j] as u32 - '0' as u32) as i64;
        assert(s@.subrange(i as int, j + 1).drop_last() =~= s@.subrange(i as int, j as int));
        let next = acc * 10 + d;
        assert(s@.subrange(i as int, j + 1).last() == s@[j as int]);
        assert(digits_value(s@.subrange(i as int, j + 1)) == next);
        if next > i32::MAX as i64 {
            proof {
                assert(j < i + 1 + k);
                assert forall|x: int| 0 <= x < whole.len() implies is_digit(#[trigger] whole[x]) by {
                    assert(whole[x] == s@[i + x]);
                }
                assert(crate::order::all_digits(whole));
                crate::order::lemma_digits_value_grows(whole);
                let t = whole.take(j + 1 - i);
                assert(t =~= s@.subrange(i as int, j + 1));
                assert(digits_value(t) <= digits_value(whole));
                assert(digits_value(t) == next);
                assert(digits_value(whole) > i32::MAX);
            }
            return None;
        }
        acc = next;
        j += 1;
    }
    assert(j == i + 1 + k);
    Some((acc as i32, j))
}

proof fn lemma_digits_len_all(s: Seq<char>, i: int)
    requires
        0 <= i <= s.len(),
    ensures
        i + digits_len(s, i) <= s.len(),
        forall|x: int| i <= x < i + digits_len(s, i) ==> is_digit(#[trigger] s[x]),
        i + digits_len(s, i) < s.len() ==> !is_digit(s[i + digits_len(s, i)]),
    decreases s.len() - i,
{
    if i < s.len() && is_digit(s[i]) {
        lemma_digits_len_all(s, i + 1);
    }
}

fn operator_token(s: &Vec<char>, i: usize) -> (r: Option<(Token, usize)>)
    requires
        i < s@.len(),
    ensures
        r matches Some((t, w)) ==> operator_at(s@, i as int) == Some((t@, w as int)) && 1 <= w <= 2 && i + w
            <= s@.len(),
        r is None ==> operator_at(s@, i as int) is None,
{
    let c = s[i];
    let eq_next = s.len() - i > 1 && s[i + 1] == '=';
    if c == '=' {
        Some((TokenOf::Eq, 1))
    } else if c == '!' && eq_next {
        Some((TokenOf::Ne, 2))
    } else if c == '>' {
        if eq_next { Some((TokenOf::Ge, 2)) } else { Some((TokenOf::Gt, 1)) }
    } else if c == '<' {
        if eq_next { Some((TokenOf::Le, 2)) } else { Some((TokenOf::Lt, 1)) }
    } else if c == ',' {
        Some((TokenOf::Comma, 1))
    } else if c == ';' {
        Some((TokenOf::Semicolon, 1))
    } else if c == '(' {
        Some((TokenOf::LParen, 1))
    } else if c == ')' {
        Some((TokenOf::RParen, 1))
    } else if c == '*' {
        Some((TokenOf::Asterisk, 1))
    } else if c == '+' {
        Some((TokenOf::Plus, 1))
    } else if c == '-' {
        Some((TokenOf::Minus, 1))
    } else if c == '/' {
        Some((TokenOf::Slash, 1))
    } else {
        None
    }
}

/// One step of the lexer at position `i`: the token found there (none for whitespace) and
/// where lexing resumes.
fn lex_step(s: &Vec<char>, i: usize) -> (r: Result<(Option<Token>, usize), DbError>)
    requires
        i < s@.len(),
    ensures
        r matches Ok((t, end)) ==> i < end <= s@.len() && match t {
            None => lex(s@, i as int) == lex(s@, end as int),
            Some(tok) => lex(s@, i as int) == cons(tok@, lex(s@, end as int)),
        },
        r matches Err(e) ==> e matches DbError::SqlError(m) && lex(s@, i as int) == Err::<Seq<TokenModel>, Seq<char>>(m@),
{
    let n = s.len();
    let c = s[i];
    let next: Option<char> = if n - i > 1 { Some(s[i + 1]) } else { None };
    assert(next == Some('-') <==> next_is(s@, i as int, '-'));
    assert(next == Some('*') <==> next_is(s@, i as int, '*'));
    if char_is_whitespace(c) {
        return Ok((None, i + 1));
    }
    if c == '-' && next == Some('-') {
        let j = scan_until(s, i + 2, '\n');
        assert(capped(j as int, n as int) == j);
        return Ok((Some(TokenOf::Comment(string_of(s, i + 2, j))), j));
    }
    if c == '/' && next == Some('*') {
        let j = scan_block(s, i + 2);
        let end = if j < n { j + 2 } else { j };
        assert(capped(end as int, n as int) == end);
        return Ok((Some(TokenOf::MultiLineComment(string_of(s, i + 2, j))), end));
    }
    if is_alphabetic(c) {
        let j = scan_word(s, i + 1);
        let word = string_of(s, i, j);
        let u = upper_chars(s, i, j);
        assert(capped(j as int, n as int) == j);
        return match keyword_token(&u) {
            Some(k) => Ok((Some(k), j)),
            None => Ok((Some(TokenOf::Identifier(word)), j)),
        };
    }
    if '0' <= c && c <= '9' {
        return match scan_number(s, i) {
            Some((v, j)) => {
                assert(capped(j as int, n as int) == j);
                Ok((Some(TokenOf::Number(v)), j))
            },
            None => {
                let m = "integer literal out of range".to_owned();
                Err(DbError::SqlError(m))
            },
        };
    }
    if c == '\'' || c == '"' {
        let j = scan_until(s, i + 1, c);
        let end = if j < n { j + 1 } else { j };
        assert(capped(end as int, n as int) == end);
        return Ok((Some(TokenOf::String(string_of(s, i + 1, j))), end));
    }
    match operator_token(s, i) {
        Some((t, w)) => {
            assert(capped(i + w, n as int) == i + w);
            Ok((Some(t), i + w))
        },
        None => {
            let mut m = "unknown character: ".to_owned();
            push_char(&mut m, c);
            Err(DbError::SqlError(m))
        },
    }
}

pub fn same(u: &String, k: &str) -> (r: bool)
    ensures
        r == (u@ == k@),
{
    *u == k.to_owned()
}

fn keyword_token(u: &String) -> (r: Option<Token>)
    ensures
        r matches Some(t) ==> keyword_of(u@) == Some(t@),
        r is None ==> keyword_of(u@) is None,
{
    if same(&u, "CREATE") {
        return Some(TokenOf::Create);
    }
    if same(&u, "TABLE") {
        return Some(TokenOf::Table);
    }
    if same(&u, "DROP") {
        return Some(TokenOf::Drop);
    }
    if same(&u, "INSERT") {
        return Some(TokenOf::Insert);
    }
    if same(&u, "INTO") {
        return Some(TokenOf::Into);
    }
    if same(&u, "VALUES") {
        return Some(TokenOf::Values);
    }
    if same(&u, "UPDATE") {
        return Some(TokenOf::Update);
    }
    if same(&u, "SET") {
        return Some(TokenOf::SetKeyword);
    }
    if same(&u, "DELETE") {
        return Some(TokenOf::Delete);
    }
    if same(&u, "FROM") {
        return Some(TokenOf::From);
    }
    if same(&u, "WHERE") {
        return Some(TokenOf::Where);
    }
    if same(&u, "SELECT") {
        return Some(TokenOf::Select);
    }
    if same(&u, "PRIMARY") {
        return Some(TokenOf::Primary);
    }
    if same(&u, "KEY") {
        return Some(TokenOf::Key);
    }
    if same(&u, "AND") {
        return Some(TokenOf::And);
    }
    if same(&u, "OR") {
        return Some(TokenOf::Or);
    }
    if same(&u, "IS") {
        return Some(TokenOf::Is);
    }
    if same(&u, "NOT") {
        return Some(TokenOf::Not);
    }
    if same(&u, "NULL") {
        return Some(TokenOf::Null);
    }
    if same(&u, "ORDER") {
        return Some(TokenOf::Order);
    }
    if same(&u, "BY") {
        return Some(TokenOf::By);
    }
    if same(&u, "ASC") {
        return Some(TokenOf::Asc);
    }
    if same(&u, "DESC") {
        return Some(TokenOf::Desc);
    }
    None
}

/// Whether `word`, upper-cased (ASCII), spells `upper_word`.
pub fn eq_ignore_case(word: &String, upper_word: &str) -> (r: bool)
    ensures
        r == (upper(word@) == upper_word@),
{
    let cs = crate::text::chars_of(word.as_str());
    let u = upper_chars(&cs, 0, cs.len());
    assert(cs@.subrange(0, cs@.len() as int) =~= cs@);
    same(&u, upper_word)
}

/// Splits SQL text into tokens.
pub struct Lexer {
    position: usize,
}

impl Lexer {
    pub fn new() -> Lexer {
        Lexer { position: 0 }
    }

    /// The tokens of `input`, comments included; fails on an unknown character or an
    /// integer literal beyond the 32-bit range.
    pub fn tokenize(&mut self, input: &str) -> (r: Result<Vec<Token>, DbError>)
        ensures
            r is Ok <==> lex(input@, 0) is Ok,
            r matches Ok(ts) ==> lex(input@, 0) == Ok::<Seq<TokenModel>, Seq<char>>(ts@.map_values(|t: Token| t@)),
            r matches Err(e) ==> e matches DbError::SqlError(m) && lex(input@, 0) == Err::<Seq<TokenModel>, Seq<char>>(
                m@,
            ),
    {
        let s = crate::text::chars_of(input);
        let n = s.len();
        let mut tokens: Vec<Token> = Vec::new();
        self.position = 0;
        while self.position < n
            invariant
                s@ == input@,
                n == s@.len(),
                self.position <= n,
                lex(s@, 0) == join(tokens@.map_values(|t: Token| t@), lex(s@, self.position as int)),
            decreases n - self.position,
        {
            let i = self.position;
            let ghost done = tokens@.map_values(|t: Token| t@);
            let (tok, end) = lex_step(&s, i)?;
            match tok {
                None => {},
                Some(t) => {
                    let ghost tv = t@;
                    tokens.push(t);
                    assert(tokens@.map_values(|t: Token| t@) =~= done.push(tv));
                    proof {
                        lemma_join_cons(done, tv, lex(s@, end as int));
                    }
                },
            }
            self.position = end;
        }
        assert(lex(s@, n as int) == Ok::<Seq<TokenModel>, Seq<char>>(Seq::<TokenModel>::empty()));
        assert(tokens@.map_values(|t: Token| t@) + Seq::<TokenModel>::empty() =~= tokens@.map_values(|t: Token| t@));
        Ok(tokens)
    }
}

} // verus!
