use vstd::prelude::*;

verus! {

// Bytes of the tokens that the productions match.
pub const APOSTROPHE: u8 = 39;
pub const LPAREN: u8 = 40;
pub const RPAREN: u8 = 41;
pub const STAR: u8 = 42;
pub const COMMA: u8 = 44;
pub const DOT: u8 = 46;
pub const COLON: u8 = 58;
pub const LESS: u8 = 60;
pub const EQUALS: u8 = 61;
pub const GREATER: u8 = 62;
pub const LBRACKET: u8 = 91;
pub const RBRACKET: u8 = 93;
pub const LBRACE: u8 = 123;
pub const RBRACE: u8 = 125;

/// A half-open range of byte offsets into the source buffer.
#[derive(Debug, Clone, Copy, PartialEq, Eq, Structural)]
pub struct Span {
    pub start: usize,
    pub end: usize,
}

/// An identifier, held as the span of its characters.
#[derive(Debug, Clone, Copy, PartialEq, Eq, Structural)]
pub struct Identifier {
    pub span: Span,
}

/// The failure of a production: the cursor it was given, untouched.
#[derive(Debug, Clone, Copy, PartialEq, Eq, Structural)]
pub struct ParseError {
    pub pos: usize,
}

/// Space, tab, line feed or carriage return.
pub open spec fn is_ws(b: u8) -> bool {
    b == 32 || b == 9 || b == 10 || b == 13
}

/// `0` to `9`.
pub open spec fn is_digit(b: u8) -> bool {
    48 <= b <= 57
}

/// A letter or `_`.
pub open spec fn is_ident_start(b: u8) -> bool {
    (65 <= b <= 90) || (97 <= b <= 122) || b == 95
}

/// A letter, a digit, `_` or `$`.
pub open spec fn is_ident_char(b: u8) -> bool {
    is_ident_start(b) || is_digit(b) || b == 36
}

/// Number of bytes from `pos` up to, not including, the next line feed or
/// the end of the buffer.
pub open spec fn line_rest(s: Seq<u8>, pos: int) -> nat
    decreases s.len() - pos,
{
    if 0 <= pos < s.len() && s[pos] != 10 {
        1 + line_rest(s, pos + 1)
    } else {
        0
    }
}

/// Number of bytes from `pos` up to and including the next `*/`, if there is
/// one.
pub open spec fn block_rest(s: Seq<u8>, pos: int) -> Option<nat>
    decreases s.len() - pos,
{
    if 0 <= pos && pos + 1 < s.len() {
        if s[pos] == 42 && s[pos + 1] == 47 {
            Some(2)
        } else {
            match block_rest(s, pos + 1) {
                Some(n) => Some(n + 1),
                None => None,
            }
        }
    } else {
        None
    }
}

/// The length of the piece of trivia at `pos`: a whitespace byte, a line
/// comment `// ...` up to the line feed, or a closed block comment
/// `/* ... */`. It is 0 where none starts.
pub open spec fn trivia_len(s: Seq<u8>, pos: int) -> nat {
    if 0 <= pos < s.len() && is_ws(s[pos]) {
        1
    } else if 0 <= pos && pos + 1 < s.len() && s[pos] == 47 && s[pos + 1] == 47 {
        2 + line_rest(s, pos + 2)
    } else if 0 <= pos && pos + 1 < s.len() && s[pos] == 47 && s[pos + 1] == 42 && block_rest(
        s,
        pos + 2,
    ) is Some {
        2 + block_rest(s, pos + 2).unwrap()
    } else {
        0
    }
}

/// Number of bytes of trivia (whitespace and comments) starting at `pos`.
pub open spec fn trivia_run(s: Seq<u8>, pos: int) -> nat
    decreases s.len() - pos,
{
    // a piece of trivia never reaches past the end of the buffer
    if 0 <= pos <= s.len() && trivia_len(s, pos) > 0 && pos + trivia_len(s, pos) <= s.len() {
        trivia_len(s, pos) + trivia_run(s, pos + trivia_len(s, pos))
    } else {
        0
    }
}

/// Number of identifier characters starting at `pos`.
pub open spec fn ident_run(s: Seq<u8>, pos: int) -> nat
    decreases s.len() - pos,
{
    if 0 <= pos < s.len() && is_ident_char(s[pos]) {
        1 + ident_run(s, pos + 1)
    } else {
        0
    }
}

/// Number of decimal digits starting at `pos`.
pub open spec fn digit_run(s: Seq<u8>, pos: int) -> nat
    decreases s.len() - pos,
{
    if 0 <= pos < s.len() && is_digit(s[pos]) {
        1 + digit_run(s, pos + 1)
    } else {
        0
    }
}

/// The cursor after the trivia that starts at `pos`.
pub open spec fn after_trivia(s: Seq<u8>, pos: int) -> int {
    pos + trivia_run(s, pos)
}

/// The one-byte token `c` at `pos`, with the trivia after it.
pub open spec fn sym1(s: Seq<u8>, pos: int, c: u8) -> Option<int> {
    if 0 <= pos < s.len() && s[pos] == c {
        Some(after_trivia(s, pos + 1))
    } else {
        None
    }
}

/// The two-byte token `c1 c2` at `pos`, with the trivia after it.
pub open spec fn sym2(s: Seq<u8>, pos: int, c1: u8, c2: u8) -> Option<int> {
    if 0 <= pos && pos + 1 < s.len() && s[pos] == c1 && s[pos + 1] == c2 {
        Some(after_trivia(s, pos + 2))
    } else {
        None
    }
}

/// Where the characters of an identifier that starts at `pos` end.
pub open spec fn ident_text_end(s: Seq<u8>, pos: int) -> int {
    pos + 1 + ident_run(s, pos + 1)
}

/// An identifier at `pos`, with the trivia after it.
pub open spec fn ident(s: Seq<u8>, pos: int) -> Option<int> {
    if 0 <= pos < s.len() && is_ident_start(s[pos]) {
        Some(after_trivia(s, ident_text_end(s, pos)))
    } else {
        None
    }
}

/// Where the digits of a number that starts at `pos` end.
pub open spec fn number_text_end(s: Seq<u8>, pos: int) -> int {
    pos + digit_run(s, pos)
}

/// An unsigned decimal number at `pos`, with the trivia after it.
pub open spec fn number(s: Seq<u8>, pos: int) -> Option<int> {
    if 0 <= pos < s.len() && is_digit(s[pos]) {
        Some(after_trivia(s, number_text_end(s, pos)))
    } else {
        None
    }
}

/// A run of trivia never reaches past the end of the buffer.
pub broadcast proof fn lemma_trivia_run_bounded(s: Seq<u8>, pos: int)
    requires
        0 <= pos <= s.len(),
    ensures
        pos + #[trigger] trivia_run(s, pos) <= s.len(),
    decreases s.len() - pos,
{
    if trivia_len(s, pos) > 0 && pos + trivia_len(s, pos) <= s.len() {
        lemma_trivia_run_bounded(s, pos + trivia_len(s, pos));
    }
}

/// A run of identifier characters never reaches past the end of the buffer.
pub broadcast proof fn lemma_ident_run_bounded(s: Seq<u8>, pos: int)
    requires
        0 <= pos <= s.len(),
    ensures
        pos + #[trigger] ident_run(s, pos) <= s.len(),
    decreases s.len() - pos,
{
    if pos < s.len() {
        lemma_ident_run_bounded(s, pos + 1);
    }
}

/// A run of digits never reaches past the end of the buffer.
pub broadcast proof fn lemma_digit_run_bounded(s: Seq<u8>, pos: int)
    requires
        0 <= pos <= s.len(),
    ensures
        pos + #[trigger] digit_run(s, pos) <= s.len(),
    decreases s.len() - pos,
{
    if pos < s.len() {
        lemma_digit_run_bounded(s, pos + 1);
    }
}

pub broadcast group group_runs_bounded {
    lemma_trivia_run_bounded,
    lemma_ident_run_bounded,
    lemma_digit_run_bounded,
}

fn is_ws_byte(b: u8) -> (r: bool)
    ensures
        r == is_ws(b),
{
    b == 32 || b == 9 || b == 10 || b == 13
}

fn is_digit_byte(b: u8) -> (r: bool)
    ensures
        r == is_digit(b),
{
    48 <= b && b <= 57
}

fn is_ident_start_byte(b: u8) -> (r: bool)
    ensures
        r == is_ident_start(b),
{
    (65 <= b && b <= 90) || (97 <= b && b <= 122) || b == 95
}

fn is_ident_char_byte(b: u8) -> (r: bool)
    ensures
        r == is_ident_char(b),
{
    is_ident_start_byte(b) || is_digit_byte(b) || b == 36
}

/// Number of bytes from `pos` up to the next line feed or the end.
fn scan_line(s: &[u8], pos: usize) -> (r: usize)
    requires
        pos <= s@.len(),
    ensures
        r == line_rest(s@, pos as int),
        pos + r <= s@.len(),
{
    let mut j: usize = pos;
    while j < s.len() && s[j] != 10
        invariant
            pos <= j <= s@.len(),
            pos + line_rest(s@, pos as int) == j + line_rest(s@, j as int),
        decreases s@.len() - j,
    {
        j = j + 1;
    }
    j - pos
}

/// Number of bytes from `pos` up to and including the next `*/`, if any.
fn scan_block(s: &[u8], pos: usize) -> (r: Option<usize>)
    requires
        pos <= s@.len(),
    ensures
        match r {
            Some(n) => block_rest(s@, pos as int) == Some(n as nat) && pos + n <= s@.len(),
            None => block_rest(s@, pos as int) is None,
        },
{
    let mut j: usize = pos;
    while j < s.len() && s.len() - j > 1
        invariant
            pos <= j <= s@.len(),
            block_rest(s@, pos as int) == match block_rest(s@, j as int) {
                Some(n) => Some((n + (j - pos)) as nat),
                None => None::<nat>,
            },
        decreases s@.len() - j,
    {
        if s[j] == 42 && s[j + 1] == 47 {
            return Some(j + 2 - pos);
        }
        j = j + 1;
    }
    None
}

/// The length of the piece of trivia at `pos`, 0 where none starts.
fn trivia_length(s: &[u8], pos: usize) -> (r: usize)
    requires
        pos <= s@.len(),
    ensures
        r == trivia_len(s@, pos as int),
        pos + r <= s@.len(),
{
    if pos < s.len() && is_ws_byte(s[pos]) {
        1
    } else if pos < s.len() && s.len() - pos > 1 && s[pos] == 47 && s[pos + 1] == 47 {
        2 + scan_line(s, pos + 2)
    } else if pos < s.len() && s.len() - pos > 1 && s[pos] == 47 && s[pos + 1] == 42 {
        match scan_block(s, pos + 2) {
            Some(n) => 2 + n,
            None => 0,
        }
    } else {
        0
    }
}

/// Skips the trivia (whitespace and comments) that starts at `pos`.
pub fn skip_trivia(s: &[u8], pos: usize) -> (r: usize)
    requires
        pos <= s@.len(),
    ensures
        r == after_trivia(s@, pos as int),
        pos <= r <= s@.len(),
{
    let n = s.len();
    let mut i: usize = pos;
    loop
        invariant
            n == s@.len(),
            pos <= i <= s@.len(),
            pos + trivia_run(s@, pos as int) == i + trivia_run(s@, i as int),
        ensures
            i == pos + trivia_run(s@, pos as int),
            pos <= i <= s@.len(),
        decreases s@.len() - i,
    {
        let k = trivia_length(s, i);
        if k == 0 {
            break ;
        }
        i = i + k;
    }
    i
}

fn scan_ident_chars(s: &[u8], pos: usize) -> (r: usize)
    requires
        pos <= s@.len(),
    ensures
        r == pos + ident_run(s@, pos as int),
        r <= s@.len(),
{
    let mut i: usize = pos;
    while i < s.len() && is_ident_char_byte(s[i])
        invariant
            pos <= i <= s@.len(),
            pos + ident_run(s@, pos as int) == i + ident_run(s@, i as int),
        decreases s@.len() - i,
    {
        i = i + 1;
    }
    i
}

fn scan_digits(s: &[u8], pos: usize) -> (r: usize)
    requires
        pos <= s@.len(),
    ensures
        r == pos + digit_run(s@, pos as int),
        r <= s@.len(),
{
    let mut i: usize = pos;
    while i < s.len() && is_digit_byte(s[i])
        invariant
            pos <= i <= s@.len(),
            pos + digit_run(s@, pos as int) == i + digit_run(s@, i as int),
        decreases s@.len() - i,
    {
        i = i + 1;
    }
    i
}

/// Matches the one-byte token `c` at `pos` and skips the trivia after it.
pub fn symbol1(s: &[u8], pos: usize, c: u8) -> (r: Result<usize, ParseError>)
    requires
        pos <= s@.len(),
    ensures
        match r {
            Ok(p) => sym1(s@, pos as int, c) == Some(p as int) && pos < p <= s@.len(),
            Err(e) => sym1(s@, pos as int, c) is None && e.pos == pos,
        },
{
    if pos < s.len() && s[pos] == c {
        Ok(skip_trivia(s, pos + 1))
    } else {
        Err(ParseError { pos })
    }
}

/// Matches the two-byte token `c1 c2` at `pos` and skips the trivia after it.
pub fn symbol2(s: &[u8], pos: usize, c1: u8, c2: u8) -> (r: Result<usize, ParseError>)
    requires
        pos <= s@.len(),
    ensures
        match r {
            Ok(p) => sym2(s@, pos as int, c1, c2) == Some(p as int) && pos < p <= s@.len(),
            Err(e) => sym2(s@, pos as int, c1, c2) is None && e.pos == pos,
        },
{
    if pos < s.len() && s.len() - pos > 1 && s[pos] == c1 && s[pos + 1] == c2 {
        Ok(skip_trivia(s, pos + 2))
    } else {
        Err(ParseError { pos })
    }
}

/// Parses an identifier at `pos`: a letter or `_`, then letters, digits, `_`
/// and `$`. The span covers the characters; the cursor moves past the
/// trivia after them.
pub fn identifier(s: &[u8], pos: usize) -> (r: Result<(usize, Identifier), ParseError>)
    requires
        pos <= s@.len(),
    ensures
        match r {
            Ok((p, id)) => ident(s@, pos as int) == Some(p as int) && pos < p <= s@.len()
                && id.span.start == pos && id.span.end == ident_text_end(s@, pos as int),
            Err(e) => ident(s@, pos as int) is None && e.pos == pos,
        },
{
    if pos < s.len() && is_ident_start_byte(s[pos]) {
        let end = scan_ident_chars(s, pos + 1);
        let p = skip_trivia(s, end);
        Ok((p, Identifier { span: Span { start: pos, end } }))
    } else {
        Err(ParseError { pos })
    }
}

/// Parses an unsigned decimal number at `pos`; the span covers its digits.
pub fn unsigned_number(s: &[u8], pos: usize) -> (r: Result<(usize, Span), ParseError>)
    requires
        pos <= s@.len(),
    ensures
        match r {
            Ok((p, sp)) => number(s@, pos as int) == Some(p as int) && pos < p <= s@.len()
                && sp.start == pos && sp.end == number_text_end(s@, pos as int),
            Err(e) => number(s@, pos as int) is None && e.pos == pos,
        },
{
    if pos < s.len() && is_digit_byte(s[pos]) {
        let end = scan_digits(s, pos);
        let p = skip_trivia(s, end);
        Ok((p, Span { start: pos, end }))
    } else {
        Err(ParseError { pos })
    }
}

} // verus!
