use vstd::prelude::*;
use crate::token::{BasicToken, BasicTokenKind, IntFormat, Position};

verus! {

/// A lexical failure of the basic scanner, at the offset where the bad literal starts.
#[derive(Clone, Copy, Debug, PartialEq, Eq, Structural)]
pub enum BasicScannerError {
    UnterminatedString(Position),
    UnterminatedChar(Position),
}

/// The basic tokens of a buffer, handed out one at a time.
///
/// Tokens that precede a lexical error are handed out first; the error
/// surfaces when the scanner is asked for the token after them.
pub struct BasicScanner {
    pub Tokens: Vec<BasicToken>,
    pub Index: usize,
    pub Error: Option<BasicScannerError>,
    pub End: Position,
}

pub open spec fn is_whitespace(c: char) -> bool {
    c == ' ' || c == '\t' || c == '\r'
}

pub open spec fn is_delimiter(c: char) -> bool {
    c == '(' || c == ')' || c == '[' || c == ']' || c == '{' || c == '}' || c == ','
        || c == ';' || c == '/'
}

pub open spec fn is_digit(c: char) -> bool {
    '0' <= c && c <= '9'
}

pub open spec fn is_hex_digit(c: char) -> bool {
    is_digit(c) || ('a' <= c && c <= 'f') || ('A' <= c && c <= 'F')
}

pub open spec fn is_ident_start(c: char) -> bool {
    ('a' <= c && c <= 'z') || ('A' <= c && c <= 'Z') || c == '_'
}

pub open spec fn is_ident_char(c: char) -> bool {
    is_ident_start(c) || is_digit(c)
}

pub open spec fn is_operator_char(c: char) -> bool {
    !is_whitespace(c) && c != '\n' && !is_delimiter(c) && !is_ident_char(c) && c != '"'
        && c != '\''
}

/// The characters from `pos` up to `end` have the shape of a token of `kind`.
pub open spec fn shape_fits(buf: Seq<char>, kind: BasicTokenKind, pos: int, end: int) -> bool {
    match kind {
        BasicTokenKind::Ident => is_ident_start(buf[pos]) && forall|k: int|
            pos < k < end ==> is_ident_char(#[trigger] buf[k]),
        BasicTokenKind::Operator => forall|k: int| pos <= k < end ==> is_operator_char(#[trigger] buf[k]),
        BasicTokenKind::Delimiter => end == pos + 1 && is_delimiter(buf[pos]),
        BasicTokenKind::Newline => end == pos + 1 && buf[pos] == '\n',
        BasicTokenKind::Comment => pos + 2 <= end && buf[pos] == '/' && buf[pos + 1] == '/'
            && forall|k: int| pos + 2 <= k < end ==> #[trigger] buf[k] != '\n',
        BasicTokenKind::Int(_) => is_digit(buf[pos]),
        BasicTokenKind::Float => is_digit(buf[pos]),
        BasicTokenKind::Str => pos + 2 <= end && buf[pos] == '"' && buf[end - 1] == '"',
        BasicTokenKind::Char => pos + 2 <= end && buf[pos] == '\'' && buf[end - 1] == '\'',
    }
}

/// A token is a non-empty slice of the buffer, holds that slice as its text
/// and has the shape of its kind; it is a line break exactly when it starts
/// at one.
pub open spec fn token_fits(buf: Seq<char>, t: BasicToken) -> bool {
    &&& t.Pos.Offset < t.End.Offset <= buf.len()
    &&& t.Literal@ == buf.subrange(t.Pos.Offset as int, t.End.Offset as int)
    &&& (t.Kind == BasicTokenKind::Newline <==> buf[t.Pos.Offset as int] == '\n')
    &&& shape_fits(buf, t.Kind, t.Pos.Offset as int, t.End.Offset as int)
}

/// Every token fits the buffer, and the tokens come in source order without
/// overlapping.
pub open spec fn tokens_fit(buf: Seq<char>, toks: Seq<BasicToken>) -> bool {
    &&& forall|i: int| 0 <= i < toks.len() ==> token_fits(buf, #[trigger] toks[i])
    &&& forall|i: int, j: int|
        0 <= i < j < toks.len() ==> (#[trigger] toks[i]).End.Offset <= (#[trigger] toks[j]).Pos.Offset
}

impl BasicScanner {
    pub open spec fn wf(&self) -> bool {
        &&& self.Index <= self.Tokens.len()
        &&& forall|i: int|
            0 <= i < self.Tokens.len() ==> (#[trigger] self.Tokens@[i]).End.Offset
                <= self.End.Offset
    }
}

fn IsWhitespace(c: char) -> (r: bool)
    ensures
        r == is_whitespace(c),
{
    c == ' ' || c == '\t' || c == '\r'
}

fn IsDelimiter(c: char) -> (r: bool)
    ensures
        r == is_delimiter(c),
{
    c == '(' || c == ')' || c == '[' || c == ']' || c == '{' || c == '}' || c == ',' || c == ';'
        || c == '/'
}

fn IsDigit(c: char) -> (r: bool)
    ensures
        r == is_digit(c),
{
    '0' <= c && c <= '9'
}

fn IsHexDigit(c: char) -> (r: bool)
    ensures
        r == is_hex_digit(c),
{
    IsDigit(c) || ('a' <= c && c <= 'f') || ('A' <= c && c <= 'F')
}

fn IsIdentStart(c: char) -> (r: bool)
    ensures
        r == is_ident_start(c),
{
    ('a' <= c && c <= 'z') || ('A' <= c && c <= 'Z') || c == '_'
}

fn IsIdentChar(c: char) -> (r: bool)
    ensures
        r == is_ident_char(c),
{
    IsIdentStart(c) || IsDigit(c)
}

fn IsOperatorChar(c: char) -> (r: bool)
    ensures
        r == is_operator_char(c),
{
    !IsWhitespace(c) && c != '\n' && !IsDelimiter(c) && !IsIdentChar(c) && c != '"' && c != '\''
}

/// The characters of `buf` from `a` up to `b`.
fn Slice(buf: &Vec<char>, a: usize, b: usize) -> (r: Vec<char>)
    requires
        a <= b <= buf.len(),
    ensures
        r@ == buf@.subrange(a as int, b as int),
{
    let mut out: Vec<char> = Vec::new();
    let mut i: usize = a;
    while i < b
        invariant
            a <= i <= b <= buf.len(),
            out@ == buf@.subrange(a as int, i as int),
        decreases b - i,
    {
        out.push(buf[i]);
        i = i + 1;
        assert(out@ =~= buf@.subrange(a as int, i as int));
    }
    out
}

/// The character classes that make up runs.
#[derive(Clone, Copy, PartialEq, Eq, Structural)]
pub enum CharClass {
    IdentPart,
    OperatorPart,
    DecimalDigit,
    HexDigit,
    NotLineBreak,
}

pub open spec fn in_class(c: char, class: CharClass) -> bool {
    match class {
        CharClass::IdentPart => is_ident_char(c),
        CharClass::OperatorPart => is_operator_char(c),
        CharClass::DecimalDigit => is_digit(c),
        CharClass::HexDigit => is_hex_digit(c),
        CharClass::NotLineBreak => c != '\n',
    }
}

fn InClass(c: char, class: CharClass) -> (r: bool)
    ensures
        r == in_class(c, class),
{
    match class {
        CharClass::IdentPart => IsIdentChar(c),
        CharClass::OperatorPart => IsOperatorChar(c),
        CharClass::DecimalDigit => IsDigit(c),
        CharClass::HexDigit => IsHexDigit(c),
        CharClass::NotLineBreak => c != '\n',
    }
}

/// End of the longest run of `class` characters from `from` on.
pub open spec fn run_end(buf: Seq<char>, from: int, class: CharClass) -> int
    decreases buf.len() - from,
{
    if 0 <= from < buf.len() && in_class(buf[from], class) {
        run_end(buf, from + 1, class)
    } else {
        from
    }
}

/// Offset of the first unescaped `quote` at or after `j`; a backslash skips
/// the character after it.
pub open spec fn quote_from(buf: Seq<char>, j: int, quote: char) -> Option<int>
    decreases buf.len() - j,
{
    if j < 0 || j >= buf.len() {
        None
    } else if buf[j] == quote {
        Some(j)
    } else if buf[j] == '\\' && buf.len() - j > 1 {
        quote_from(buf, j + 2, quote)
    } else {
        quote_from(buf, j + 1, quote)
    }
}

/// Shape and end of the longest token that starts at `i`.
pub open spec fn next_token(buf: Seq<char>, i: int) -> Result<(BasicTokenKind, int), BasicScannerError> {
    let n = buf.len() as int;
    let c = buf[i];
    if c == '\n' {
        Ok((BasicTokenKind::Newline, i + 1))
    } else if c == '/' && n - i > 1 && buf[i + 1] == '/' {
        Ok((BasicTokenKind::Comment, run_end(buf, i + 2, CharClass::NotLineBreak)))
    } else if is_delimiter(c) {
        Ok((BasicTokenKind::Delimiter, i + 1))
    } else if is_ident_start(c) {
        Ok((BasicTokenKind::Ident, run_end(buf, i + 1, CharClass::IdentPart)))
    } else if is_digit(c) {
        if c == '0' && n - i > 2 && (buf[i + 1] == 'x' || buf[i + 1] == 'X') && is_hex_digit(buf[i + 2]) {
            Ok((BasicTokenKind::Int(IntFormat::Hex), run_end(buf, i + 2, CharClass::HexDigit)))
        } else {
            let e = run_end(buf, i + 1, CharClass::DecimalDigit);
            if n - e > 1 && buf[e] == '.' && is_digit(buf[e + 1]) {
                Ok((BasicTokenKind::Float, run_end(buf, e + 1, CharClass::DecimalDigit)))
            } else {
                Ok((BasicTokenKind::Int(IntFormat::Decimal), e))
            }
        }
    } else if c == '"' {
        match quote_from(buf, i + 1, c) {
            Some(k) => Ok((BasicTokenKind::Str, k + 1)),
            None => Err(BasicScannerError::UnterminatedString(Position { Offset: i as usize })),
        }
    } else if c == '\'' {
        match quote_from(buf, i + 1, c) {
            Some(k) => Ok((BasicTokenKind::Char, k + 1)),
            None => Err(BasicScannerError::UnterminatedChar(Position { Offset: i as usize })),
        }
    } else {
        Ok((BasicTokenKind::Operator, run_end(buf, i + 1, CharClass::OperatorPart)))
    }
}

/// The basic tokens of `buf` from `i` on, each as its shape, start and end,
/// and the lexical failure that ends them, if any. Whitespace separates
/// tokens and belongs to none.
pub open spec fn lex(buf: Seq<char>, i: int) -> (Seq<(BasicTokenKind, int, int)>, Option<
    BasicScannerError,
>)
    decreases buf.len() - i,
{
    if i < 0 || i >= buf.len() {
        (Seq::empty(), None)
    } else if is_whitespace(buf[i]) {
        lex(buf, i + 1)
    } else {
        match next_token(buf, i) {
            Err(e) => (Seq::empty(), Some(e)),
            Ok((kind, end)) => if i < end <= buf.len() {
                let rest = lex(buf, end);
                (seq![(kind, i, end)] + rest.0, rest.1)
            } else {
                (Seq::empty(), None)
            },
        }
    }
}

/// A basic token as its shape, start and end.
pub open spec fn token_place(t: BasicToken) -> (BasicTokenKind, int, int) {
    (t.Kind, t.Pos.Offset as int, t.End.Offset as int)
}

/// End of the longest run of `class` characters that starts at `from`.
fn RunEnd(buf: &Vec<char>, from: usize, class: CharClass) -> (r: usize)
    requires
        from <= buf.len(),
    ensures
        from <= r <= buf.len(),
        r == run_end(buf@, from as int, class),
        forall|k: int| from <= k < r ==> in_class(#[trigger] buf@[k], class),
        r < buf.len() ==> !in_class(buf@[r as int], class),
{
    let mut j: usize = from;
    while j < buf.len()
        invariant
            from <= j <= buf.len(),
            forall|k: int| from <= k < j ==> in_class(#[trigger] buf@[k], class),
            run_end(buf@, from as int, class) == run_end(buf@, j as int, class),
        decreases buf.len() - j,
    {
        if !InClass(buf[j], class) {
            return j;
        }
        j = j + 1;
    }
    j
}

/// Offset of the closing `quote` of a literal that opens at `from`, skipping
/// escaped characters; `None` when the buffer ends first.
fn QuoteEnd(buf: &Vec<char>, from: usize, quote: char) -> (r: Option<usize>)
    requires
        from < buf.len(),
    ensures
        r matches Some(k) ==> from < k < buf.len() && buf@[k as int] == quote,
        match r {
            Some(k) => quote_from(buf@, from + 1, quote) == Some(k as int),
            None => quote_from(buf@, from + 1, quote) is None,
        },
{
    let mut j: usize = from + 1;
    while j < buf.len()
        invariant
            from < j <= buf.len(),
            quote_from(buf@, from + 1, quote) == quote_from(buf@, j as int, quote),
        decreases buf.len() - j,
    {
        let c = buf[j];
        if c == quote {
            return Some(j);
        }
        if c == '\\' && buf.len() - j > 1 {
            j = j + 2;
        } else {
            j = j + 1;
        }
    }
    None
}

proof fn lemma_fit_push(buf: Seq<char>, toks: Seq<BasicToken>, tok: BasicToken)
    requires
        tokens_fit(buf, toks),
        toks.len() > 0 ==> toks[toks.len() - 1].End.Offset <= tok.Pos.Offset,
        token_fits(buf, tok),
    ensures
        tokens_fit(buf, toks.push(tok)),
{
    let t = toks.push(tok);
    assert forall|i: int, j: int| 0 <= i < j < t.len() implies (#[trigger] t[i]).End.Offset <= (#[trigger] t[j]).Pos.Offset by {
        assert(toks[i] == t[i]);
        if j < toks.len() {
            assert(toks[j] == t[j]);
        } else {
            let last = toks.len() - 1;
            assert(token_fits(buf, toks[i]));
            assert(token_fits(buf, toks[last]));
        }
    }
    assert forall|i: int| 0 <= i < t.len() implies token_fits(buf, #[trigger] t[i]) by {
        if i < toks.len() {
            assert(toks[i] == t[i]);
        }
    }
}

/// Shape and end offset of the token that starts at `i`, which holds no
/// whitespace.
fn NextToken(buf: &Vec<char>, i: usize) -> (r: Result<(BasicTokenKind, usize), BasicScannerError>)
    requires
        i < buf.len(),
        !is_whitespace(buf@[i as int]),
    ensures
        r matches Ok((kind, end)) ==> {
            &&& i < end <= buf.len()
            &&& (kind == BasicTokenKind::Newline <==> buf@[i as int] == '\n')
            &&& shape_fits(buf@, kind, i as int, end as int)
        },
        match r {
            Ok((kind, end)) => next_token(buf@, i as int) == Ok::<(BasicTokenKind, int), BasicScannerError>((kind, end as int)),
            Err(e) => next_token(buf@, i as int) == Err::<(BasicTokenKind, int), BasicScannerError>(e),
        },
{
    let n = buf.len();
    let c = buf[i];
    if c == '\n' {
        Ok((BasicTokenKind::Newline, i + 1))
    } else if c == '/' && n - i > 1 && buf[i + 1] == '/' {
        Ok((BasicTokenKind::Comment, RunEnd(buf, i + 2, CharClass::NotLineBreak)))
    } else if IsDelimiter(c) {
        Ok((BasicTokenKind::Delimiter, i + 1))
    } else if IsIdentStart(c) {
        Ok((BasicTokenKind::Ident, RunEnd(buf, i + 1, CharClass::IdentPart)))
    } else if IsDigit(c) {
        if c == '0' && n - i > 2 && (buf[i + 1] == 'x' || buf[i + 1] == 'X') && IsHexDigit(buf[i + 2]) {
            Ok((BasicTokenKind::Int(IntFormat::Hex), RunEnd(buf, i + 2, CharClass::HexDigit)))
        } else {
            let e = RunEnd(buf, i + 1, CharClass::DecimalDigit);
            if n - e > 1 && buf[e] == '.' && IsDigit(buf[e + 1]) {
                Ok((BasicTokenKind::Float, RunEnd(buf, e + 1, CharClass::DecimalDigit)))
            } else {
                Ok((BasicTokenKind::Int(IntFormat::Decimal), e))
            }
        }
    } else if c == '"' {
        match QuoteEnd(buf, i, c) {
            Some(k) => Ok((BasicTokenKind::Str, k + 1)),
            None => Err(BasicScannerError::UnterminatedString(Position { Offset: i })),
        }
    } else if c == '\'' {
        match QuoteEnd(buf, i, c) {
            Some(k) => Ok((BasicTokenKind::Char, k + 1)),
            None => Err(BasicScannerError::UnterminatedChar(Position { Offset: i })),
        }
    } else {
        Ok((BasicTokenKind::Operator, RunEnd(buf, i + 1, CharClass::OperatorPart)))
    }
}

/// Splits a buffer into basic tokens, stopping at the first malformed literal.
pub fn NewBufferScanner(buffer: Vec<char>) -> (r: BasicScanner)
    ensures
        r.wf(),
        r.Index == 0,
        r.End.Offset == buffer.len(),
        tokens_fit(buffer@, r.Tokens@),
        r.Tokens@.map_values(|t: BasicToken| token_place(t)) == lex(buffer@, 0).0,
        r.Error == lex(buffer@, 0).1,
{
    let buf = &buffer;
    let n = buf.len();
    let mut toks: Vec<BasicToken> = Vec::new();
    let mut error: Option<BasicScannerError> = None;
    let mut i: usize = 0;
    while i < n
        invariant_except_break
            error is None,
            lex(buf@, 0) == (toks@.map_values(|t: BasicToken| token_place(t)) + lex(buf@, i as int).0, lex(buf@, i as int).1),
        invariant
            n == buf.len(),
            i <= n,
            tokens_fit(buf@, toks@),
            toks.len() > 0 ==> toks@[toks.len() - 1].End.Offset <= i,
        ensures
            lex(buf@, 0) == (toks@.map_values(|t: BasicToken| token_place(t)), error),
        decreases n - i,
    {
        if IsWhitespace(buf[i]) {
            i = i + 1;
            continue;
        }
        if i >= n {
            assert(lex(buf@, i as int).0 =~= Seq::<(BasicTokenKind, int, int)>::empty());
        }
        match NextToken(buf, i) {
            Err(e) => {
                error = Some(e);
                assert(lex(buf@, 0).0 =~= toks@.map_values(|t: BasicToken| token_place(t)));
                break;
            },
            Ok((kind, end)) => {
                let lit = Slice(buf, i, end);
                let tok = BasicToken {
                    Pos: Position { Offset: i },
                    End: Position { Offset: end },
                    Kind: kind,
                    Literal: lit,
                };
                proof {
                    lemma_fit_push(buf@, toks@, tok);
                }
                let ghost before = toks@;
                toks.push(tok);
                proof {
                    assert(toks@.map_values(|t: BasicToken| token_place(t)) =~= before.map_values(|t: BasicToken| token_place(t)).push((kind, i as int, end as int)));
                    assert(seq![(kind, i as int, end as int)] + lex(buf@, end as int).0 =~= seq![(kind, i as int, end as int)].add(lex(buf@, end as int).0));
                    assert(before.map_values(|t: BasicToken| token_place(t)) + (seq![(kind, i as int, end as int)] + lex(buf@, end as int).0) =~= toks@.map_values(|t: BasicToken| token_place(t)) + lex(buf@, end as int).0);
                }
                i = end;
            },
        }
    }
    assert forall|k: int| 0 <= k < toks.len() implies (#[trigger] toks@[k]).End.Offset <= n by {
        assert(token_fits(buf@, toks@[k]));
    }
    BasicScanner { Tokens: toks, Index: 0, Error: error, End: Position { Offset: n } }
}

} // verus!
