use vstd::prelude::*;
use crate::ast::{
    TypeShape, type_has_shape, Expr, Field, FieldList, FuncDecl, FuncType, Ident, ImportDecl, Stmt, StmtBlock, StructType,
    SyntaxError, TraitType, Type, UnexpectedNodeError,
};
use crate::scanner::{BasicScanner, BasicScannerError, NewBufferScanner, lex, token_place, tokens_fit};
use crate::token::{
    BasicToken, BasicTokenKind, CopyChars, KeywordLookup, PosRange, Position, TagMatches, Token, TokenKind,
    TokenModel, keyword_of, placeholder_token, same_tag,
};

verus! {

/// A failure that stops the parse pass: the basic scanner met a malformed literal.
#[derive(Clone, Copy, Debug, PartialEq, Eq, Structural)]
pub enum ParserError {
    ScannerError(BasicScannerError),
}

/// The state of one parse pass over one buffer.
pub struct Parser {
    pub Scanner: BasicScanner,
    pub Token: Token,
    pub PrevEnd: Position,
    pub CompleteSemicolon: bool,
    pub QuoteStack: Vec<TokenKind>,
    pub SyntaxErrors: Vec<SyntaxError>,
}

/// What a parse pass reads and never changes: the basic tokens, the lexical
/// failure after them if any, and where the buffer ends.
pub ghost struct Source {
    pub toks: Seq<BasicToken>,
    pub failure: Option<BasicScannerError>,
    pub end: Position,
}

/// The changing part of a parse pass.
pub ghost struct ParserModel {
    /// How many basic tokens have been pulled.
    pub index: int,
    /// The lookahead.
    pub tok: TokenModel,
    /// Where the last consumed token ends.
    pub prev_end: Position,
    /// A line break next becomes a statement terminator.
    pub pending: bool,
    /// Expected closing brackets, innermost last.
    pub stack: Seq<TokenKind>,
    /// Diagnostics in the order they were reported.
    pub errors: Seq<SyntaxError>,
}

impl View for Parser {
    type V = ParserModel;

    open spec fn view(&self) -> ParserModel {
        ParserModel {
            index: self.Scanner.Index as int,
            tok: self.Token@,
            prev_end: self.PrevEnd,
            pending: self.CompleteSemicolon,
            stack: self.QuoteStack@,
            errors: self.SyntaxErrors@,
        }
    }
}

/// First index at or after `i` that holds no comment.
pub open spec fn next_visible(toks: Seq<BasicToken>, i: int) -> int
    decreases toks.len() - i,
{
    if i < toks.len() && toks[i].Kind == BasicTokenKind::Comment {
        next_visible(toks, i + 1)
    } else {
        i
    }
}

/// The kind of a basic token after keyword resolution: a reserved spelling
/// gives its keyword kind whatever its shape; any other identifier run stays
/// an identifier and any other operator or delimiter run is an operator.
pub open spec fn classify(bt: BasicToken) -> TokenKind {
    match bt.Kind {
        BasicTokenKind::Ident => match keyword_of(bt.Literal@) {
            Some(k) => k,
            None => TokenKind::Ident,
        },
        BasicTokenKind::Operator | BasicTokenKind::Delimiter => match keyword_of(bt.Literal@) {
            Some(k) => k,
            None => TokenKind::Operator,
        },
        BasicTokenKind::Newline => TokenKind::NEWLINE,
        BasicTokenKind::Int(f) => TokenKind::Int(f),
        BasicTokenKind::Float => TokenKind::Float,
        BasicTokenKind::Str => TokenKind::Str,
        BasicTokenKind::Char => TokenKind::Char,
        BasicTokenKind::Comment => TokenKind::Invalid,
    }
}

/// Kinds after which a line break ends a statement.
pub open spec fn ends_statement(k: TokenKind) -> bool {
    k == TokenKind::Ident || k == TokenKind::RPAREN || k == TokenKind::RBRACE || k
        == TokenKind::RETURN
}

/// The closer that an opening bracket expects.
pub open spec fn closer_of(k: TokenKind) -> Option<TokenKind> {
    match k {
        TokenKind::LPAREN => Some(TokenKind::RPAREN),
        TokenKind::LBRACE => Some(TokenKind::RBRACE),
        TokenKind::LBRACK => Some(TokenKind::RBRACK),
        _ => None,
    }
}

pub open spec fn eof_token(end: Position) -> TokenModel {
    TokenModel { pos: end, end: end, kind: TokenKind::EOF, text: Seq::empty() }
}

/// One step of the token adapter: skip comments, then turn the next basic
/// token into the lookahead. A line break right after a token that can end a
/// statement becomes a terminator at the break. Every opening bracket pushes
/// its closer. Past the last token the lookahead is an end-of-input token,
/// unless the scanner failed there.
pub open spec fn scan_step(src: Source, m: ParserModel) -> Result<ParserModel, ParserError> {
    let j = next_visible(src.toks, m.index);
    if j >= src.toks.len() {
        match src.failure {
            Some(e) => Err(ParserError::ScannerError(e)),
            None => Ok(
                ParserModel {
                    index: src.toks.len() as int,
                    tok: eof_token(src.end),
                    prev_end: m.tok.end,
                    pending: false,
                    ..m
                },
            ),
        }
    } else {
        let bt = src.toks[j];
        if bt.Kind == BasicTokenKind::Newline && m.pending {
            Ok(
                ParserModel {
                    index: j + 1,
                    tok: TokenModel {
                        pos: bt.Pos,
                        end: bt.End,
                        kind: TokenKind::SEMICOLON,
                        text: seq![';'],
                    },
                    prev_end: m.tok.end,
                    pending: false,
                    ..m
                },
            )
        } else {
            let k = classify(bt);
            Ok(
                ParserModel {
                    index: j + 1,
                    tok: TokenModel { pos: bt.Pos, end: bt.End, kind: k, text: bt.Literal@ },
                    prev_end: m.tok.end,
                    pending: ends_statement(k),
                    stack: match closer_of(k) {
                        Some(c) => m.stack.push(c),
                        None => m.stack,
                    },
                    errors: m.errors,
                },
            )
        }
    }
}

proof fn lemma_next_visible(toks: Seq<BasicToken>, i: int)
    requires
        0 <= i <= toks.len(),
    ensures
        i <= next_visible(toks, i) <= toks.len(),
    decreases toks.len() - i,
{
    if i < toks.len() && toks[i].Kind == BasicTokenKind::Comment {
        lemma_next_visible(toks, i + 1);
    }
}

/// The lookahead is `trait` and the token after it an identifier: the name
/// token and the state once both are consumed.
pub open spec fn trait_ahead(src: Source, m: ParserModel) -> Option<(TokenModel, ParserModel)> {
    if m.tok.kind == TokenKind::TRAIT {
        match scan_step(src, m) {
            Ok(m1) => if m1.tok.kind == TokenKind::Ident {
                match scan_step(src, m1) {
                    Ok(m2) => Some((m1.tok, m2)),
                    Err(_) => None,
                }
            } else {
                None
            },
            Err(_) => None,
        }
    } else {
        None
    }
}

/// A type lies ahead: `trait` and a name, or `struct`, `{`, a name, fields
/// separated by `;`, and `}`. Gives its shape and the state once it is
/// consumed.
pub open spec fn type_ahead(src: Source, m: ParserModel) -> Option<(TypeShape, ParserModel)>
    decreases src.toks.len() - m.index, 1nat,
{
    if m.tok.kind == TokenKind::TRAIT {
        match trait_ahead(src, m) {
            Some((t, m2)) => Some((TypeShape::Trait(t), m2)),
            None => None,
        }
    } else if m.tok.kind == TokenKind::STRUCT {
        match struct_name_ahead(src, m) {
            None => None,
            Some(name) => {
                let m2 = scan_step(src, scan_step(src, m)->Ok_0)->Ok_0;
                match scan_step(src, m2) {
                    Err(_) => None,
                    Ok(m3) => if m.index < m3.index <= src.toks.len() {
                        match fields_ahead(src, m3, TokenKind::SEMICOLON, TokenKind::RBRACE) {
                            Some((fs, m4)) => match scan_step(src, m4) {
                                Ok(m5) => Some((TypeShape::Struct(name, fs), m5)),
                                Err(_) => None,
                            },
                            None => None,
                        }
                    } else {
                        None
                    },
                }
            },
        }
    } else {
        None
    }
}

/// A field lies ahead: a name, then a type. Gives the name token, the type's
/// shape and the state once both are consumed.
pub open spec fn field_ahead(src: Source, m: ParserModel) -> Option<
    (TokenModel, TypeShape, ParserModel),
>
    decreases src.toks.len() - m.index, 2nat,
{
    if m.tok.kind == TokenKind::Ident {
        match scan_step(src, m) {
            Ok(m1) => if m.index < m1.index <= src.toks.len() {
                match type_ahead(src, m1) {
                    Some((t, m2)) => Some((m.tok, t, m2)),
                    None => None,
                }
            } else {
                None
            },
            Err(_) => None,
        }
    } else {
        None
    }
}

/// A non-empty list of fields lies ahead, separated by `delimiter`, with an
/// optional `delimiter` before `term`. Gives each field's name token and
/// type shape, in order, and the state once the list is consumed, with
/// `term` as the lookahead.
pub open spec fn fields_ahead(
    src: Source,
    m: ParserModel,
    delimiter: TokenKind,
    term: TokenKind,
) -> Option<(Seq<(TokenModel, TypeShape)>, ParserModel)>
    decreases src.toks.len() - m.index, 3nat,
{
    match field_ahead(src, m) {
        None => None,
        Some((a, t, m3)) => if same_tag(m3.tok.kind, delimiter) {
            match scan_step(src, m3) {
                Err(_) => None,
                Ok(m4) => if same_tag(m4.tok.kind, term) {
                    Some((seq![(a, t)], m4))
                } else if m.index < m4.index <= src.toks.len() {
                    match fields_ahead(src, m4, delimiter, term) {
                        Some((rest, me)) => Some((seq![(a, t)] + rest, me)),
                        None => None,
                    }
                } else {
                    None
                },
            }
        } else if same_tag(m3.tok.kind, term) {
            Some((seq![(a, t)], m3))
        } else {
            None
        },
    }
}

/// Each field has the name and type shape given, in the same order.
pub open spec fn fields_have_shape(list: Seq<Field>, fs: Seq<(TokenModel, TypeShape)>) -> bool {
    &&& list.len() == fs.len()
    &&& forall|i: int|
        0 <= i < fs.len() ==> (#[trigger] list[i]).Name.Token@ == fs[i].0 && type_has_shape(
            list[i].Type,
            fs[i].1,
        )
}

/// The lookahead is `struct`, then `{` and an identifier follow: the name token.
pub open spec fn struct_name_ahead(src: Source, m: ParserModel) -> Option<TokenModel> {
    if m.tok.kind == TokenKind::STRUCT {
        match scan_step(src, m) {
            Ok(m1) => if m1.tok.kind == TokenKind::LBRACE {
                match scan_step(src, m1) {
                    Ok(m2) => if m2.tok.kind == TokenKind::Ident {
                        Some(m2.tok)
                    } else {
                        None
                    },
                    Err(_) => None,
                }
            } else {
                None
            },
            Err(_) => None,
        }
    } else {
        None
    }
}

/// The lookahead is `import` and a well-formed import follows: the alias
/// token if one is given, the path token, and the state once all of it is
/// consumed.
pub open spec fn import_ahead(src: Source, m: ParserModel) -> Option<
    (Option<TokenModel>, TokenModel, ParserModel),
> {
    if m.tok.kind != TokenKind::IMPORT {
        None
    } else {
        match scan_step(src, m) {
            Err(_) => None,
            Ok(m1) => if m1.tok.kind == TokenKind::Str {
                match scan_step(src, m1) {
                    Ok(m2) => Some((None, m1.tok, m2)),
                    Err(_) => None,
                }
            } else if m1.tok.kind == TokenKind::Ident {
                match scan_step(src, m1) {
                    Ok(m2) => if m2.tok.kind == TokenKind::Str {
                        match scan_step(src, m2) {
                            Ok(m3) => Some((Some(m1.tok), m2.tok, m3)),
                            Err(_) => None,
                        }
                    } else {
                        None
                    },
                    Err(_) => None,
                }
            } else {
                None
            },
        }
    }
}

/// The lookahead is `func` and an identifier follows: the name token and the
/// state once both are consumed.
pub open spec fn func_name_ahead(src: Source, m: ParserModel) -> Option<(TokenModel, ParserModel)> {
    if m.tok.kind == TokenKind::FUNC {
        match scan_step(src, m) {
            Ok(m1) => if m1.tok.kind == TokenKind::Ident {
                match scan_step(src, m1) {
                    Ok(m2) => Some((m1.tok, m2)),
                    Err(_) => None,
                }
            } else {
                None
            },
            Err(_) => None,
        }
    } else {
        None
    }
}

proof fn lemma_fields_end_at_term(src: Source, m: ParserModel, delimiter: TokenKind, term: TokenKind)
    ensures
        fields_ahead(src, m, delimiter, term) matches Some((_, me)) ==> same_tag(
            me.tok.kind,
            term,
        ),
    decreases src.toks.len() - m.index,
{
    if let Some((a, t, m3)) = field_ahead(src, m) {
        if same_tag(m3.tok.kind, delimiter) {
            if let Ok(m4) = scan_step(src, m3) {
                if !same_tag(m4.tok.kind, term) && m.index < m4.index <= src.toks.len() {
                    lemma_fields_end_at_term(src, m4, delimiter, term);
                }
            }
        }
    }
}

/// A parameter list lies ahead: `(`, then `)` or a list of fields
/// separated by `,` and closed by `)`. Gives the fields' name tokens and type
/// shapes and the state once the closing `)` is consumed.
pub open spec fn params_ahead(src: Source, m: ParserModel) -> Option<
    (Seq<(TokenModel, TypeShape)>, ParserModel),
> {
    if m.tok.kind == TokenKind::LPAREN {
        match scan_step(src, m) {
            Ok(m1) => if m1.tok.kind == TokenKind::RPAREN {
                match scan_step(src, m1) {
                    Ok(m2) => Some((Seq::empty(), m2)),
                    Err(_) => None,
                }
            } else {
                match fields_ahead(src, m1, TokenKind::COMMA, TokenKind::RPAREN) {
                    Some((names, m2)) => match scan_step(src, m2) {
                        Ok(m3) => Some((names, m3)),
                        Err(_) => None,
                    },
                    None => None,
                }
            },
            Err(_) => None,
        }
    } else {
        None
    }
}

/// What follows a parameter list: nothing that starts a result, giving the
/// `Absent` shape, or `->` and a type. Gives the result's shape and the state
/// once the result is consumed.
pub open spec fn result_ahead(src: Source, m: ParserModel) -> Option<(TypeShape, ParserModel)> {
    if m.tok.kind != TokenKind::PASS {
        Some((TypeShape::Absent, m))
    } else {
        match scan_step(src, m) {
            Ok(m1) => type_ahead(src, m1),
            Err(_) => None,
        }
    }
}

/// A function type has the parameters and result given.
pub open spec fn func_type_matches(
    ft: FuncType,
    names: Seq<(TokenModel, TypeShape)>,
    result: TypeShape,
) -> bool {
    &&& fields_have_shape(ft.Params.FieldList@, names)
    &&& type_has_shape(ft.Result, result)
}

/// How many steps of the token adapter are left, at most.
pub open spec fn measure_of(src: Source, m: ParserModel) -> int {
    2 * (src.toks.len() - m.index) + if m.tok.kind == TokenKind::EOF {
        0int
    } else {
        1int
    }
}

/// Panic-mode skipping: steps of the token adapter until the lookahead has
/// the tag of `target` or is the end of input; the state there, or the
/// scanner failure met on the way.
pub open spec fn skip_to(src: Source, m: ParserModel, target: TokenKind) -> Result<
    ParserModel,
    ParserError,
>
    decreases measure_of(src, m),
{
    if same_tag(m.tok.kind, target) || m.tok.kind == TokenKind::EOF {
        Ok(m)
    } else {
        match scan_step(src, m) {
            Err(e) => Err(e),
            Ok(m2) => if 0 <= measure_of(src, m2) < measure_of(src, m) {
                skip_to(src, m2, target)
            } else {
                Ok(m2)
            },
        }
    }
}

proof fn lemma_skip_failure(src: Source, m: ParserModel, target: TokenKind)
    ensures
        skip_to(src, m, target) is Err ==> src.failure is Some,
    decreases measure_of(src, m),
{
    if !(same_tag(m.tok.kind, target) || m.tok.kind == TokenKind::EOF) {
        if let Ok(m2) = scan_step(src, m) {
            if 0 <= measure_of(src, m2) < measure_of(src, m) {
                lemma_skip_failure(src, m2, target);
            }
        } else {
            lemma_next_visible_fails(src, m);
        }
    }
}

proof fn lemma_next_visible_fails(src: Source, m: ParserModel)
    ensures
        scan_step(src, m) is Err ==> src.failure is Some,
{
}

/// The diagnostic for finding `have` where `want` was expected.
pub open spec fn unexpected(want: TokenKind, have: TokenModel) -> SyntaxError {
    SyntaxError::UnexpectedNode(UnexpectedNodeError { Want: want, Have: have.kind, Pos: have.pos })
}

impl Parser {
    pub open spec fn source(&self) -> Source {
        Source { toks: self.Scanner.Tokens@, failure: self.Scanner.Error, end: self.Scanner.End }
    }

    pub open spec fn wf(&self) -> bool {
        &&& self.Scanner.Index <= self.Scanner.Tokens.len()
        &&& self.Token.Kind == TokenKind::EOF ==> self.Scanner.Index == self.Scanner.Tokens.len()
    }

    /// Decreases with every token consumed.
    pub open spec fn measure(&self) -> int {
        2 * (self.Scanner.Tokens.len() - self.Scanner.Index) + if self.Token.Kind
            == TokenKind::EOF {
            0int
        } else {
            1int
        }
    }

    /// `new` is a later state of the same pass as `self`: same input, no
    /// token given back, and the diagnostics so far kept in place.
    pub open spec fn leads_to(&self, new: &Parser) -> bool {
        &&& new.wf()
        &&& new.source() == self.source()
        &&& new.Scanner.Index >= self.Scanner.Index
        &&& new.measure() <= self.measure()
        &&& new.SyntaxErrors.len() >= self.SyntaxErrors.len()
        &&& forall|i: int|
            0 <= i < self.SyntaxErrors.len() ==> new.SyntaxErrors@[i] == self.SyntaxErrors@[i]
    }

    /// The range of a production that started at `self` and left `new`: from
    /// the first token it consumed to the end of the last one; empty, at the
    /// lookahead, when it consumed none.
    pub open spec fn span(&self, new: &Parser) -> PosRange {
        PosRange {
            Begin: self.Token.Pos,
            End: if new.measure() < self.measure() {
                new.PrevEnd
            } else {
                self.Token.Pos
            },
        }
    }
}

/// A parser over `buffer`; its first `Scan` loads the first token.
pub fn NewParser(buffer: Vec<char>) -> (r: Parser)
    ensures
        r.wf(),
        r.Scanner.Index == 0,
        r.Scanner.End.Offset == buffer.len(),
        tokens_fit(buffer@, r.Scanner.Tokens@),
        r.Scanner.Tokens@.map_values(|t: BasicToken| token_place(t)) == lex(buffer@, 0).0,
        r.Scanner.Error == lex(buffer@, 0).1,
        r@.tok == placeholder_token(),
        r@.prev_end == (Position { Offset: 0 }),
        !r@.pending,
        r@.stack.len() == 0,
        r@.errors.len() == 0,
{
    Parser {
        Scanner: NewBufferScanner(buffer),
        Token: Token::Placeholder(),
        PrevEnd: Position { Offset: 0 },
        CompleteSemicolon: false,
        QuoteStack: Vec::new(),
        SyntaxErrors: Vec::new(),
    }
}

fn Classify(bt: &BasicToken) -> (r: TokenKind)
    ensures
        r == classify(*bt),
{
    match bt.Kind {
        BasicTokenKind::Ident => match KeywordLookup(&bt.Literal) {
            Some(k) => k,
            None => TokenKind::Ident,
        },
        BasicTokenKind::Operator | BasicTokenKind::Delimiter => match KeywordLookup(&bt.Literal) {
            Some(k) => k,
            None => TokenKind::Operator,
        },
        BasicTokenKind::Newline => TokenKind::NEWLINE,
        BasicTokenKind::Int(f) => TokenKind::Int(f),
        BasicTokenKind::Float => TokenKind::Float,
        BasicTokenKind::Str => TokenKind::Str,
        BasicTokenKind::Char => TokenKind::Char,
        BasicTokenKind::Comment => TokenKind::Invalid,
    }
}

impl Parser {
    /// Start of the lookahead token.
    pub fn GetPos(&self) -> (r: Position)
        ensures
            r == self.Token.Pos,
    {
        self.Token.Pos
    }

    /// Advances the lookahead by one token.
    pub fn Scan(&mut self) -> (r: Result<(), ParserError>)
        requires
            old(self).wf(),
        ensures
            final(self).wf(),
            final(self).source() == old(self).source(),
            match scan_step(old(self).source(), old(self)@) {
                Ok(m) => r is Ok && final(self)@ == m,
                Err(e) => r == Err::<(), ParserError>(e) && *final(self) == *old(self),
            },
            r is Ok ==> old(self).leads_to(final(self)),
            r is Ok ==> final(self).Token.Kind != TokenKind::EOF || final(self).Scanner.Index
                == final(self).Scanner.Tokens.len(),
            r is Ok && old(self).Token.Kind != TokenKind::EOF ==> final(self).measure() < old(
                self,
            ).measure(),
    {
        proof {
            lemma_next_visible(self.Scanner.Tokens@, self.Scanner.Index as int);
        }
        let n = self.Scanner.Tokens.len();
        let mut j = self.Scanner.Index;
        while j < n && matches!(self.Scanner.Tokens[j].Kind, BasicTokenKind::Comment)
            invariant
                n == self.Scanner.Tokens.len(),
                old(self).Scanner.Index <= j <= n,
                *self == *old(self),
                next_visible(self.Scanner.Tokens@, self.Scanner.Index as int) == next_visible(
                    self.Scanner.Tokens@,
                    j as int,
                ),
            decreases n - j,
        {
            j = j + 1;
        }
        if j >= n {
            if let Some(e) = self.Scanner.Error {
                return Err(ParserError::ScannerError(e));
            }
            self.PrevEnd = self.Token.End;
            self.Token = Token {
                Pos: self.Scanner.End,
                End: self.Scanner.End,
                Kind: TokenKind::EOF,
                Literal: Vec::new(),
            };
            self.Scanner.Index = n;
            self.CompleteSemicolon = false;
            proof {
                assert(self.Token@.text =~= Seq::<char>::empty());
            }
            return Ok(());
        }
        let bt = &self.Scanner.Tokens[j];
        if matches!(bt.Kind, BasicTokenKind::Newline) && self.CompleteSemicolon {
            let tok = Token { Pos: bt.Pos, End: bt.End, Kind: TokenKind::SEMICOLON, Literal: vec![';'] };
            proof {
                assert(tok.Literal@ =~= seq![';']);
            }
            self.PrevEnd = self.Token.End;
            self.Token = tok;
            self.Scanner.Index = j + 1;
            self.CompleteSemicolon = false;
            return Ok(());
        }
        let kind = Classify(bt);
        let tok = Token { Pos: bt.Pos, End: bt.End, Kind: kind, Literal: CopyChars(&bt.Literal) };
        self.CompleteSemicolon = matches!(
            kind,
            TokenKind::Ident | TokenKind::RPAREN | TokenKind::RBRACE | TokenKind::RETURN
        );
        match kind {
            TokenKind::LPAREN => self.QuoteStack.push(TokenKind::RPAREN),
            TokenKind::LBRACE => self.QuoteStack.push(TokenKind::RBRACE),
            TokenKind::LBRACK => self.QuoteStack.push(TokenKind::RBRACK),
            _ => {},
        }
        self.PrevEnd = self.Token.End;
        self.Token = tok;
        self.Scanner.Index = j + 1;
        Ok(())
    }

    /// Logs a diagnostic.
    pub fn Report(&mut self, e: SyntaxError)
        ensures
            final(self)@ == (ParserModel { errors: old(self)@.errors.push(e), ..old(self)@ }),
            final(self).Scanner == old(self).Scanner,
            final(self).Token == old(self).Token,
    {
        self.SyntaxErrors.push(e);
    }
}

impl Parser {
    /// Logs `e`, then skips tokens up to the closer that the innermost open
    /// bracket expects (compared by kind tag), leaving it as the lookahead and
    /// dropping it, with any bracket opened while skipping, from the tracker.
    /// Skipping stops early at the end of input. With no open bracket only the
    /// diagnostic is logged.
    pub fn ReportAndRecover(&mut self, e: SyntaxError) -> (r: Result<(), ParserError>)
        requires
            old(self).wf(),
        ensures
            old(self).leads_to(final(self)),
            final(self).SyntaxErrors@ == old(self).SyntaxErrors@.push(e),
            r is Err ==> old(self).Scanner.Error is Some,
            old(self).QuoteStack.len() == 0 ==> r is Ok && final(self)@ == (ParserModel {
                errors: old(self)@.errors.push(e),
                ..old(self)@
            }),
            old(self).QuoteStack.len() > 0 ==> match skip_to(
                old(self).source(),
                ParserModel { errors: old(self)@.errors.push(e), ..old(self)@ },
                old(self).QuoteStack@.last(),
            ) {
                Ok(m) => r is Ok && final(self)@ == if same_tag(
                    m.tok.kind,
                    old(self).QuoteStack@.last(),
                ) {
                    ParserModel { stack: old(self)@.stack.drop_last(), ..m }
                } else {
                    m
                },
                Err(err) => r == Err::<(), ParserError>(err),
            },
    {
        self.SyntaxErrors.push(e);
        let k = self.QuoteStack.len();
        if k == 0 {
            return Ok(());
        }
        let target = self.QuoteStack[k - 1];
        let ghost m0 = self@;
        proof {
            lemma_skip_failure(self.source(), m0, target);
        }
        while !TagMatches(&self.Token.Kind, &target) && !matches!(self.Token.Kind, TokenKind::EOF)
            invariant
                self.wf(),
                m0 == (ParserModel { errors: old(self)@.errors.push(e), ..old(self)@ }),
                skip_to(self.source(), self@, target) == skip_to(old(self).source(), m0, target),
                skip_to(old(self).source(), m0, target) is Err ==> old(self).Scanner.Error is Some,
                old(self).leads_to(self),
                self.SyntaxErrors@ == old(self).SyntaxErrors@.push(e),
                0 < k == old(self).QuoteStack.len(),
                k <= self.QuoteStack.len(),
                self.QuoteStack@.subrange(0, k as int) == old(self).QuoteStack@,
                target == old(self).QuoteStack@.last(),
            decreases self.measure(),
        {
            let ghost before = self.QuoteStack@;
            self.Scan()?;
            assert(self.QuoteStack@.subrange(0, k as int) =~= before.subrange(0, k as int));
        }
        let ghost found = self@;
        assert(skip_to(self.source(), self@, target) == Ok::<ParserModel, ParserError>(found));
        if TagMatches(&self.Token.Kind, &target) {
            while self.QuoteStack.len() > k - 1
                invariant
                    self.wf(),
                    self@ == (ParserModel { stack: self@.stack, ..found }),
                    old(self).leads_to(self),
                    self.SyntaxErrors@ == old(self).SyntaxErrors@.push(e),
                    same_tag(self.Token.Kind, target),
                    0 < k == old(self).QuoteStack.len(),
                    k - 1 <= self.QuoteStack.len(),
                    self.QuoteStack@.subrange(0, k - 1) == old(self).QuoteStack@.drop_last(),
                decreases self.QuoteStack.len(),
            {
                let ghost before = self.QuoteStack@;
                self.QuoteStack.pop();
                assert(self.QuoteStack@.subrange(0, k - 1) =~= before.subrange(0, k - 1));
            }
            assert(self.QuoteStack@ =~= self.QuoteStack@.subrange(0, k - 1));
        }
        Ok(())
    }

    /// Consumes the lookahead. It is handed back when its kind has the tag of
    /// `term`; otherwise a diagnostic is logged and a placeholder is handed back.
    pub fn MatchTerm(&mut self, term: TokenKind) -> (r: Result<Token, ParserError>)
        requires
            old(self).wf(),
        ensures
            old(self).leads_to(final(self)),
            match scan_step(old(self).source(), old(self)@) {
                Err(e) => r == Err::<Token, ParserError>(e) && *final(self) == *old(self),
                Ok(m) => r is Ok && if same_tag(old(self).Token.Kind, term) {
                    r->Ok_0@ == old(self).Token@ && final(self)@ == m
                } else {
                    r->Ok_0@ == placeholder_token() && final(self)@ == (ParserModel {
                        errors: m.errors.push(unexpected(term, old(self).Token@)),
                        ..m
                    })
                },
            },
            r is Ok && old(self).Token.Kind != TokenKind::EOF ==> final(self).measure() < old(
                self,
            ).measure(),
    {
        let token = self.Token.Duplicate();
        self.Scan()?;
        if TagMatches(&token.Kind, &term) {
            Ok(token)
        } else {
            self.Report(
                SyntaxError::UnexpectedNode(
                    UnexpectedNodeError { Want: term, Have: token.Kind, Pos: token.Pos },
                ),
            );
            Ok(Token::Placeholder())
        }
    }

    /// The range from `start`, an earlier state of this pass, to now.
    fn Span(&self, begin: Position, i0: usize, eof0: bool, Ghost(start): Ghost<&Parser>) -> (r:
        PosRange)
        requires
            start.leads_to(self),
            start.wf(),
            begin == start.Token.Pos,
            i0 == start.Scanner.Index,
            eof0 == (start.Token.Kind == TokenKind::EOF),
        ensures
            r == start.span(self),
    {
        if self.Scanner.Index > i0 || (!eof0 && matches!(self.Token.Kind, TokenKind::EOF)) {
            PosRange { Begin: begin, End: self.PrevEnd }
        } else {
            PosRange { Begin: begin, End: begin }
        }
    }

    /// An identifier. On any other lookahead a diagnostic is logged, recovery
    /// runs, and a placeholder identifier is handed back.
    pub fn ExpectIdent(&mut self) -> (r: Result<Ident, ParserError>)
        requires
            old(self).wf(),
        ensures
            old(self).leads_to(final(self)),
            r is Ok ==> r->Ok_0.Pos == old(self).span(final(self)),
            old(self).Token.Kind == TokenKind::Ident ==> match scan_step(
                old(self).source(),
                old(self)@,
            ) {
                Err(e) => r == Err::<Ident, ParserError>(e),
                Ok(m) => r is Ok && r->Ok_0.Token@ == old(self).Token@ && final(self)@ == m,
            },
            r is Ok && final(self).measure() == old(self).measure() ==> final(self).SyntaxErrors.len()
                > old(self).SyntaxErrors.len(),
            r is Ok && old(self).Token.Kind == TokenKind::Ident ==> final(self).measure() < old(
                self,
            ).measure(),
            old(self).Token.Kind != TokenKind::Ident && old(self).QuoteStack.len() == 0 ==> r is Ok
                && final(self)@ == (ParserModel {
                errors: old(self)@.errors.push(unexpected(TokenKind::Ident, old(self).Token@)),
                ..old(self)@
            }),
            old(self).Token.Kind != TokenKind::Ident ==> {
                &&& final(self).SyntaxErrors@ == old(self).SyntaxErrors@.push(
                    unexpected(TokenKind::Ident, old(self).Token@),
                )
                &&& r is Ok ==> r->Ok_0.Token@ == placeholder_token()
            },
    {
        let begin = self.GetPos();
        let i0 = self.Scanner.Index;
        let eof0 = matches!(self.Token.Kind, TokenKind::EOF);
        let ghost start = *self;
        if matches!(self.Token.Kind, TokenKind::Ident) {
            let token = self.Token.Duplicate();
            self.Scan()?;
            Ok(Ident { Pos: self.Span(begin, i0, eof0, Ghost(&start)), Token: token })
        } else {
            self.ReportAndRecover(
                SyntaxError::UnexpectedNode(
                    UnexpectedNodeError {
                        Want: TokenKind::Ident,
                        Have: self.Token.Kind,
                        Pos: self.Token.Pos,
                    },
                ),
            )?;
            Ok(Ident { Pos: self.Span(begin, i0, eof0, Ghost(&start)), Token: Token::Placeholder() })
        }
    }
}

impl Parser {
    /// A field: an identifier, then a type.
    pub fn ExpectField(&mut self) -> (r: Result<Field, ParserError>)
        requires
            old(self).wf(),
        ensures
            old(self).leads_to(final(self)),
            r is Ok ==> r->Ok_0.Pos == old(self).span(final(self)),
            r is Ok && final(self).measure() == old(self).measure() ==> final(self).SyntaxErrors.len()
                > old(self).SyntaxErrors.len(),
            r is Ok && old(self).Token.Kind == TokenKind::Ident ==> final(self).measure() < old(
                self,
            ).measure(),
            field_ahead(old(self).source(), old(self)@) matches Some((a, t, m)) ==> {
                &&& r is Ok
                &&& r->Ok_0.Name.Token@ == a
                &&& type_has_shape(r->Ok_0.Type, t)
                &&& final(self)@ == m
            },
        decreases old(self).measure(), 3nat,
    {
        let begin = self.GetPos();
        let i0 = self.Scanner.Index;
        let eof0 = matches!(self.Token.Kind, TokenKind::EOF);
        let ghost start = *self;
        let name = self.ExpectIdent()?;
        let typ = self.ExpectType()?;
        Ok(Field { Name: name, Type: typ, Pos: self.Span(begin, i0, eof0, Ghost(&start)) })
    }

    /// Fields separated by `delimiter` up to `term`, which stays the
    /// lookahead; a delimiter right before `term` is allowed. A field whose
    /// parse consumes nothing ends the list and is not kept.
    pub fn ExpectFieldList(&mut self, delimiter: TokenKind, term: TokenKind) -> (r: Result<
        FieldList,
        ParserError,
    >)
        requires
            old(self).wf(),
        ensures
            old(self).leads_to(final(self)),
            r is Ok ==> r->Ok_0.Pos == old(self).span(final(self)),
            r is Ok && r->Ok_0.FieldList.len() > 0 ==> final(self).measure() < old(self).measure(),
            r is Ok ==> same_tag(final(self).Token.Kind, term) || final(self).SyntaxErrors.len()
                > old(self).SyntaxErrors.len(),
            fields_ahead(old(self).source(), old(self)@, delimiter, term) matches Some(
                (names, m),
            ) ==> {
                &&& r is Ok
                &&& fields_have_shape(r->Ok_0.FieldList@, names)
                &&& final(self)@ == m
            },
        decreases old(self).measure(), 4nat,
    {
        let begin = self.GetPos();
        let i0 = self.Scanner.Index;
        let eof0 = matches!(self.Token.Kind, TokenKind::EOF);
        let ghost start = *self;
        let mut list: Vec<Field> = Vec::new();
        let ghost ahead = fields_ahead(start.source(), start@, delimiter, term);
        let ghost names = ahead->Some_0.0;
        let ghost m_end = ahead->Some_0.1;
        proof {
            if ahead is Some {
                assert(names.subrange(0, 0) =~= Seq::<(TokenModel, TypeShape)>::empty());
                assert(names.subrange(0, names.len() as int) =~= names);
            }
        }
        loop
            invariant_except_break
                ahead is Some ==> {
                    &&& list.len() < names.len()
                    &&& fields_have_shape(list@, names.subrange(0, list.len() as int))
                    &&& fields_ahead(self.source(), self@, delimiter, term) == Some(
                        (names.subrange(list.len() as int, names.len() as int), m_end),
                    )
                },
            invariant
                self.wf(),
                start.wf(),
                start == *old(self),
                start.leads_to(self),
                list.len() > 0 ==> self.measure() < start.measure(),
                ahead == fields_ahead(start.source(), start@, delimiter, term),
                names == ahead->Some_0.0,
                m_end == ahead->Some_0.1,
            ensures
                self.wf(),
                start.leads_to(self),
                list.len() > 0 ==> self.measure() < start.measure(),
                same_tag(self.Token.Kind, term) || self.SyntaxErrors.len()
                    > start.SyntaxErrors.len(),
                ahead is Some ==> fields_have_shape(list@, names) && self@ == m_end,
            decreases self.measure(),
        {
            let ia = self.Scanner.Index;
            let ea = matches!(self.Token.Kind, TokenKind::EOF);
            let ghost before = *self;
            let ghost k = list.len() as int;
            let field = self.ExpectField()?;
            proof {
                if before.Token.Kind == TokenKind::Ident {
                    assert(self.measure() < before.measure());
                    assert(self.Scanner.Index > ia || (!ea && self.Token.Kind == TokenKind::EOF));
                }
            }
            if !(self.Scanner.Index > ia || (!ea && matches!(self.Token.Kind, TokenKind::EOF))) {
                break;
            }
            let ghost listed = list@;
            list.push(field);
            proof {
                if ahead is Some {
                    let rest = names.subrange(k, names.len() as int);
                    assert(rest[0] == names[k]);
                    assert(list@ == listed.push(field));
                    assert forall|i: int| 0 <= i < k + 1 implies (#[trigger] list@[i]).Name.Token@
                        == names.subrange(0, k + 1)[i].0 && type_has_shape(
                        list@[i].Type,
                        names.subrange(0, k + 1)[i].1,
                    ) by {
                        if i < k {
                            assert(list@[i] == listed[i]);
                            assert(names.subrange(0, k)[i] == names.subrange(0, k + 1)[i]);
                        }
                    }
                }
            }
            if TagMatches(&self.Token.Kind, &delimiter) {
                let ghost m3 = self@;
                self.Scan()?;
                if TagMatches(&self.Token.Kind, &term) {
                    proof {
                        if ahead is Some {
                            assert(names.subrange(0, k + 1) =~= names);
                        }
                    }
                    break;
                }
                proof {
                    if ahead is Some {
                        let rest = names.subrange(k, names.len() as int);
                        assert(rest.subrange(1, rest.len() as int) =~= names.subrange(
                            k + 1,
                            names.len() as int,
                        ));
                    }
                }
            } else if TagMatches(&self.Token.Kind, &term) {
                proof {
                    if ahead is Some {
                        assert(names.subrange(0, k + 1) =~= names);
                    }
                }
                break;
            }
        }
        Ok(FieldList { FieldList: list, Pos: self.Span(begin, i0, eof0, Ghost(&start)) })
    }

    /// A type, chosen by the lookahead: `struct` or `trait`. Any other
    /// lookahead logs a diagnostic, runs recovery and gives `Absent`.
    pub fn ExpectType(&mut self) -> (r: Result<Type, ParserError>)
        requires
            old(self).wf(),
        ensures
            old(self).leads_to(final(self)),
            r is Ok ==> match r->Ok_0 {
                Type::StructType(st) => old(self).Token.Kind == TokenKind::STRUCT && st.Pos
                    == old(self).span(final(self)),
                Type::TraitType(tt) => old(self).Token.Kind == TokenKind::TRAIT && tt.Pos
                    == old(self).span(final(self)),
                Type::Absent => old(self).Token.Kind != TokenKind::STRUCT && old(self).Token.Kind
                    != TokenKind::TRAIT,
            },
            old(self).Token.Kind != TokenKind::STRUCT && old(self).Token.Kind != TokenKind::TRAIT
                ==> final(self).SyntaxErrors@ == old(self).SyntaxErrors@.push(
                unexpected(TokenKind::STRUCT, old(self).Token@),
            ),
            type_ahead(old(self).source(), old(self)@) matches Some((shape, m)) ==> {
                &&& r is Ok
                &&& type_has_shape(r->Ok_0, shape)
                &&& final(self)@ == m
            },
            struct_name_ahead(old(self).source(), old(self)@) matches Some(name) ==> (r is Ok
                ==> (r->Ok_0 matches Type::StructType(st) && st.Name.Token@ == name)),
        decreases old(self).measure(), 2nat,
    {
        match self.Token.Kind {
            TokenKind::STRUCT => Ok(Type::StructType(Box::new(self.ExpectStructType()?))),
            TokenKind::TRAIT => Ok(Type::TraitType(Box::new(self.ExpectTraitType()?))),
            _ => {
                self.ReportAndRecover(
                    SyntaxError::UnexpectedNode(
                        UnexpectedNodeError {
                            Want: TokenKind::STRUCT,
                            Have: self.Token.Kind,
                            Pos: self.Token.Pos,
                        },
                    ),
                )?;
                Ok(Type::Absent)
            },
        }
    }

    /// `struct` `{` name fields `}`, the fields separated by `;`.
    pub fn ExpectStructType(&mut self) -> (r: Result<StructType, ParserError>)
        requires
            old(self).wf(),
        ensures
            old(self).leads_to(final(self)),
            r is Ok ==> r->Ok_0.Pos == old(self).span(final(self)),
            struct_name_ahead(old(self).source(), old(self)@) matches Some(name) ==> (r is Ok
                ==> r->Ok_0.Name.Token@ == name),
            type_ahead(old(self).source(), old(self)@) matches Some(
                (TypeShape::Struct(name, fs), m),
            ) ==> {
                &&& r is Ok
                &&& r->Ok_0.Name.Token@ == name
                &&& fields_have_shape(r->Ok_0.FieldList.FieldList@, fs)
                &&& final(self)@ == m
            },
        decreases old(self).measure(), 1nat,
    {
        let begin = self.GetPos();
        let i0 = self.Scanner.Index;
        let eof0 = matches!(self.Token.Kind, TokenKind::EOF);
        let ghost start = *self;
        if eof0 {
            self.Report(
                SyntaxError::UnexpectedNode(
                    UnexpectedNodeError {
                        Want: TokenKind::STRUCT,
                        Have: self.Token.Kind,
                        Pos: self.Token.Pos,
                    },
                ),
            );
            let span = self.Span(begin, i0, eof0, Ghost(&start));
            return Ok(
                StructType {
                    Name: Ident { Pos: span, Token: Token::Placeholder() },
                    FieldList: FieldList { FieldList: Vec::new(), Pos: span },
                    Pos: span,
                },
            );
        }
        self.MatchTerm(TokenKind::STRUCT)?;
        self.MatchTerm(TokenKind::LBRACE)?;
        let name = self.ExpectIdent()?;
        proof {
            lemma_fields_end_at_term(self.source(), self@, TokenKind::SEMICOLON, TokenKind::RBRACE);
        }
        let fields = self.ExpectFieldList(TokenKind::SEMICOLON, TokenKind::RBRACE)?;
        self.MatchTerm(TokenKind::RBRACE)?;
        Ok(StructType { Name: name, FieldList: fields, Pos: self.Span(begin, i0, eof0, Ghost(&start)) })
    }

    /// `trait` name.
    pub fn ExpectTraitType(&mut self) -> (r: Result<TraitType, ParserError>)
        requires
            old(self).wf(),
        ensures
            old(self).leads_to(final(self)),
            r is Ok ==> r->Ok_0.Pos == old(self).span(final(self)),
            trait_ahead(old(self).source(), old(self)@) matches Some((name, m2)) ==> {
                &&& r is Ok
                &&& r->Ok_0.Name.Token@ == name
                &&& final(self)@ == m2
            },
    {
        let begin = self.GetPos();
        let i0 = self.Scanner.Index;
        let eof0 = matches!(self.Token.Kind, TokenKind::EOF);
        let ghost start = *self;
        self.MatchTerm(TokenKind::TRAIT)?;
        let name = self.ExpectIdent()?;
        Ok(TraitType { Name: name, Pos: self.Span(begin, i0, eof0, Ghost(&start)) })
    }
}

impl Parser {
    /// `(` parameters `)`, then a result type when `->` follows. The
    /// parameters, separated by `,`, may be empty.
    pub fn ExpectFuncType(&mut self) -> (r: Result<FuncType, ParserError>)
        requires
            old(self).wf(),
        ensures
            old(self).leads_to(final(self)),
            r is Ok ==> r->Ok_0.Pos == old(self).span(final(self)),
            r is Ok && old(self).Token.Kind != TokenKind::EOF ==> final(self).measure() < old(
                self,
            ).measure(),
            params_ahead(old(self).source(), old(self)@) matches Some((names, mp)) ==> (
            result_ahead(old(self).source(), mp) matches Some((result, m)) ==> {
                &&& r is Ok
                &&& func_type_matches(r->Ok_0, names, result)
                &&& final(self)@ == m
            }),
    {
        let begin = self.GetPos();
        let i0 = self.Scanner.Index;
        let eof0 = matches!(self.Token.Kind, TokenKind::EOF);
        let ghost start = *self;
        self.MatchTerm(TokenKind::LPAREN)?;
        proof {
            lemma_fields_end_at_term(self.source(), self@, TokenKind::COMMA, TokenKind::RPAREN);
        }
        let params = if matches!(self.Token.Kind, TokenKind::RPAREN) {
            let at = self.GetPos();
            FieldList { FieldList: Vec::new(), Pos: PosRange { Begin: at, End: at } }
        } else {
            self.ExpectFieldList(TokenKind::COMMA, TokenKind::RPAREN)?
        };
        proof {
            if params.FieldList.len() == 0 {
                assert(params.FieldList@ =~= Seq::<Field>::empty());
            }
        }
        self.MatchTerm(TokenKind::RPAREN)?;
        let result = if matches!(self.Token.Kind, TokenKind::PASS) {
            self.Scan()?;
            self.ExpectType()?
        } else {
            Type::Absent
        };
        Ok(FuncType { Params: params, Result: result, Pos: self.Span(begin, i0, eof0, Ghost(&start)) })
    }

    /// `import`, then either a path string or an alias and a path string. Any
    /// other token after `import` logs a diagnostic, runs recovery and gives
    /// an import with no alias and a placeholder path.
    pub fn ExpectImportDecl(&mut self) -> (r: Result<ImportDecl, ParserError>)
        requires
            old(self).wf(),
        ensures
            old(self).leads_to(final(self)),
            r is Ok ==> r->Ok_0.Pos == old(self).span(final(self)),
            scan_step(old(self).source(), old(self)@) matches Err(e) ==> r == Err::<
                ImportDecl,
                ParserError,
            >(e),
            old(self).Token.Kind == TokenKind::IMPORT ==> (scan_step(
                old(self).source(),
                old(self)@,
            ) matches Ok(m1) ==> (m1.tok.kind != TokenKind::Ident && m1.tok.kind != TokenKind::Str
                ==> {
                &&& final(self).SyntaxErrors@ == old(self).SyntaxErrors@.push(
                    unexpected(TokenKind::Str, m1.tok),
                )
                &&& r is Ok ==> r->Ok_0.Alias is None && r->Ok_0.Canonical@ == placeholder_token()
                &&& m1.stack.len() == 0 ==> r is Ok && final(self)@ == (ParserModel {
                    errors: m1.errors.push(unexpected(TokenKind::Str, m1.tok)),
                    ..m1
                })
            })),
            import_ahead(old(self).source(), old(self)@) matches Some((alias, path, m)) ==> {
                &&& r is Ok
                &&& r->Ok_0.Canonical@ == path
                &&& final(self)@ == m
                &&& match alias {
                    None => r->Ok_0.Alias is None,
                    Some(a) => r->Ok_0.Alias matches Some(id) && id.Token@ == a,
                }
            },
    {
        let begin = self.GetPos();
        let i0 = self.Scanner.Index;
        let eof0 = matches!(self.Token.Kind, TokenKind::EOF);
        let ghost start = *self;
        self.MatchTerm(TokenKind::IMPORT)?;
        match self.Token.Kind {
            TokenKind::Ident => {
                let alias = self.ExpectIdent()?;
                let canonical = self.MatchTerm(TokenKind::Str)?;
                Ok(
                    ImportDecl {
                        Alias: Some(alias),
                        Canonical: canonical,
                        Pos: self.Span(begin, i0, eof0, Ghost(&start)),
                    },
                )
            },
            TokenKind::Str => {
                let canonical = self.MatchTerm(TokenKind::Str)?;
                Ok(
                    ImportDecl {
                        Alias: None,
                        Canonical: canonical,
                        Pos: self.Span(begin, i0, eof0, Ghost(&start)),
                    },
                )
            },
            _ => {
                self.ReportAndRecover(
                    SyntaxError::UnexpectedNode(
                        UnexpectedNodeError {
                            Want: TokenKind::Str,
                            Have: self.Token.Kind,
                            Pos: self.Token.Pos,
                        },
                    ),
                )?;
                Ok(
                    ImportDecl {
                        Alias: None,
                        Canonical: Token::Placeholder(),
                        Pos: self.Span(begin, i0, eof0, Ghost(&start)),
                    },
                )
            },
        }
    }

    /// `func` name, then a function type.
    pub fn ExpectFuncDecl(&mut self) -> (r: Result<FuncDecl, ParserError>)
        requires
            old(self).wf(),
        ensures
            old(self).leads_to(final(self)),
            r is Ok ==> r->Ok_0.Pos == old(self).span(final(self)),
            scan_step(old(self).source(), old(self)@) matches Err(e) ==> r == Err::<
                FuncDecl,
                ParserError,
            >(e),
            func_name_ahead(old(self).source(), old(self)@) matches Some((name, m)) ==> {
                &&& r is Ok ==> r->Ok_0.Name.Token@ == name
                &&& r is Ok && m.tok.kind != TokenKind::EOF ==> r->Ok_0.Type.Pos == (PosRange {
                    Begin: m.tok.pos,
                    End: final(self).PrevEnd,
                })
                &&& params_ahead(old(self).source(), m) matches Some((names, mp)) ==> (
                result_ahead(old(self).source(), mp) matches Some((result, me)) ==> {
                    &&& r is Ok
                    &&& func_type_matches(r->Ok_0.Type, names, result)
                    &&& final(self)@ == me
                })
            },
    {
        let begin = self.GetPos();
        let i0 = self.Scanner.Index;
        let eof0 = matches!(self.Token.Kind, TokenKind::EOF);
        let ghost start = *self;
        self.MatchTerm(TokenKind::FUNC)?;
        let name = self.ExpectIdent()?;
        let typ = self.ExpectFuncType()?;
        Ok(FuncDecl { Name: name, Type: typ, Pos: self.Span(begin, i0, eof0, Ghost(&start)) })
    }

    /// The language defines no expression form yet: this logs that the
    /// lookahead starts no expression (`Invalid` standing for any expression),
    /// consumes nothing and gives `Empty`.
    pub fn ExpectExpr(&mut self) -> (r: Result<Expr, ParserError>)
        ensures
            r == Ok::<Expr, ParserError>(Expr::Empty),
            final(self)@ == (ParserModel {
                errors: old(self)@.errors.push(unexpected(TokenKind::Invalid, old(self).Token@)),
                ..old(self)@
            }),
            final(self).Scanner == old(self).Scanner,
            final(self).Token == old(self).Token,
    {
        self.Report(
            SyntaxError::UnexpectedNode(
                UnexpectedNodeError {
                    Want: TokenKind::Invalid,
                    Have: self.Token.Kind,
                    Pos: self.Token.Pos,
                },
            ),
        );
        Ok(Expr::Empty)
    }

    /// A statement: for now a bare expression.
    pub fn ExpectStmt(&mut self) -> (r: Result<Stmt, ParserError>)
        ensures
            r == Ok::<Stmt, ParserError>(Stmt::Expr(Expr::Empty)),
            final(self)@ == (ParserModel {
                errors: old(self)@.errors.push(unexpected(TokenKind::Invalid, old(self).Token@)),
                ..old(self)@
            }),
            final(self).Scanner == old(self).Scanner,
            final(self).Token == old(self).Token,
    {
        let expr = self.ExpectExpr()?;
        Ok(Stmt::Expr(expr))
    }

    /// Statements separated by `;` up to `}`, which stays the lookahead. A
    /// statement whose parse consumes nothing ends the block and is not kept.
    ///
    /// As no statement form consumes a token yet, the block is empty and one
    /// diagnostic is logged at the lookahead.
    pub fn ExpectStmtBlock(&mut self) -> (r: Result<StmtBlock, ParserError>)
        requires
            old(self).wf(),
        ensures
            old(self).leads_to(final(self)),
            r is Ok,
            r is Ok ==> r->Ok_0.Pos == old(self).span(final(self)),
            r is Ok ==> r->Ok_0.StmtList.len() == 0,
            final(self)@ == (ParserModel {
                errors: old(self)@.errors.push(unexpected(TokenKind::Invalid, old(self).Token@)),
                ..old(self)@
            }),
    {
        let begin = self.GetPos();
        let i0 = self.Scanner.Index;
        let eof0 = matches!(self.Token.Kind, TokenKind::EOF);
        let ghost start = *self;
        let mut list: Vec<Stmt> = Vec::new();
        loop
            invariant_except_break
                *self == start,
                list.len() == 0,
            invariant
                self.wf(),
                start.wf(),
                start == *old(self),
            ensures
                start.leads_to(self),
                list.len() == 0,
                self@ == (ParserModel {
                    errors: start@.errors.push(unexpected(TokenKind::Invalid, start.Token@)),
                    ..start@
                }),
            decreases self.measure(),
        {
            let ia = self.Scanner.Index;
            let ea = matches!(self.Token.Kind, TokenKind::EOF);
            let stmt = self.ExpectStmt()?;
            if !(self.Scanner.Index > ia || (!ea && matches!(self.Token.Kind, TokenKind::EOF))) {
                break;
            }
            list.push(stmt);
            if matches!(self.Token.Kind, TokenKind::SEMICOLON) {
                self.Scan()?;
                if matches!(self.Token.Kind, TokenKind::RBRACE) {
                    break;
                }
            } else if matches!(self.Token.Kind, TokenKind::RBRACE) {
                break;
            }
        }
        Ok(StmtBlock { StmtList: list, Expr: Expr::Empty, Pos: self.Span(begin, i0, eof0, Ghost(&start)) })
    }
}

/// Keyword resolution: when the next basic token is an identifier, operator
/// or delimiter run, the adapter yields the keyword kind of its spelling if
/// the spelling is reserved, whatever its shape, and otherwise the kind of its
/// shape: identifier for an identifier run, operator for the others. The
/// token keeps the run's text.
pub proof fn lemma_keyword_resolution(src: Source, m: ParserModel)
    requires
        0 <= m.index <= src.toks.len(),
        next_visible(src.toks, m.index) < src.toks.len(),
        ({
            let bt = src.toks[next_visible(src.toks, m.index)];
            bt.Kind == BasicTokenKind::Ident || bt.Kind == BasicTokenKind::Operator || bt.Kind
                == BasicTokenKind::Delimiter
        }),
    ensures
        ({
            let bt = src.toks[next_visible(src.toks, m.index)];
            scan_step(src, m) matches Ok(m2) && m2.tok.text == bt.Literal@ && m2.tok.kind
                == match keyword_of(bt.Literal@) {
                Some(k) => k,
                None => if bt.Kind == BasicTokenKind::Ident {
                    TokenKind::Ident
                } else {
                    TokenKind::Operator
                },
            }
        }),
{
}

/// Bracket discipline: a step that yields an opening bracket pushes exactly
/// its closer onto the tracker; any other step leaves the tracker as it was.
pub proof fn lemma_bracket_push(src: Source, m: ParserModel)
    ensures
        scan_step(src, m) matches Ok(m2) ==> match closer_of(m2.tok.kind) {
            Some(c) => m2.stack == m.stack.push(c),
            None => m2.stack == m.stack,
        },
{
}

/// Terminator synthesis: after a step that yields a token, when the next
/// basic token is a line break, the following step yields a terminator at the
/// line break if that token can end a statement (an identifier, `)`, `}` or
/// `return`), and a plain line-break token there otherwise.
pub proof fn lemma_terminator_synthesis(src: Source, m0: ParserModel)
    requires
        0 <= m0.index <= src.toks.len(),
        scan_step(src, m0) matches Ok(m1) && {
            &&& next_visible(src.toks, m1.index) < src.toks.len()
            &&& src.toks[next_visible(src.toks, m1.index)].Kind == BasicTokenKind::Newline
        },
    ensures
        ({
            let m1 = scan_step(src, m0)->Ok_0;
            let bt = src.toks[next_visible(src.toks, m1.index)];
            scan_step(src, m1) matches Ok(m2) && m2.tok.pos == bt.Pos && m2.tok.kind == if ends_statement(
                m1.tok.kind,
            ) {
                TokenKind::SEMICOLON
            } else {
                TokenKind::NEWLINE
            }
        }),
{
    lemma_next_visible(src.toks, m0.index);
}

proof fn lemma_type_keeps_errors(src: Source, m: ParserModel)
    ensures
        type_ahead(src, m) matches Some((_, me)) ==> me.errors == m.errors,
    decreases src.toks.len() - m.index, 1nat,
{
    if m.tok.kind == TokenKind::STRUCT {
        if let Some(name) = struct_name_ahead(src, m) {
            let m2 = scan_step(src, scan_step(src, m)->Ok_0)->Ok_0;
            if let Ok(m3) = scan_step(src, m2) {
                if m.index < m3.index <= src.toks.len() {
                    lemma_fields_keep_errors(src, m3, TokenKind::SEMICOLON, TokenKind::RBRACE);
                }
            }
        }
    }
}

proof fn lemma_fields_keep_errors(src: Source, m: ParserModel, delimiter: TokenKind, term: TokenKind)
    ensures
        fields_ahead(src, m, delimiter, term) matches Some((_, me)) ==> me.errors == m.errors,
    decreases src.toks.len() - m.index, 3nat,
{
    if m.tok.kind == TokenKind::Ident {
        if let Ok(m1) = scan_step(src, m) {
            if m.index < m1.index <= src.toks.len() {
                lemma_type_keeps_errors(src, m1);
            }
        }
    }
    if let Some((a, t, m3)) = field_ahead(src, m) {
        if same_tag(m3.tok.kind, delimiter) {
            if let Ok(m4) = scan_step(src, m3) {
                if !same_tag(m4.tok.kind, term) && m.index < m4.index <= src.toks.len() {
                    lemma_fields_keep_errors(src, m4, delimiter, term);
                }
            }
        }
    }
}

/// A well-formed function declaration reports nothing: when `func`, a name,
/// a parameter list of fields with its brackets balanced, and an optional
/// `->` result type lie ahead, the state that `ExpectFuncDecl`
/// ends in carries the diagnostics log unchanged, so no diagnostic is logged
/// and no recovery runs.
pub proof fn lemma_well_formed_func_decl_reports_nothing(src: Source, m: ParserModel)
    requires
        func_name_ahead(src, m) matches Some((_, m1)) && params_ahead(src, m1) matches Some(
            (_, mp),
        ) && result_ahead(src, mp) is Some,
    ensures
        ({
            let m1 = func_name_ahead(src, m)->Some_0.1;
            let mp = params_ahead(src, m1)->Some_0.1;
            result_ahead(src, mp)->Some_0.1.errors == m.errors
        }),
{
    let m1 = func_name_ahead(src, m)->Some_0.1;
    let n1 = scan_step(src, m1)->Ok_0;
    lemma_fields_keep_errors(src, n1, TokenKind::COMMA, TokenKind::RPAREN);
    let mp = params_ahead(src, m1)->Some_0.1;
    if mp.tok.kind == TokenKind::PASS {
        lemma_type_keeps_errors(src, scan_step(src, mp)->Ok_0);
    }
}

} // verus!
