use langvm::ast::{SyntaxError, Type};
use langvm::parser::{NewParser, Parser, ParserError};
use langvm::scanner::BasicScannerError;
use langvm::token::{IntFormat, Position, Token, TokenKind};

fn parser_for(src: &str) -> Parser {
    let mut p = NewParser(src.chars().collect());
    assert!(p.Scan().is_ok());
    p
}

fn text(t: &Token) -> String {
    t.Literal.iter().collect()
}

fn kinds(src: &str) -> Vec<TokenKind> {
    let mut p = parser_for(src);
    let mut out = vec![];
    while p.Token.Kind != TokenKind::EOF {
        out.push(p.Token.Kind);
        assert!(p.Scan().is_ok());
    }
    out
}

#[test]
fn keyword_or_shape_kind() {
    assert_eq!(
        kinds("struct foo -> + ( / trait func import return bar"),
        vec![
            TokenKind::STRUCT,
            TokenKind::Ident,
            TokenKind::PASS,
            TokenKind::Operator,
            TokenKind::LPAREN,
            TokenKind::QUO,
            TokenKind::TRAIT,
            TokenKind::FUNC,
            TokenKind::IMPORT,
            TokenKind::RETURN,
            TokenKind::Ident,
        ]
    );
}

#[test]
fn literal_kinds() {
    assert_eq!(
        kinds("0x1F 12 3.5 'c' \"s\""),
        vec![
            TokenKind::Int(IntFormat::Hex),
            TokenKind::Int(IntFormat::Decimal),
            TokenKind::Float,
            TokenKind::Char,
            TokenKind::Str,
        ]
    );
}

#[test]
fn opening_brackets_push_closers() {
    let mut p = parser_for("( [ { ) x");
    for _ in 0..4 {
        assert!(p.Scan().is_ok());
    }
    assert_eq!(p.QuoteStack, vec![TokenKind::RPAREN, TokenKind::RBRACK, TokenKind::RBRACE]);
}

#[test]
fn balanced_input_reports_nothing() {
    let mut p = parser_for("func f ( a trait T , b struct { S x trait X ; y trait Y } ) -> trait R");
    let d = p.ExpectFuncDecl().ok().unwrap();
    assert!(p.SyntaxErrors.is_empty());
    assert_eq!(d.Type.Params.FieldList.len(), 2);
    assert_eq!(p.Token.Kind, TokenKind::EOF);
}

#[test]
fn field_list_with_and_without_trailing_delimiter() {
    for src in ["a trait T , b trait U , )", "a trait T , b trait U )"] {
        let mut p = parser_for(src);
        let l = p.ExpectFieldList(TokenKind::COMMA, TokenKind::RPAREN).ok().unwrap();
        assert_eq!(l.FieldList.len(), 2);
        assert_eq!(text(&l.FieldList[0].Name.Token), "a");
        assert_eq!(text(&l.FieldList[1].Name.Token), "b");
        assert_eq!(p.Token.Kind, TokenKind::RPAREN);
        assert!(p.SyntaxErrors.is_empty());
    }
}

#[test]
fn import_without_alias() {
    let mut p = parser_for("import \"pkg\"");
    let d = p.ExpectImportDecl().ok().unwrap();
    assert!(d.Alias.is_none());
    assert_eq!(text(&d.Canonical), "\"pkg\"");
    assert_eq!(d.Canonical.Kind, TokenKind::Str);
    assert!(p.SyntaxErrors.is_empty());
}

#[test]
fn import_with_alias() {
    let mut p = parser_for("import io \"pkg\"");
    let d = p.ExpectImportDecl().ok().unwrap();
    assert_eq!(text(&d.Alias.as_ref().unwrap().Token), "io");
    assert_eq!(text(&d.Canonical), "\"pkg\"");
    assert!(p.SyntaxErrors.is_empty());
}

#[test]
fn import_of_a_number_is_reported() {
    let mut p = parser_for("import 12");
    let d = p.ExpectImportDecl().ok().unwrap();
    assert!(d.Alias.is_none());
    assert_eq!(d.Canonical.Kind, TokenKind::Invalid);
    assert_eq!(p.SyntaxErrors.len(), 1);
    let SyntaxError::UnexpectedNode(e) = p.SyntaxErrors[0];
    assert_eq!(e.Want, TokenKind::Str);
    assert_eq!(e.Have, TokenKind::Int(IntFormat::Decimal));
    assert_eq!(e.Pos, Position { Offset: 7 });
}

#[test]
fn func_without_params() {
    let mut p = parser_for("func noop ( )");
    let d = p.ExpectFuncDecl().ok().unwrap();
    assert_eq!(text(&d.Name.Token), "noop");
    assert!(d.Type.Params.FieldList.is_empty());
    assert!(matches!(d.Type.Result, Type::Absent));
    assert!(p.SyntaxErrors.is_empty());
}

#[test]
fn func_with_trait_params_and_result() {
    let mut p = parser_for("func add ( a trait Num , b trait Num ) -> trait Num");
    let d = p.ExpectFuncDecl().ok().unwrap();
    assert_eq!(text(&d.Name.Token), "add");
    let params = &d.Type.Params.FieldList;
    assert_eq!(params.len(), 2);
    for (f, name) in params.iter().zip(["a", "b"]) {
        assert_eq!(text(&f.Name.Token), name);
        match &f.Type {
            Type::TraitType(t) => assert_eq!(text(&t.Name.Token), "Num"),
            _ => panic!("parameter type is not a trait"),
        }
    }
    match &d.Type.Result {
        Type::TraitType(t) => assert_eq!(text(&t.Name.Token), "Num"),
        _ => panic!("result type is not a trait"),
    }
    assert!(p.SyntaxErrors.is_empty());
}

#[test]
fn line_break_after_statement_end_becomes_terminator() {
    for src in ["a\n", ")\n", "}\n", "return\n"] {
        let mut p = parser_for(src);
        assert!(p.Scan().is_ok());
        assert_eq!(p.Token.Kind, TokenKind::SEMICOLON, "after {:?}", src);
        assert_eq!(p.Token.Pos, Position { Offset: src.len() - 1 });
    }
}

#[test]
fn line_break_after_other_tokens_stays() {
    for src in ["+\n", "(\n", ",\n", "12\n", "struct\n"] {
        let mut p = parser_for(src);
        assert!(p.Scan().is_ok());
        assert_eq!(p.Token.Kind, TokenKind::NEWLINE, "after {:?}", src);
    }
}

#[test]
fn comments_are_skipped() {
    assert_eq!(
        kinds("a // note\nb"),
        vec![TokenKind::Ident, TokenKind::SEMICOLON, TokenKind::Ident]
    );
}

#[test]
fn ranges_cover_consumed_tokens() {
    let mut p = parser_for("func noop ( )");
    let d = p.ExpectFuncDecl().ok().unwrap();
    assert_eq!(d.Pos.Begin, Position { Offset: 0 });
    assert_eq!(d.Pos.End, Position { Offset: 13 });
    assert_eq!(d.Name.Pos.Begin, Position { Offset: 5 });
    assert_eq!(d.Name.Pos.End, Position { Offset: 9 });
    assert_eq!(d.Type.Pos.Begin, Position { Offset: 10 });
    assert_eq!(d.Type.Pos.End, Position { Offset: 13 });
}

#[test]
fn field_range() {
    let mut p = parser_for("ab trait Cd ,");
    let f = p.ExpectField().ok().unwrap();
    assert_eq!(f.Pos.Begin, Position { Offset: 0 });
    assert_eq!(f.Pos.End, Position { Offset: 11 });
    match &f.Type {
        Type::TraitType(t) => {
            assert_eq!(t.Pos.Begin, Position { Offset: 3 });
            assert_eq!(t.Pos.End, Position { Offset: 11 });
        }
        _ => panic!("field type is not a trait"),
    }
}

#[test]
fn struct_type_with_fields() {
    let mut p = parser_for("struct { S a trait T ; b trait U }");
    let s = p.ExpectStructType().ok().unwrap();
    assert_eq!(text(&s.Name.Token), "S");
    assert_eq!(s.FieldList.FieldList.len(), 2);
    assert_eq!(s.Pos.End, Position { Offset: 34 });
    assert!(p.SyntaxErrors.is_empty());
    assert_eq!(p.Token.Kind, TokenKind::EOF);
}

#[test]
fn unterminated_string_is_lexical_error() {
    let mut p = parser_for("import \"pkg");
    match p.ExpectImportDecl() {
        Err(ParserError::ScannerError(e)) => {
            assert_eq!(e, BasicScannerError::UnterminatedString(Position { Offset: 7 }))
        }
        _ => panic!("expected a lexical error"),
    }
}

#[test]
fn unterminated_char_is_lexical_error() {
    let mut p = NewParser("'x".chars().collect());
    assert!(matches!(
        p.Scan(),
        Err(ParserError::ScannerError(BasicScannerError::UnterminatedChar(Position { Offset: 0 })))
    ));
}

#[test]
fn recovery_skips_to_enclosing_closer() {
    let mut p = parser_for("( 1 2 ) x");
    assert!(p.Scan().is_ok());
    let id = p.ExpectIdent().ok().unwrap();
    assert_eq!(id.Token.Kind, TokenKind::Invalid);
    assert_eq!(p.Token.Kind, TokenKind::RPAREN);
    assert!(p.QuoteStack.is_empty());
    assert_eq!(p.SyntaxErrors.len(), 1);
}

#[test]
fn recovery_without_open_bracket_only_reports() {
    let mut p = parser_for("1 x");
    let id = p.ExpectIdent().ok().unwrap();
    assert_eq!(id.Token.Kind, TokenKind::Invalid);
    assert_eq!(p.Token.Kind, TokenKind::Int(IntFormat::Decimal));
    assert_eq!(p.SyntaxErrors.len(), 1);
}

#[test]
fn unknown_type_form_is_absent() {
    let mut p = parser_for("x");
    let t = p.ExpectType().ok().unwrap();
    assert!(matches!(t, Type::Absent));
    let SyntaxError::UnexpectedNode(e) = p.SyntaxErrors[0];
    assert_eq!(e.Want, TokenKind::STRUCT);
    assert_eq!(e.Have, TokenKind::Ident);
}

#[test]
fn match_term_mismatch_gives_placeholder() {
    let mut p = parser_for("x y");
    let t = p.MatchTerm(TokenKind::LPAREN).ok().unwrap();
    assert_eq!(t.Kind, TokenKind::Invalid);
    assert_eq!(p.SyntaxErrors.len(), 1);
    assert_eq!(text(&p.Token), "y");
    let t = p.MatchTerm(TokenKind::Ident).ok().unwrap();
    assert_eq!(text(&t), "y");
    assert_eq!(p.SyntaxErrors.len(), 1);
}

#[test]
fn end_of_input_repeats() {
    let mut p = parser_for("a");
    assert!(p.Scan().is_ok());
    assert_eq!(p.Token.Kind, TokenKind::EOF);
    assert!(p.Scan().is_ok());
    assert_eq!(p.Token.Kind, TokenKind::EOF);
    assert_eq!(p.Token.Pos, Position { Offset: 1 });
}

#[test]
fn empty_input_gives_end_token() {
    let p = parser_for("");
    assert_eq!(p.Token.Kind, TokenKind::EOF);
    assert_eq!(p.GetPos(), Position { Offset: 0 });
}

#[test]
fn statement_block_is_empty_with_diagnostic() {
    let mut p = parser_for("}");
    let b = p.ExpectStmtBlock().ok().unwrap();
    assert!(b.StmtList.is_empty());
    assert_eq!(p.SyntaxErrors.len(), 1);
    assert_eq!(p.Token.Kind, TokenKind::RBRACE);
}

#[test]
fn func_type_with_empty_params() {
    let mut p = parser_for("( ) x");
    let t = p.ExpectFuncType().ok().unwrap();
    assert!(t.Params.FieldList.is_empty());
    assert!(matches!(t.Result, Type::Absent));
    assert_eq!(t.Pos.Begin, Position { Offset: 0 });
    assert_eq!(t.Pos.End, Position { Offset: 3 });
    assert_eq!(text(&p.Token), "x");
    assert!(p.SyntaxErrors.is_empty());
}

#[test]
fn func_type_with_struct_param_and_result() {
    let mut p = parser_for("( s struct { P x trait X } ) -> trait R");
    let t = p.ExpectFuncType().ok().unwrap();
    assert_eq!(t.Params.FieldList.len(), 1);
    match &t.Params.FieldList[0].Type {
        Type::StructType(st) => {
            assert_eq!(text(&st.Name.Token), "P");
            assert_eq!(st.FieldList.FieldList.len(), 1);
        }
        _ => panic!("parameter type is not a struct"),
    }
    match &t.Result {
        Type::TraitType(r) => assert_eq!(text(&r.Name.Token), "R"),
        _ => panic!("result type is not a trait"),
    }
    assert!(p.SyntaxErrors.is_empty());
}

#[test]
fn recovery_drops_brackets_opened_while_skipping() {
    let mut p = parser_for("( 1 [ 2 ) x");
    assert!(p.Scan().is_ok());
    let _ = p.ExpectIdent().ok().unwrap();
    assert_eq!(p.Token.Kind, TokenKind::RPAREN);
    assert!(p.QuoteStack.is_empty());
}

#[test]
fn recovery_stops_at_end_of_input() {
    let mut p = parser_for("( 1 2");
    assert!(p.Scan().is_ok());
    let _ = p.ExpectIdent().ok().unwrap();
    assert_eq!(p.Token.Kind, TokenKind::EOF);
    assert_eq!(p.SyntaxErrors.len(), 1);
}

#[test]
fn recovery_at_closer_discards_nothing() {
    let mut p = parser_for("( ) x");
    assert!(p.Scan().is_ok());
    let before = p.Token.Pos;
    let _ = p.ExpectIdent().ok().unwrap();
    assert_eq!(p.Token.Kind, TokenKind::RPAREN);
    assert_eq!(p.Token.Pos, before);
    assert!(p.QuoteStack.is_empty());
    assert_eq!(p.SyntaxErrors.len(), 1);
}

#[test]
fn field_list_with_struct_typed_field() {
    let mut p = parser_for("a struct { S x trait X } , b trait T )");
    let l = p.ExpectFieldList(TokenKind::COMMA, TokenKind::RPAREN).ok().unwrap();
    assert_eq!(l.FieldList.len(), 2);
    assert!(matches!(l.FieldList[0].Type, Type::StructType(_)));
    assert!(matches!(l.FieldList[1].Type, Type::TraitType(_)));
    assert_eq!(p.Token.Kind, TokenKind::RPAREN);
    assert!(p.SyntaxErrors.is_empty());
}
