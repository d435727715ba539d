use vstd::prelude::*;
use crate::token::{PosRange, Position, Token, TokenKind, TokenModel};

verus! {

/// An identifier and the token it was read from.
pub struct Ident {
    pub Pos: PosRange,
    pub Token: Token,
}

/// A named, typed field.
pub struct Field {
    pub Name: Ident,
    pub Type: Type,
    pub Pos: PosRange,
}

/// Fields in source order.
pub struct FieldList {
    pub FieldList: Vec<Field>,
    pub Pos: PosRange,
}

/// The type forms of the language.
pub enum Type {
    Absent,
    StructType(Box<StructType>),
    TraitType(Box<TraitType>),
}

pub struct StructType {
    pub Name: Ident,
    pub FieldList: FieldList,
    pub Pos: PosRange,
}

pub struct TraitType {
    pub Name: Ident,
    pub Pos: PosRange,
}

/// Parameters and result of a function; the result is `Absent` when none is given.
pub struct FuncType {
    pub Params: FieldList,
    pub Result: Type,
    pub Pos: PosRange,
}

pub struct FuncDecl {
    pub Name: Ident,
    pub Type: FuncType,
    pub Pos: PosRange,
}

/// An import of a package path, with an optional local alias.
pub struct ImportDecl {
    pub Alias: Option<Ident>,
    pub Canonical: Token,
    pub Pos: PosRange,
}

/// Expressions; the language defines no expression form yet.
pub enum Expr {
    Empty,
}

/// Statements; the language defines no statement form yet beyond a bare expression.
pub enum Stmt {
    Expr(Expr),
}

pub struct StmtBlock {
    pub StmtList: Vec<Stmt>,
    pub Expr: Expr,
    pub Pos: PosRange,
}

/// An unexpected token: the kind wanted, the kind found, and where.
#[derive(Clone, Copy, Debug, PartialEq, Eq, Structural)]
pub struct UnexpectedNodeError {
    pub Want: TokenKind,
    pub Have: TokenKind,
    pub Pos: Position,
}

/// A syntax diagnostic.
#[derive(Clone, Copy, Debug, PartialEq, Eq, Structural)]
pub enum SyntaxError {
    UnexpectedNode(UnexpectedNodeError),
}

} // verus!

verus! {

/// The shape of a parsed type: its name token and, for a struct, its fields.
pub ghost enum TypeShape {
    Absent,
    Trait(TokenModel),
    Struct(TokenModel, Seq<(TokenModel, TypeShape)>),
}

/// A parsed type has the given shape.
pub open spec fn type_has_shape(t: Type, s: TypeShape) -> bool
    decreases t,
{
    match t {
        Type::Absent => s is Absent,
        Type::TraitType(tt) => s matches TypeShape::Trait(n) && tt.Name.Token@ == n,
        Type::StructType(st) => match s {
            TypeShape::Struct(n, fs) => st.Name.Token@ == n && st.FieldList.FieldList@.len()
                == fs.len() && forall|i: int|
                0 <= i < fs.len() ==> (#[trigger] st.FieldList.FieldList@[i]).Name.Token@ == fs[i].0
                    && type_has_shape(st.FieldList.FieldList@[i].Type, fs[i].1),
            _ => false,
        },
    }
}

} // verus!
