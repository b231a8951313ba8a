//! The syntax tree the analysis reads: identifiers, specifiers, declarators,
//! expressions and statements, each kind kept in an arena and referred to by
//! index, plus the constant values the parser produces.

use vstd::prelude::*;

pub mod fold;

verus! {

/// Index of an interned identifier.
pub type StringId = usize;

/// Index of a string literal in the literal table.
pub type StringConstId = usize;

/// Index of an expression in the expression arena.
pub type ExpressionId = usize;

/// Index of a declarator in the declarator arena.
pub type DeclaratorId = usize;

/// Index of a statement in the statement arena.
pub type StatementId = usize;

/// Index of a struct or union specifier.
pub type StructSpecId = usize;

/// Index of an enum specifier.
pub type EnumId = usize;

/// Index of an enumerator.
pub type VariantNodeId = usize;

#[derive(Clone, Copy, Debug, PartialEq, Eq, Structural)]
pub struct Position {
    pub line: usize,
    pub col: usize,
}

#[derive(Clone, Copy, Debug, PartialEq, Eq, Structural)]
pub struct Span {
    pub start: Position,
    pub end: Position,
}

impl Span {
    pub fn new(start: Position, end: Position) -> (s: Self)
        ensures
            s.start == start,
            s.end == end,
    {
        Span { start, end }
    }

    /// The span that points nowhere, used for symbols the analysis invents.
    pub fn none() -> (s: Self)
        ensures
            s.start.line == 0 && s.start.col == 0 && s.end.line == 0 && s.end.col == 0,
    {
        Span { start: Position { line: 0, col: 0 }, end: Position { line: 0, col: 0 } }
    }
}

#[derive(Clone, Copy, Debug, PartialEq, Eq, Structural)]
pub struct Name {
    pub id: StringId,
    pub span: Span,
}

impl Name {
    pub fn new(id: StringId, span: Span) -> (n: Self)
        ensures
            n.id == id,
            n.span == span,
    {
        Name { id, span }
    }
}

#[derive(Clone, Copy, Debug, PartialEq, Eq, Structural)]
pub enum Storage {
    Typedef,
    Extern,
    Static,
    Auto,
    Register,
}

#[derive(Clone, Copy, Debug, PartialEq, Eq, Structural)]
pub enum Tag {
    Struct,
    Union,
    Enum,
}

#[derive(Clone, Copy, Debug, PartialEq, Eq, Structural)]
pub enum Qualifier {
    Const,
    Volatile,
}

/// 6.5.2 A type specifier.
#[derive(Clone, Copy, Debug, PartialEq, Eq, Structural)]
pub enum TypeSpecifier {
    Void,
    Char,
    Short,
    Int,
    Long,
    Float,
    Double,
    Signed,
    Unsigned,
    Struct(StructSpecId),
    Union(StructSpecId),
    Enum(EnumId),
    TypedefName(Name),
}

/// 6.5 A declaration specifier: a storage class, a type qualifier or a type specifier.
#[derive(Clone, Copy, Debug, PartialEq, Eq, Structural)]
pub enum DeclarationSpecifier {
    Storage(Storage),
    Qualifier(Qualifier),
    Type(TypeSpecifier),
}

/// An expression and where it stands in the source.
#[derive(Clone, Copy, Debug, PartialEq, Eq, Structural)]
pub struct ExpressionNode {
    pub id: ExpressionId,
    pub span: Span,
}

/// A constant as written, with its value.
#[derive(Clone, Copy, Debug, PartialEq, Eq, Structural)]
pub struct ConstantNode {
    pub value: Value,
    pub span: Span,
}

/// Index of a type name (`sizeof (T)`, casts) in its arena.
pub type TypeNameId = usize;

/// 6.3 An expression; its operands are nodes of the same arena, stored before it.
#[derive(Clone, Debug)]
pub enum Expression {
    Identifier(Name),
    Constant(ConstantNode),
    StringLiteral(StringConstId),
    ConstantExpression(ExpressionNode),
    ArraySubscripting(ExpressionNode, ExpressionNode),
    FunctionCall(ExpressionNode, Vec<ExpressionNode>),
    Member(MemberOp, ExpressionNode, Name),
    Unary(UnaryOp, ExpressionNode),
    SizeofExpr(ExpressionNode),
    SizeofType(TypeNameId),
    Binary(BinaryOp, ExpressionNode, ExpressionNode),
    Ternary(ExpressionNode, ExpressionNode, ExpressionNode),
    Assign(Option<BinaryOp>, ExpressionNode, ExpressionNode),
    Cast(TypeNameId, ExpressionNode),
    List(Vec<ExpressionNode>),
}

/// A type name: specifiers and an abstract declarator.
/// The controlling part of a selection statement (6.6.4): the condition of
/// an `if` or the controlling expression of a `switch`.
#[derive(Clone, Copy, Debug)]
pub enum SelectionStatement {
    If(ExpressionNode),
    Switch(ExpressionNode),
}

#[derive(Clone, Copy, Debug)]
pub struct SelectionStatementNode {
    pub stmt: SelectionStatement,
    pub span: Span,
}

/// The controlling expressions of an iteration statement (6.6.5): those of
/// `while` and `do`, and the three optional ones of `for`.
#[derive(Clone, Copy, Debug)]
pub enum IterationStatement {
    While(ExpressionNode),
    Do(ExpressionNode),
    For(Option<ExpressionNode>, Option<ExpressionNode>, Option<ExpressionNode>),
}

#[derive(Clone, Copy, Debug)]
pub struct IterationStatementNode {
    pub stmt: IterationStatement,
    pub span: Span,
}

/// A jump statement (6.6.6).
#[derive(Clone, Copy, Debug)]
pub enum JumpStatement {
    Goto(Name),
    Continue,
    Break,
    Return(Option<ExpressionNode>),
}

#[derive(Clone, Copy, Debug)]
pub struct JumpStatementNode {
    pub stmt: JumpStatement,
    pub span: Span,
}

/// A string literal: the number of characters it holds, without the
/// terminating null, and whether it is wide (`L"..."`).
#[derive(Clone, Copy, Debug)]
pub struct StringLiteral {
    pub len: usize,
    pub is_wide: bool,
}

#[derive(Clone, Debug)]
pub struct TypeName {
    pub specifiers: Vec<DeclarationSpecifier>,
    pub declarator: DeclaratorNode,
}

/// A declarator and where it stands in the source.
#[derive(Clone, Copy, Debug, PartialEq, Eq, Structural)]
pub struct DeclaratorNode {
    pub id: DeclaratorId,
    pub span: Span,
}

/// 6.5.4 A declarator; the declarator it wraps is stored before it.
#[derive(Clone, Debug)]
pub enum Declarator {
    Ident(Name),
    Abstract,
    Pointer { qualifiers: Vec<Qualifier>, inner: DeclaratorNode },
    Array { declarator: DeclaratorNode, size: Option<ExpressionNode> },
    Function { declarator: DeclaratorNode, params: FunctionParameters },
}

/// 6.5.4.3 The parameters a function declarator lists.
#[derive(Clone, Debug)]
pub enum FunctionParameters {
    Empty,
    OldStyle(Vec<Name>),
    ParameterTypeList(Vec<ParameterDeclaration>),
    Variadic(Vec<ParameterDeclaration>),
}

#[derive(Clone, Debug)]
pub struct ParameterDeclaration {
    pub specifiers: Vec<DeclarationSpecifier>,
    pub declarator: DeclaratorNode,
    pub span: Span,
}

/// Index of a declaration in its arena.
pub type DeclarationId = usize;

/// 6.5 A declaration: specifiers and the declarators they apply to.
#[derive(Clone, Debug)]
pub struct DeclarationNode {
    pub specifiers: Vec<DeclarationSpecifier>,
    pub init_declarators: Vec<InitDeclaratorNode>,
    pub span: Span,
}

/// A function definition (6.7.1): its specifiers, its declarator and the
/// declarations of an identifier list; the body is resolved apart.
#[derive(Clone, Debug)]
pub struct FunctionDefinitionNode {
    pub specifiers: Vec<DeclarationSpecifier>,
    pub declarator: DeclaratorNode,
    pub old_style_declarations: Vec<DeclarationNode>,
    pub span: Span,
}

/// A declaration at file scope: a function definition or a declaration.
pub enum ExternalDeclaration {
    FunctionDefinition(FunctionDefinitionNode),
    Declaration(DeclarationNode),
}

#[derive(Clone, Debug)]
pub struct InitDeclaratorNode {
    pub declarator: DeclaratorNode,
    pub initializer: Option<ExpressionNode>,
}

/// 6.5.2.1 A member declaration of a struct or union.
#[derive(Clone, Debug)]
pub struct StructDeclaration {
    pub specifiers: Vec<DeclarationSpecifier>,
    pub struct_declarators: Vec<StructDeclarator>,
    pub span: Span,
}

#[derive(Clone, Copy, Debug)]
pub struct StructDeclarator {
    pub declarator: DeclaratorNode,
    pub bit_width: Option<ExpressionNode>,
}

/// A struct or union specifier; it defines the tag when it lists members.
#[derive(Clone, Debug)]
pub struct StructSpec {
    pub name: Option<Name>,
    pub fields: Vec<StructDeclaration>,
    pub span: Span,
}

/// An enum specifier; it defines the tag when it lists enumerators.
#[derive(Clone, Debug)]
pub struct EnumSpec {
    pub name: Option<Name>,
    pub variants: Vec<VariantNodeId>,
    pub span: Span,
}

/// An enumerator, with the constant expression that sets its value if any.
#[derive(Clone, Copy, Debug)]
pub struct VariantNode {
    pub name: Name,
    pub value: Option<ExpressionNode>,
    pub span: Span,
}

/// The arenas of a translation unit's syntax tree.
pub struct Ast {
    pub expressions: Vec<Expression>,
    pub strings: Vec<StringLiteral>,
    pub declarators: Vec<Declarator>,
    pub type_names: Vec<TypeName>,
    pub structs: Vec<StructSpec>,
    pub enums: Vec<EnumSpec>,
    pub variants: Vec<VariantNode>,
}

impl Expression {
    /// Every operand is stored before `bound` in the expression arena.
    pub open spec fn children_below(&self, bound: int) -> bool {
        match self {
            Expression::ConstantExpression(e) | Expression::Unary(_, e) | Expression::SizeofExpr(e)
            | Expression::Cast(_, e) | Expression::Member(_, e, _) => e.id < bound,
            Expression::ArraySubscripting(a, b) | Expression::Binary(_, a, b) | Expression::Assign(_, a, b) => a.id
                < bound && b.id < bound,
            Expression::Ternary(a, b, c) => a.id < bound && b.id < bound && c.id < bound,
            Expression::FunctionCall(f, args) => f.id < bound && forall|i: int|
                0 <= i < args@.len() ==> #[trigger] args@[i].id < bound,
            Expression::List(es) => forall|i: int| 0 <= i < es@.len() ==> #[trigger] es@[i].id < bound,
            _ => true,
        }
    }
}

impl Declarator {
    /// The wrapped declarator is stored before `bound` in the declarator arena.
    pub open spec fn inner_below(&self, bound: int) -> bool {
        match self {
            Declarator::Pointer { inner, .. } => inner.id < bound,
            Declarator::Array { declarator, .. } | Declarator::Function { declarator, .. } => declarator.id < bound,
            _ => true,
        }
    }
}

impl Ast {
    /// Operands and wrapped declarators come before the nodes that hold them.
    pub open spec fn wf(&self) -> bool {
        &&& forall|i: int| 0 <= i < self.expressions@.len() ==> (#[trigger] self.expressions@[i]).children_below(i)
        &&& forall|i: int| 0 <= i < self.declarators@.len() ==> (#[trigger] self.declarators@[i]).inner_below(i)
    }

    pub open spec fn expr(&self, id: ExpressionId) -> Expression {
        self.expressions@[id as int]
    }

    pub open spec fn declarator(&self, id: DeclaratorId) -> Declarator {
        self.declarators@[id as int]
    }
}

#[derive(Clone, Copy, Debug, PartialEq, Eq, Structural)]
pub enum UnaryOp {
    PostInc,
    PostDec,
    PreInc,
    PreDec,
    Addr,
    Deref,
    Plus,
    Minus,
    BitNot,
    LogicalNot,
}

#[derive(Clone, Copy, Debug, PartialEq, Eq, Structural)]
pub enum BinaryOp {
    Mul,
    Div,
    Mod,
    Add,
    Sub,
    Left,
    Right,
    Lower,
    Greater,
    LowerEq,
    GreaterEq,
    Eq,
    Neq,
    BitAnd,
    BitXor,
    BitOr,
    LogicalAnd,
    LogicalOr,
}

#[derive(Clone, Copy, Debug, PartialEq, Eq, Structural)]
pub enum MemberOp {
    Dot,
    Arrow,
}

/// A constant as the parser produced it. Floating constants are carried as
/// their IEEE bit patterns (`LongDouble` as the x87 extended format in the
/// low 80 bits); the analysis folds integer constants only.
#[derive(Clone, Copy, Debug, PartialEq, Eq, Structural)]
pub enum Value {
    Int(i32),
    UnsignedInt(u32),
    Long(i64),
    UnsignedLong(u64),
    Float(u32),
    Double(u64),
    LongDouble(u128),
}

impl Value {
    pub open spec fn spec_is_integer(self) -> bool {
        match self {
            Value::Int(_) | Value::UnsignedInt(_) | Value::Long(_) | Value::UnsignedLong(_) => true,
            _ => false,
        }
    }

    /// The mathematical value of an integer constant.
    pub open spec fn spec_int(self) -> int {
        match self {
            Value::Int(v) => v as int,
            Value::UnsignedInt(v) => v as int,
            Value::Long(v) => v as int,
            Value::UnsignedLong(v) => v as int,
            _ => 0,
        }
    }

    /// The two's complement representation of an integer constant, widened to 64 bits.
    pub open spec fn spec_bits(self) -> u64 {
        match self {
            Value::Int(v) => v as u64,
            Value::UnsignedInt(v) => v as u64,
            Value::Long(v) => v as u64,
            Value::UnsignedLong(v) => v,
            _ => 0,
        }
    }

    /// The representation of an integer constant read as a signed 64-bit integer.
    pub open spec fn spec_i64(self) -> i64 {
        match self {
            Value::Int(v) => v as i64,
            Value::UnsignedInt(v) => v as i64,
            Value::Long(v) => v,
            Value::UnsignedLong(v) => v as i64,
            _ => 0,
        }
    }

    pub open spec fn spec_is_zero(self) -> bool {
        match self {
            Value::Float(b) => b & 0x7fff_ffffu32 == 0,
            Value::Double(b) => b & 0x7fff_ffff_ffff_ffffu64 == 0,
            Value::LongDouble(b) => b & 0x7fff_ffff_ffff_ffff_ffffu128 == 0,
            _ => self.spec_int() == 0,
        }
    }

    pub open spec fn spec_is_negative(self) -> bool {
        match self {
            Value::Float(b) => b >= 0x8000_0000u32,
            Value::Double(b) => b >= 0x8000_0000_0000_0000u64,
            Value::LongDouble(b) => b & 0xffff_ffff_ffff_ffff_ffffu128 >= 0x8000_0000_0000_0000_0000u128,
            _ => self.spec_int() < 0,
        }
    }

    pub fn is_integer(&self) -> (b: bool)
        ensures
            b == self.spec_is_integer(),
    {
        match self {
            Value::Int(_) | Value::UnsignedInt(_) | Value::Long(_) | Value::UnsignedLong(_) => true,
            _ => false,
        }
    }

    pub fn is_floating(&self) -> (b: bool)
        ensures
            b == !self.spec_is_integer(),
    {
        !self.is_integer()
    }

    /// The representation of an integer constant as 64 bits, `None` for a floating one.
    pub fn get_integer_value(&self) -> (r: Option<u64>)
        ensures
            r == (if self.spec_is_integer() { Some(self.spec_bits()) } else { None::<u64> }),
    {
        match *self {
            Value::Int(v) => Some(v as u64),
            Value::UnsignedInt(v) => Some(v as u64),
            Value::Long(v) => Some(v as u64),
            Value::UnsignedLong(v) => Some(v),
            _ => None,
        }
    }

    pub fn to_i64(&self) -> (r: i64)
        requires
            self.spec_is_integer(),
        ensures
            r == self.spec_i64(),
    {
        match *self {
            Value::Int(v) => v as i64,
            Value::UnsignedInt(v) => v as i64,
            Value::Long(v) => v,
            Value::UnsignedLong(v) => v as i64,
            _ => 0,
        }
    }

    pub fn to_u64(&self) -> (r: u64)
        requires
            self.spec_is_integer(),
        ensures
            r == self.spec_bits(),
    {
        match *self {
            Value::Int(v) => v as u64,
            Value::UnsignedInt(v) => v as u64,
            Value::Long(v) => v as u64,
            Value::UnsignedLong(v) => v,
            _ => 0,
        }
    }

    pub fn is_zero(&self) -> (b: bool)
        ensures
            b == self.spec_is_zero(),
    {
        match *self {
            Value::Int(v) => v == 0,
            Value::UnsignedInt(v) => v == 0,
            Value::Long(v) => v == 0,
            Value::UnsignedLong(v) => v == 0,
            Value::Float(b) => b & 0x7fff_ffffu32 == 0,
            Value::Double(b) => b & 0x7fff_ffff_ffff_ffffu64 == 0,
            Value::LongDouble(b) => b & 0x7fff_ffff_ffff_ffff_ffffu128 == 0,
        }
    }

    pub fn is_negative(&self) -> (b: bool)
        ensures
            b == self.spec_is_negative(),
    {
        match *self {
            Value::Int(v) => v < 0,
            Value::UnsignedInt(_) => false,
            Value::Long(v) => v < 0,
            Value::UnsignedLong(_) => false,
            Value::Float(b) => b >= 0x8000_0000u32,
            Value::Double(b) => b >= 0x8000_0000_0000_0000u64,
            Value::LongDouble(b) => b & 0xffff_ffff_ffff_ffff_ffffu128 >= 0x8000_0000_0000_0000_0000u128,
        }
    }

    /// 6.3.13 A value is true when it compares unequal to 0.
    pub fn is_true(&self) -> (b: bool)
        ensures
            b == !self.spec_is_zero(),
    {
        !self.is_zero()
    }

    pub fn from_bool(b: bool) -> (v: Value)
        ensures
            v == (if b { Value::Int(1) } else { Value::Int(0) }),
    {
        if b { Value::Int(1) } else { Value::Int(0) }
    }

    /// 6.3.3.3 `!v` is 1 when `v` compares equal to 0, 0 otherwise; the result has type int.
    pub fn logical_not(&self) -> (v: Value)
        ensures
            v == (if self.spec_is_zero() { Value::Int(1) } else { Value::Int(0) }),
    {
        Value::from_bool(self.is_zero())
    }

    /// The value of an integer constant, exactly.
    pub fn to_i128(&self) -> (r: i128)
        requires
            self.spec_is_integer(),
        ensures
            r == self.spec_int(),
    {
        match *self {
            Value::Int(v) => v as i128,
            Value::UnsignedInt(v) => v as i128,
            Value::Long(v) => v as i128,
            Value::UnsignedLong(v) => v as i128,
            _ => 0,
        }
    }

    /// Whether an integer constant is at least `n`.
    pub fn is_greater_or_eq(&self, n: u32) -> (b: bool)
        requires
            self.spec_is_integer(),
        ensures
            b == (self.spec_int() >= n),
    {
        match *self {
            Value::Int(v) => v as i64 >= n as i64,
            Value::UnsignedInt(v) => v >= n,
            Value::Long(v) => v >= n as i64,
            Value::UnsignedLong(v) => v >= n as u64,
            _ => false,
        }
    }
}

} // verus!
