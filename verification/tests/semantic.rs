use cc1::ast::{DeclarationNode, FunctionDefinitionNode, FunctionParameters, InitDeclaratorNode, JumpStatement,
    JumpStatementNode, MemberOp, ParameterDeclaration, SelectionStatement, SelectionStatementNode, StringLiteral, TypeName};
use cc1::semantic::resolution::statement::{check_iteration_statement, check_return, check_selection_statement};
use cc1::ast::{ExternalDeclaration, IterationStatement, IterationStatementNode};
use cc1::semantic::analyzer::Analyzer;
use cc1::semantic::resolution::expression::dispatch::is_null_pointer_constant;
use cc1::semantic::resolution::uses::mark_uses;
use cc1::ast::fold::Fold;
use cc1::ast::{
    Ast, BinaryOp, ConstantNode, DeclarationSpecifier, Declarator, DeclaratorNode, EnumSpec, Expression,
    ExpressionNode, Name, Position, Qualifier, Span, Storage, StructDeclaration, StructDeclarator, StructSpec, Tag,
    TypeSpecifier, UnaryOp, Value, VariantNode,
};
use cc1::context::Context;
use cc1::semantic::constrain::declaration::{basic_type, check_qualifier};
use cc1::semantic::diagnosis::{Diagnosis, DiagnosisNode};
use cc1::semantic::layout::{of, struct_layout, union_layout, MemberLayout};
use cc1::semantic::model::resolved_expression::{ExpressionKind, ResolvedExpression};
use cc1::semantic::model::resolved_type::{Builtins, QualifiedType, ResolvedType, ResolvedTypeArena};
use cc1::semantic::model::symbol::{Linkage, Symbol, SymbolKind};
use cc1::semantic::model::cast::usual_arithmetic;
use cc1::semantic::model::function_def::{DeclaredParams, ParamTypes};
use cc1::semantic::resolution::declaration::{base_type, declare_symbol, declared_type, enum_tag, struct_or_union_tag};
use cc1::semantic::model::symbol::Definition;
use cc1::semantic::resolution::expression::dispatch::NESTING_BUDGET;
use cc1::semantic::resolution::resolver::{CurrentFunction, SymbolResolver};
use cc1::semantic::resolution::scope::ScopeKind;
use cc1::semantic::sema::Sema;
use cc1::target::{Layout, Target};

fn sp(line: usize) -> Span {
    Span::new(Position { line, col: 1 }, Position { line, col: 2 })
}

fn name(id: usize) -> Name {
    Name::new(id, sp(1))
}

fn node(id: usize) -> ExpressionNode {
    ExpressionNode { id, span: sp(id + 1) }
}

fn empty_ast() -> Ast {
    Ast {
        expressions: Vec::new(),
        strings: Vec::new(),
        declarators: Vec::new(),
        type_names: Vec::new(),
        structs: Vec::new(),
        enums: Vec::new(),
        variants: Vec::new(),
    }
}

fn constant(v: Value) -> Expression {
    Expression::Constant(ConstantNode { value: v, span: sp(1) })
}

/// A resolver with a file scope and tables sized for `ast`.
fn resolver_for(ast: &Ast) -> SymbolResolver {
    let mut sema = Sema::default_sema();
    sema.size_tables(ast.expressions.len(), 0);
    let mut r = SymbolResolver::new(sema);
    r.enter_scope(ScopeKind::File);
    r
}

fn int_ty(sema: &Sema) -> QualifiedType {
    QualifiedType::plain(sema.builtins.int)
}

fn has_diag(r: &SymbolResolver, pred: fn(&Diagnosis) -> bool) -> bool {
    r.sema.diagnosis.iter().any(|d| pred(&d.inner))
}

#[test]
fn basic_type_specifier_combinations() {
    assert!(matches!(basic_type(&[]).res, Some(ResolvedType::Int)));
    assert!(matches!(basic_type(&[TypeSpecifier::Unsigned, TypeSpecifier::Long, TypeSpecifier::Int]).res, Some(ResolvedType::UnsignedLong)));
    assert!(matches!(basic_type(&[TypeSpecifier::Int, TypeSpecifier::Long, TypeSpecifier::Unsigned]).res, Some(ResolvedType::UnsignedLong)));
    assert!(matches!(basic_type(&[TypeSpecifier::Long, TypeSpecifier::Double]).res, Some(ResolvedType::LongDouble)));
    assert!(matches!(basic_type(&[TypeSpecifier::Signed, TypeSpecifier::Char]).res, Some(ResolvedType::SignedChar)));
    let bad = basic_type(&[TypeSpecifier::Short, TypeSpecifier::Long]);
    assert!(bad.res.is_none());
    assert!(matches!(bad.diagnosis, Some(Diagnosis::InvalidTypeSpecifier)));
    assert!(matches!(basic_type(&[TypeSpecifier::Int, TypeSpecifier::Int]).diagnosis, Some(Diagnosis::InvalidTypeSpecifier)));
}

#[test]
fn duplicate_qualifiers_are_reported() {
    let ok = check_qualifier(&[Qualifier::Const, Qualifier::Volatile]);
    assert_eq!(ok.res, (true, true));
    assert!(ok.diagnosis.is_none());
    let dup = check_qualifier(&[Qualifier::Const, Qualifier::Const]);
    assert_eq!(dup.res, (true, false));
    assert!(matches!(dup.diagnosis, Some(Diagnosis::DuplicateTypeQualifiers)));
}

#[test]
fn folding_integer_arithmetic() {
    let t = Target::x86_64();
    let f = Fold::new(&t);
    let sum = f.binary(&ResolvedType::Int, BinaryOp::Add, Value::Int(2), Value::Int(3));
    assert_eq!(sum.res, Value::Int(5));
    assert!(sum.diagnosis.is_none());
    let product = f.binary(&ResolvedType::Int, BinaryOp::Mul, Value::Int(-4), Value::Int(6));
    assert_eq!(product.res, Value::Int(-24));
    let shifted = f.binary(&ResolvedType::Int, BinaryOp::Left, Value::Int(1), Value::Int(4));
    assert_eq!(shifted.res, Value::Int(16));
    let neg = f.unary(&ResolvedType::Int, UnaryOp::Minus, Value::Int(7));
    assert_eq!(neg.res, Value::Int(-7));
}

#[test]
fn folding_reports_overflow_and_division_by_zero() {
    let t = Target::x86_64();
    let f = Fold::new(&t);
    let over = f.binary(&ResolvedType::Int, BinaryOp::Add, Value::Int(i32::MAX), Value::Int(1));
    assert!(matches!(over.diagnosis, Some(Diagnosis::ArithmeticOverflow)));
    let div = f.binary(&ResolvedType::Int, BinaryOp::Div, Value::Int(1), Value::Int(0));
    assert!(matches!(div.diagnosis, Some(Diagnosis::DivisionByZero)));
    let wrap = f.binary(&ResolvedType::UnsignedInt, BinaryOp::Add, Value::UnsignedInt(u32::MAX), Value::UnsignedInt(1));
    assert_eq!(wrap.res, Value::UnsignedInt(0));
    assert!(wrap.diagnosis.is_none());
}

#[test]
fn compatibility_is_reflexive_and_symmetric() {
    let mut sema = Sema::default_sema();
    let int = int_ty(&sema);
    let long = QualifiedType::plain(sema.builtins.long);
    let p1 = QualifiedType::plain(sema.pointer_type(int));
    let p2 = QualifiedType::plain(sema.pointer_type(int));
    let pl = QualifiedType::plain(sema.pointer_type(long));
    assert!(int.is_compatible(&sema, &int));
    assert!(!int.is_compatible(&sema, &long));
    assert!(!long.is_compatible(&sema, &int));
    assert!(p1.is_compatible(&sema, &p2));
    assert!(p2.is_compatible(&sema, &p1));
    assert!(!p1.is_compatible(&sema, &pl));
    let c = QualifiedType::new(sema.builtins.int, true, false);
    assert!(!c.is_compatible(&sema, &int));
    assert!(c.is_compatible_ignoring_qualifiers(&sema, &int));
}

#[test]
fn usual_arithmetic_conversions_pick_the_wider_type() {
    let mut sema = Sema::default_sema();
    let mut l = ResolvedExpression::new(int_ty(&sema), ExpressionKind::RValue);
    let mut r = ResolvedExpression::new(QualifiedType::plain(sema.builtins.long), ExpressionKind::RValue);
    let res = usual_arithmetic(&mut sema, &mut l, &mut r).ok().unwrap();
    assert_eq!(res.0.id, sema.builtins.long);
    assert_eq!(l.casted_ty().id, sema.builtins.long);
    assert_eq!(r.casted_ty().id, sema.builtins.long);
    let mut c = ResolvedExpression::new(QualifiedType::plain(sema.builtins.char), ExpressionKind::RValue);
    let mut s = ResolvedExpression::new(QualifiedType::plain(sema.builtins.short), ExpressionKind::RValue);
    let res = usual_arithmetic(&mut sema, &mut c, &mut s).ok().unwrap();
    assert_eq!(res.0.id, sema.builtins.int);
}

#[test]
fn describing_types() {
    let mut sema = Sema::default_sema();
    let names: Vec<String> = Vec::new();
    let cchar = QualifiedType::new(sema.builtins.char, true, false);
    let p = QualifiedType::plain(sema.pointer_type(cchar));
    assert_eq!(p.describe(&sema, &names), "const char *");
    let inner = QualifiedType::plain(sema.array_type(int_ty(&sema), Some(4)));
    let outer = QualifiedType::plain(sema.array_type(inner, Some(3)));
    assert_eq!(outer.describe(&sema, &names), "int[3][4]");
    let f = QualifiedType::plain(sema.function_type(
        int_ty(&sema),
        ParamTypes::Prototype { params: Vec::new(), is_variadic: false },
    ));
    assert_eq!(f.describe(&sema, &names), "int(void)");
}

#[test]
fn struct_and_union_layouts() {
    let char_l = Layout::new(1, 1);
    let int_l = Layout::new(4, 4);
    let members = vec![
        MemberLayout { layout: char_l, width: None, named: true },
        MemberLayout { layout: int_l, width: None, named: true },
    ];
    let (s, offsets) = struct_layout(&members);
    assert_eq!((s.size, s.align), (8, 4));
    assert_eq!(offsets, vec![0, 4]);
    let u = union_layout(&members);
    assert_eq!((u.size, u.align), (4, 4));
}

#[test]
fn undeclared_identifier_message() {
    let sema = Sema::default_sema();
    let ctx = Context { names: vec!["foo".to_string()], token_names: Vec::new() };
    let node = DiagnosisNode::new(Diagnosis::UndeclaredIdentifier(name(0)), sp(3));
    assert_eq!(node.message(&sema, &ctx), "Use of undeclared identifier 'foo'");
}

#[test]
fn file_scope_redeclaration() {
    let ast = empty_ast();
    let mut r = resolver_for(&ast);
    let int = int_ty(&r.sema);
    let x = Symbol::new(name(7), Some(int), None, SymbolKind::Variable, false);
    let a = r.declare(x, &sp(1));
    assert_eq!(r.lookup_ordinary(7), Some(a));
    let again = r.declare(x, &sp(2));
    assert_eq!(a, again);
    assert!(r.sema.diagnosis.is_empty());
    let long = QualifiedType::plain(r.sema.builtins.long);
    let y = Symbol::new(name(7), Some(long), None, SymbolKind::Variable, false);
    r.declare(y, &sp(3));
    assert!(has_diag(&r, |d| matches!(d, Diagnosis::DuplicateDeclaration(SymbolKind::Variable, _))));
}

#[test]
fn block_scope_shadows_file_scope() {
    let ast = empty_ast();
    let mut r = resolver_for(&ast);
    let int = int_ty(&r.sema);
    let outer = r.declare(Symbol::new(name(1), Some(int), None, SymbolKind::Variable, false), &sp(1));
    r.enter_scope(ScopeKind::Block);
    assert_eq!(r.current(1), None);
    let inner = r.declare(Symbol::new(name(1), Some(int), None, SymbolKind::Variable, false), &sp(2));
    assert_ne!(outer, inner);
    assert_eq!(r.lookup_ordinary(1), Some(inner));
    r.leave_scope();
    assert_eq!(r.lookup_ordinary(1), Some(outer));
    assert_eq!(r.scope_kind(), ScopeKind::File);
}

#[test]
fn typedef_with_repeated_qualifier() {
    let ast = empty_ast();
    let mut r = resolver_for(&ast);
    let cint = QualifiedType::new(r.sema.builtins.int, true, false);
    r.declare(Symbol::new(name(2), Some(cint), Some(Storage::Typedef), SymbolKind::Typedef, false), &sp(1));
    let q = r.resolve_typedef(name(2), false, true, &sp(2)).unwrap();
    assert!(q.is_const && q.is_volatile);
    assert!(r.sema.diagnosis.is_empty());
    r.resolve_typedef(name(2), true, false, &sp(3));
    assert!(has_diag(&r, |d| matches!(d, Diagnosis::DuplicateTypeQualifiers)));
    assert!(r.resolve_typedef(name(9), false, false, &sp(4)).is_none());
}

#[test]
fn tag_defined_twice() {
    let ast = empty_ast();
    let mut r = resolver_for(&ast);
    let t = r.declare_tag(Tag::Struct, Some(name(3)), true, &sp(1));
    r.sema.complete_tag(t, Vec::new());
    assert_eq!(r.declare_tag(Tag::Struct, Some(name(3)), false, &sp(2)), t);
    assert!(r.sema.diagnosis.is_empty());
    r.declare_tag(Tag::Struct, Some(name(3)), true, &sp(3));
    assert!(has_diag(&r, |d| matches!(d, Diagnosis::DuplicateDeclaration(SymbolKind::Struct, _))));
    r.declare_tag(Tag::Union, Some(name(3)), false, &sp(4));
    assert_eq!(r.sema.diagnosis.len(), 2);
}

#[test]
fn labels_and_gotos() {
    let ast = empty_ast();
    let mut r = resolver_for(&ast);
    let fty = QualifiedType::plain(r.sema.function_type(int_ty(&r.sema), ParamTypes::Unspecified));
    let f = r.declare(Symbol::function(name(1), fty, Storage::Extern), &sp(1));
    let def = r.sema.functions.declare(f);
    r.f = Some(CurrentFunction { def, return_ty: int_ty(&r.sema) });
    r.define_label(name(5), &sp(2));
    r.define_label(name(5), &sp(3));
    assert!(has_diag(&r, |d| matches!(d, Diagnosis::DuplicateLabel(_))));
    r.reference_label(name(5));
    r.reference_label(name(6));
    r.resolve_gotos();
    assert!(r.gotos.is_empty());
    let undefined: Vec<_> = r.sema.diagnosis.iter().filter(|d| matches!(d.inner, Diagnosis::UndefinedLabel(_))).collect();
    assert_eq!(undefined.len(), 1);
    assert!(matches!(undefined[0].inner, Diagnosis::UndefinedLabel(n) if n.id == 6));
}

#[test]
fn resolving_an_arithmetic_expression() {
    let mut ast = empty_ast();
    ast.expressions.push(constant(Value::Int(3)));
    ast.expressions.push(constant(Value::Int(4)));
    ast.expressions.push(Expression::Binary(BinaryOp::Mul, node(0), node(1)));
    ast.expressions.push(constant(Value::Long(1)));
    ast.expressions.push(Expression::Binary(BinaryOp::Add, node(2), node(3)));
    let mut r = resolver_for(&ast);
    assert_eq!(r.eval_constant(&ast, &node(2)), Some(Value::Int(12)));
    r.visit(&ast, &node(4));
    let re = r.sema.expr_types.get(4).unwrap();
    assert_eq!(re.ty.id, r.sema.builtins.long);
    assert_eq!(r.eval_constant(&ast, &node(4)), Some(Value::Long(13)));
    assert!(r.sema.diagnosis.is_empty());
}

#[test]
fn division_by_zero_in_a_constant_expression() {
    let mut ast = empty_ast();
    ast.expressions.push(constant(Value::Int(1)));
    ast.expressions.push(constant(Value::Int(0)));
    ast.expressions.push(Expression::Binary(BinaryOp::Div, node(0), node(1)));
    let mut r = resolver_for(&ast);
    assert_eq!(r.eval_constant(&ast, &node(2)), None);
    assert!(has_diag(&r, |d| matches!(d, Diagnosis::DivisionByZero)));
}

#[test]
fn undeclared_identifier_in_an_expression() {
    let mut ast = empty_ast();
    ast.expressions.push(Expression::Identifier(name(4)));
    let mut r = resolver_for(&ast);
    r.visit(&ast, &node(0));
    assert!(has_diag(&r, |d| matches!(d, Diagnosis::UndeclaredIdentifier(n) if n.id == 4)));
    assert!(r.sema.expr_types.get(0).is_none());
}

#[test]
fn implicit_function_declaration() {
    let mut ast = empty_ast();
    ast.expressions.push(Expression::Identifier(name(8)));
    ast.expressions.push(constant(Value::Int(1)));
    ast.expressions.push(Expression::FunctionCall(node(0), vec![node(1)]));
    let mut r = resolver_for(&ast);
    r.visit(&ast, &node(2));
    assert!(r.sema.diagnosis.is_empty());
    assert!(r.lookup_ordinary(8).is_some());
    assert_eq!(r.sema.expr_types.get(2).unwrap().ty.id, r.sema.builtins.int);
}

#[test]
fn enumeration_constants() {
    let mut ast = empty_ast();
    ast.expressions.push(constant(Value::Int(5)));
    ast.variants.push(VariantNode { name: name(10), value: None, span: sp(1) });
    ast.variants.push(VariantNode { name: name(11), value: Some(node(0)), span: sp(2) });
    ast.variants.push(VariantNode { name: name(12), value: None, span: sp(3) });
    ast.enums.push(EnumSpec { name: Some(name(9)), variants: vec![0, 1, 2], span: sp(1) });
    let mut r = resolver_for(&ast);
    let tag = enum_tag(&mut r, &ast, 0, NESTING_BUDGET).unwrap();
    assert!(r.sema.tags.get(tag).is_complete);
    let values: Vec<Option<i32>> = [10, 11, 12]
        .iter()
        .map(|n| r.sema.symbols.get(r.lookup_ordinary(*n).unwrap()).value)
        .collect();
    assert_eq!(values, vec![Some(0), Some(5), Some(6)]);
}

#[test]
fn structure_definition_and_layout() {
    let mut ast = empty_ast();
    ast.declarators.push(Declarator::Ident(name(21)));
    ast.declarators.push(Declarator::Ident(name(22)));
    let field = |spec: TypeSpecifier, d: usize| StructDeclaration {
        specifiers: vec![DeclarationSpecifier::Type(spec)],
        struct_declarators: vec![StructDeclarator { declarator: DeclaratorNode { id: d, span: sp(2) }, bit_width: None }],
        span: sp(2),
    };
    let fields = vec![field(TypeSpecifier::Char, 0), field(TypeSpecifier::Int, 1)];
    let mut r = resolver_for(&ast);
    let tag = struct_or_union_tag(&mut r, &ast, Tag::Struct, Some(name(20)), &fields, &sp(1), NESTING_BUDGET);
    assert!(r.sema.diagnosis.is_empty());
    assert!(r.sema.tags.get(tag).is_complete);
    assert_eq!(r.sema.tags.get(tag).members.len(), 2);
    let ty = r.sema.tag_type(tag);
    let l = of(&mut r.sema, ty).unwrap();
    assert_eq!((l.size, l.align), (8, 4));
}

#[test]
fn structure_without_named_member() {
    let ast = empty_ast();
    let fields = vec![StructDeclaration {
        specifiers: vec![DeclarationSpecifier::Type(TypeSpecifier::Int)],
        struct_declarators: Vec::new(),
        span: sp(2),
    }];
    let mut r = resolver_for(&ast);
    struct_or_union_tag(&mut r, &ast, Tag::Union, None, &fields, &sp(1), NESTING_BUDGET);
    assert!(has_diag(&r, |d| matches!(d, Diagnosis::EmptyDeclaration)));
    assert!(has_diag(&r, |d| matches!(d, Diagnosis::TagWithoutMember(SymbolKind::Union))));
}

#[test]
fn array_declarators() {
    let mut ast = empty_ast();
    ast.expressions.push(constant(Value::Int(3)));
    ast.expressions.push(constant(Value::Int(0)));
    ast.declarators.push(Declarator::Ident(name(30)));
    ast.declarators.push(Declarator::Array { declarator: DeclaratorNode { id: 0, span: sp(1) }, size: Some(node(0)) });
    ast.declarators.push(Declarator::Ident(name(31)));
    ast.declarators.push(Declarator::Array { declarator: DeclaratorNode { id: 2, span: sp(1) }, size: Some(node(1)) });
    let mut r = resolver_for(&ast);
    let int = base_type(&mut r, &ast, &[DeclarationSpecifier::Type(TypeSpecifier::Int)], &sp(1));
    let (ty, core) = declared_type(&mut r, &ast, int, &DeclaratorNode { id: 1, span: sp(1) }).unwrap();
    assert_eq!(core.id, 0);
    assert!(matches!(r.sema.types.get(ty.id), ResolvedType::Array { len: Some(3), .. }));
    assert!(r.sema.diagnosis.is_empty());
    declared_type(&mut r, &ast, int, &DeclaratorNode { id: 3, span: sp(1) });
    assert!(has_diag(&r, |d| matches!(d, Diagnosis::ZeroArraySize)));
}

#[test]
fn pointer_declarator_and_typedef_specifier() {
    let mut ast = empty_ast();
    ast.declarators.push(Declarator::Ident(name(40)));
    ast.declarators.push(Declarator::Pointer { qualifiers: vec![Qualifier::Const], inner: DeclaratorNode { id: 0, span: sp(1) } });
    let mut r = resolver_for(&ast);
    let char_spec = [DeclarationSpecifier::Type(TypeSpecifier::Char)];
    let c = base_type(&mut r, &ast, &char_spec, &sp(1));
    let (ty, _) = declared_type(&mut r, &ast, c, &DeclaratorNode { id: 1, span: sp(1) }).unwrap();
    assert!(ty.is_const);
    assert_eq!(ty.describe(&r.sema, &Vec::new()), "const char *");
}

#[test]
fn external_declarations_share_a_symbol() {
    let ast = empty_ast();
    let mut r = resolver_for(&ast);
    let int = int_ty(&r.sema);
    let mut x = Symbol::new(name(50), Some(int), Some(Storage::Extern), SymbolKind::Variable, false);
    x.linkage = Linkage::External;
    let a = r.declare(x, &sp(1));
    r.enter_scope(ScopeKind::Block);
    let b = r.declare(x, &sp(2));
    assert_eq!(a, b);
    assert!(r.sema.diagnosis.is_empty());
    let mut y = x;
    y.linkage = Linkage::Internal;
    r.declare(y, &sp(3));
    assert!(has_diag(&r, |d| matches!(d, Diagnosis::ConflictingLinkage(_))));
}

fn dnode(id: usize) -> DeclaratorNode {
    DeclaratorNode { id, span: sp(1) }
}

fn int_spec() -> Vec<DeclarationSpecifier> {
    vec![DeclarationSpecifier::Type(TypeSpecifier::Int)]
}

#[test]
fn prototype_function_definition() {
    let mut ast = empty_ast();
    ast.declarators.push(Declarator::Ident(name(60)));
    ast.declarators.push(Declarator::Ident(name(61)));
    ast.declarators.push(Declarator::Ident(name(62)));
    let param = |d: usize| ParameterDeclaration { specifiers: int_spec(), declarator: dnode(d), span: sp(2) };
    ast.declarators.push(Declarator::Function {
        declarator: dnode(0),
        params: FunctionParameters::ParameterTypeList(vec![param(1), param(2)]),
    });
    let def = FunctionDefinitionNode {
        specifiers: int_spec(),
        declarator: dnode(3),
        old_style_declarations: Vec::new(),
        span: sp(1),
    };
    let mut r = resolver_for(&ast);
    let header = cc1::semantic::resolution::function::define_function(&mut r, &ast, &def).unwrap();
    assert_eq!(header.return_ty.id, r.sema.builtins.int);
    assert!(r.lookup_ordinary(60).is_some());
    cc1::semantic::resolution::function::bind_function_parameters(&mut r, &ast, &def, &header);
    assert_eq!(r.scope_kind(), ScopeKind::Prototype);
    assert!(r.sema.functions.get(header.id).is_complete);
    assert_eq!(r.sema.functions.get(header.id).parameters.len(), 2);
    assert!(r.current(61).is_some() && r.current(62).is_some());
    assert!(r.sema.diagnosis.is_empty());
}

#[test]
fn identifier_list_function_definition() {
    let mut ast = empty_ast();
    ast.declarators.push(Declarator::Ident(name(70)));
    ast.declarators.push(Declarator::Function {
        declarator: dnode(0),
        params: FunctionParameters::OldStyle(vec![name(71), name(72)]),
    });
    ast.declarators.push(Declarator::Ident(name(71)));
    let def = FunctionDefinitionNode {
        specifiers: int_spec(),
        declarator: dnode(1),
        old_style_declarations: vec![DeclarationNode {
            specifiers: vec![DeclarationSpecifier::Type(TypeSpecifier::Long)],
            init_declarators: vec![InitDeclaratorNode { declarator: dnode(2), initializer: None }],
            span: sp(2),
        }],
        span: sp(1),
    };
    let mut r = resolver_for(&ast);
    let header = cc1::semantic::resolution::function::define_function(&mut r, &ast, &def).unwrap();
    cc1::semantic::resolution::function::bind_function_parameters(&mut r, &ast, &def, &header);
    assert!(r.sema.diagnosis.is_empty());
    let a = r.sema.symbols.get(r.current(71).unwrap()).ty.unwrap();
    let b = r.sema.symbols.get(r.current(72).unwrap()).ty.unwrap();
    assert_eq!(a.id, r.sema.builtins.long);
    assert_eq!(b.id, r.sema.builtins.int);
    assert_eq!(r.sema.functions.get(header.id).parameters.len(), 2);
}

#[test]
fn definition_needs_a_function_declarator() {
    let mut ast = empty_ast();
    ast.declarators.push(Declarator::Ident(name(80)));
    let def = FunctionDefinitionNode { specifiers: int_spec(), declarator: dnode(0), old_style_declarations: Vec::new(), span: sp(1) };
    let mut r = resolver_for(&ast);
    assert!(cc1::semantic::resolution::function::define_function(&mut r, &ast, &def).is_none());
    assert!(has_diag(&r, |d| matches!(d, Diagnosis::NotFunctionTypeDeclarator)));
}

#[test]
fn declarations_and_empty_declarations() {
    let mut ast = empty_ast();
    ast.expressions.push(constant(Value::Int(2)));
    ast.declarators.push(Declarator::Ident(name(90)));
    ast.declarators.push(Declarator::Ident(name(91)));
    ast.declarators.push(Declarator::Array { declarator: dnode(1), size: Some(node(0)) });
    let decl = DeclarationNode {
        specifiers: int_spec(),
        init_declarators: vec![
            InitDeclaratorNode { declarator: dnode(0), initializer: None },
            InitDeclaratorNode { declarator: dnode(2), initializer: None },
        ],
        span: sp(1),
    };
    let mut r = resolver_for(&ast);
    r.visit_declaration(&ast, &decl);
    assert!(r.sema.diagnosis.is_empty());
    let y = r.sema.symbols.get(r.lookup_ordinary(91).unwrap()).ty.unwrap();
    assert!(matches!(r.sema.types.get(y.id), ResolvedType::Array { len: Some(2), .. }));
    assert!(r.sema.declarations.contains_key(&2));
    let empty = DeclarationNode { specifiers: int_spec(), init_declarators: Vec::new(), span: sp(5) };
    r.visit_declaration(&ast, &empty);
    assert!(has_diag(&r, |d| matches!(d, Diagnosis::EmptyDeclaration)));
}

#[test]
fn statement_controlling_expressions() {
    let mut ast = empty_ast();
    ast.expressions.push(constant(Value::Double(1.5f64.to_bits())));
    ast.expressions.push(constant(Value::Int(1)));
    let mut r = resolver_for(&ast);
    r.visit(&ast, &node(0));
    r.visit(&ast, &node(1));
    check_selection_statement(&mut r, &SelectionStatementNode { stmt: SelectionStatement::If(node(0)), span: sp(1) });
    assert!(r.sema.diagnosis.is_empty());
    check_selection_statement(&mut r, &SelectionStatementNode { stmt: SelectionStatement::Switch(node(1)), span: sp(2) });
    assert!(r.sema.diagnosis.is_empty());
    check_selection_statement(&mut r, &SelectionStatementNode { stmt: SelectionStatement::Switch(node(0)), span: sp(3) });
    assert!(has_diag(&r, |d| matches!(d, Diagnosis::NonIntegralStatement(_))));
    let int = int_ty(&r.sema);
    check_return(&mut r, &ast, &JumpStatementNode { stmt: JumpStatement::Return(None), span: sp(4) }, int);
    assert!(has_diag(&r, |d| matches!(d, Diagnosis::ReturnWithoutValue)));
}

#[test]
fn sizeof_and_string_literals() {
    let mut ast = empty_ast();
    ast.declarators.push(Declarator::Abstract);
    ast.type_names.push(TypeName { specifiers: int_spec(), declarator: dnode(0) });
    ast.expressions.push(Expression::SizeofType(0));
    ast.strings.push(StringLiteral { len: 3, is_wide: false });
    ast.expressions.push(Expression::StringLiteral(0));
    ast.expressions.push(Expression::SizeofExpr(node(1)));
    let mut r = resolver_for(&ast);
    let v = r.eval_constant(&ast, &node(0)).unwrap();
    assert_eq!(v.get_integer_value(), Some(4));
    r.visit(&ast, &node(2));
    let s = r.sema.expr_types.get(1).unwrap();
    assert!(matches!(r.sema.types.get(s.ty.id), ResolvedType::Array { len: Some(4), .. }));
    let v = r.eval_constant(&ast, &node(2)).unwrap();
    assert_eq!(v.get_integer_value(), Some(4));
    assert!(r.sema.diagnosis.is_empty());
}

#[test]
fn member_access_and_uses() {
    let mut ast = empty_ast();
    ast.declarators.push(Declarator::Ident(name(101)));
    let fields = vec![StructDeclaration {
        specifiers: vec![DeclarationSpecifier::Type(TypeSpecifier::Long)],
        struct_declarators: vec![StructDeclarator { declarator: dnode(0), bit_width: None }],
        span: sp(1),
    }];
    ast.expressions.push(Expression::Identifier(name(100)));
    ast.expressions.push(Expression::Member(MemberOp::Dot, node(0), name(101)));
    ast.expressions.push(Expression::Identifier(name(102)));
    ast.expressions.push(Expression::SizeofExpr(node(2)));
    let mut r = resolver_for(&ast);
    let tag = struct_or_union_tag(&mut r, &ast, Tag::Struct, None, &fields, &sp(1), NESTING_BUDGET);
    let sty = QualifiedType::plain(r.sema.tag_type(tag));
    let s = r.declare(Symbol::new(name(100), Some(sty), None, SymbolKind::Variable, false), &sp(1));
    let t = r.declare(Symbol::new(name(102), Some(int_ty(&r.sema)), None, SymbolKind::Variable, false), &sp(1));
    r.visit(&ast, &node(1));
    r.visit(&ast, &node(3));
    assert!(r.sema.diagnosis.is_empty());
    let m = r.sema.expr_types.get(1).unwrap();
    assert_eq!(m.ty.id, r.sema.builtins.long);
    assert_eq!(m.kind, ExpressionKind::LValue);
    mark_uses(&mut r.sema, &ast);
    assert!(r.sema.symbols.get(s).used);
    assert!(!r.sema.symbols.get(t).used);
}

#[test]
fn both_targets() {
    let i386 = Target::i386();
    let x86_64 = Target::x86_64();
    assert_eq!((i386.long.size, i386.pointer.size), (4, 4));
    assert_eq!((x86_64.long.size, x86_64.pointer.size), (8, 8));
    assert_eq!(i386.int.size, x86_64.int.size);
}

#[test]
fn tentative_then_full_definition() {
    let ast = empty_ast();
    let mut r = resolver_for(&ast);
    let int = int_ty(&r.sema);
    let tentative = Symbol::new(name(110), Some(int), None, SymbolKind::Variable, false);
    let a = declare_symbol(&mut r, tentative, None, &sp(1));
    assert!(matches!(r.sema.symbols.get(a).definition, Definition::Tentative));
    let defined = Symbol::new(name(110), Some(int), None, SymbolKind::Variable, true);
    let b = declare_symbol(&mut r, defined, None, &sp(2));
    assert_eq!(a, b);
    assert!(matches!(r.sema.symbols.get(a).definition, Definition::Definition));
    let again = Symbol::new(name(110), Some(int), None, SymbolKind::Variable, false);
    declare_symbol(&mut r, again, None, &sp(3));
    assert!(matches!(r.sema.symbols.get(a).definition, Definition::Definition));
    assert!(r.sema.diagnosis.is_empty());
}

#[test]
fn constant_values_are_recorded_once() {
    let mut ast = empty_ast();
    ast.expressions.push(constant(Value::Int(6)));
    ast.expressions.push(constant(Value::Int(7)));
    ast.expressions.push(Expression::Binary(BinaryOp::Mul, node(0), node(1)));
    let mut r = resolver_for(&ast);
    let first = r.eval_constant(&ast, &node(2));
    let diags = r.sema.diagnosis.len();
    let second = r.eval_constant(&ast, &node(2));
    assert_eq!(first, Some(Value::Int(42)));
    assert_eq!(first, second);
    assert_eq!(r.sema.diagnosis.len(), diags);
}

#[test]
fn member_names_are_distinct() {
    let mut ast = empty_ast();
    ast.declarators.push(Declarator::Ident(name(121)));
    ast.declarators.push(Declarator::Ident(name(121)));
    let field = |spec: TypeSpecifier, d: usize| StructDeclaration {
        specifiers: vec![DeclarationSpecifier::Type(spec)],
        struct_declarators: vec![StructDeclarator { declarator: DeclaratorNode { id: d, span: sp(2) }, bit_width: None }],
        span: sp(2),
    };
    let fields = vec![field(TypeSpecifier::Int, 0), field(TypeSpecifier::Long, 1)];
    let mut r = resolver_for(&ast);
    let tag = struct_or_union_tag(&mut r, &ast, Tag::Struct, Some(name(120)), &fields, &sp(1), NESTING_BUDGET);
    assert!(has_diag(&r, |d| matches!(d, Diagnosis::DuplicateDeclaration(SymbolKind::Member, n) if n.id == 121)));
    assert_eq!(r.sema.tags.get(tag).members.len(), 1);
}

#[test]
fn iteration_controlling_expressions_and_null_constants() {
    let mut ast = empty_ast();
    ast.expressions.push(constant(Value::Int(0)));
    ast.expressions.push(constant(Value::Double(1.5f64.to_bits())));
    let mut r = resolver_for(&ast);
    r.visit(&ast, &node(0));
    r.visit(&ast, &node(1));
    let for_stmt = IterationStatementNode { stmt: IterationStatement::For(Some(node(0)), Some(node(1)), Some(node(0))), span: sp(5) };
    check_iteration_statement(&mut r, &for_stmt);
    assert!(r.sema.diagnosis.is_empty());
    let forever = IterationStatementNode { stmt: IterationStatement::For(None, None, None), span: sp(6) };
    check_iteration_statement(&mut r, &forever);
    check_iteration_statement(&mut r, &IterationStatementNode { stmt: IterationStatement::While(node(0)), span: sp(7) });
    check_iteration_statement(&mut r, &IterationStatementNode { stmt: IterationStatement::Do(node(1)), span: sp(8) });
    assert!(r.sema.diagnosis.is_empty());
    assert!(is_null_pointer_constant(&mut r, &ast, &node(0), NESTING_BUDGET));
    assert!(!is_null_pointer_constant(&mut r, &ast, &node(1), NESTING_BUDGET));
}

#[test]
fn usual_arithmetic_depends_on_the_target() {
    let mut sema = Sema::new(Target::i386());
    let mut l = ResolvedExpression::new(QualifiedType::new(sema.builtins.unsigned_int, false, false), ExpressionKind::RValue);
    let mut r = ResolvedExpression::new(QualifiedType::new(sema.builtins.long, false, false), ExpressionKind::RValue);
    usual_arithmetic(&mut sema, &mut l, &mut r).ok().unwrap();
    assert_eq!(l.casted_ty().id, sema.builtins.unsigned_long);
    assert_eq!(r.casted_ty().id, sema.builtins.unsigned_long);
    let mut sema = Sema::new(Target::x86_64());
    let mut l = ResolvedExpression::new(QualifiedType::new(sema.builtins.unsigned_int, false, false), ExpressionKind::RValue);
    let mut r = ResolvedExpression::new(QualifiedType::new(sema.builtins.long, false, false), ExpressionKind::RValue);
    usual_arithmetic(&mut sema, &mut l, &mut r).ok().unwrap();
    assert_eq!(l.casted_ty().id, sema.builtins.long);
    assert_eq!(r.casted_ty().id, sema.builtins.long);
}

#[test]
fn builtin_typedef_types_are_interned() {
    let sema = Sema::new(Target::i386());
    assert_eq!(sema.builtins.size_t, sema.builtins.unsigned_int);
    assert_eq!(sema.builtins.ptrdiff_t, sema.builtins.int);
    let sema = Sema::new(Target::x86_64());
    assert_eq!(sema.builtins.size_t, sema.builtins.unsigned_long);
    assert_eq!(sema.builtins.ptrdiff_t, sema.builtins.long);
    assert_eq!(sema.target.long.size, 8);
}

#[test]
fn analyzing_a_translation_unit() {
    let mut ast = empty_ast();
    ast.expressions.push(constant(Value::Int(2)));
    ast.expressions.push(Expression::ConstantExpression(node(0)));
    ast.declarators.push(Declarator::Ident(name(70)));
    ast.declarators.push(Declarator::Ident(name(71)));
    ast.declarators.push(Declarator::Array { declarator: dnode(1), size: Some(node(1)) });
    let decl = DeclarationNode {
        specifiers: int_spec(),
        init_declarators: vec![
            InitDeclaratorNode { declarator: dnode(0), initializer: Some(node(0)) },
            InitDeclaratorNode { declarator: dnode(2), initializer: None },
        ],
        span: sp(1),
    };
    let unit = vec![ExternalDeclaration::Declaration(decl)];
    let sema = Analyzer::analyze(Target::i386(), &ast, &unit);
    assert!(sema.diagnosis.is_empty());
    assert!(sema.scopes.is_empty());
    assert!(sema.declarations.contains_key(&0));
    assert!(sema.declarations.contains_key(&2));
    assert!(sema.expr_types.seen[0]);
    assert!(sema.expr_consts.seen[1]);
    assert_eq!(sema.expr_consts.data[1], Some(Value::Int(2)));
}

#[test]
fn member_access_binds_the_member() {
    let mut ast = empty_ast();
    ast.declarators.push(Declarator::Ident(name(131)));
    let fields = vec![StructDeclaration {
        specifiers: vec![DeclarationSpecifier::Type(TypeSpecifier::Int)],
        struct_declarators: vec![StructDeclarator { declarator: dnode(0), bit_width: None }],
        span: sp(1),
    }];
    ast.expressions.push(Expression::Identifier(name(130)));
    ast.expressions.push(Expression::Member(MemberOp::Dot, node(0), name(131)));
    let mut r = resolver_for(&ast);
    let tag = struct_or_union_tag(&mut r, &ast, Tag::Struct, None, &fields, &sp(1), NESTING_BUDGET);
    let member = r.sema.tags.get(tag).members[0].sym.unwrap();
    let sty = QualifiedType::plain(r.sema.tag_type(tag));
    r.declare(Symbol::new(name(130), Some(sty), None, SymbolKind::Variable, false), &sp(1));
    r.visit(&ast, &node(1));
    assert!(r.sema.diagnosis.is_empty());
    assert_eq!(r.sema.expr_bindings.get(1).copied(), Some(member));
}

#[test]
fn base_type_reports_invalid_specifiers_and_repeated_qualifiers() {
    let mut ast = empty_ast();
    ast.variants.push(VariantNode { name: name(140), value: None, span: sp(1) });
    ast.enums.push(EnumSpec { name: Some(name(141)), variants: vec![0], span: sp(1) });
    let mut r = resolver_for(&ast);
    let invalid = [DeclarationSpecifier::Type(TypeSpecifier::Void), DeclarationSpecifier::Type(TypeSpecifier::Int)];
    assert!(base_type(&mut r, &ast, &invalid, &sp(3)).is_none());
    assert_eq!(r.sema.diagnosis.len(), 1);
    assert!(matches!(r.sema.diagnosis[0].inner, Diagnosis::InvalidTypeSpecifier));
    let repeated = [
        DeclarationSpecifier::Qualifier(Qualifier::Const),
        DeclarationSpecifier::Qualifier(Qualifier::Const),
        DeclarationSpecifier::Type(TypeSpecifier::Enum(0)),
    ];
    let q = base_type(&mut r, &ast, &repeated, &sp(4)).unwrap();
    assert!(q.is_const && !q.is_volatile);
    assert!(matches!(r.sema.types.get(q.id), ResolvedType::Tag(_)));
    assert!(matches!(r.sema.diagnosis[1].inner, Diagnosis::DuplicateTypeQualifiers));
    assert_eq!(r.sema.diagnosis[1].span, sp(4));
}

#[test]
fn auto_function_definition_is_reported() {
    let mut ast = empty_ast();
    ast.declarators.push(Declarator::Ident(name(150)));
    ast.declarators.push(Declarator::Function { declarator: dnode(0), params: FunctionParameters::Empty });
    let mut specifiers = int_spec();
    specifiers.insert(0, DeclarationSpecifier::Storage(Storage::Auto));
    let def = FunctionDefinitionNode { specifiers, declarator: dnode(1), old_style_declarations: Vec::new(), span: sp(1) };
    let mut r = resolver_for(&ast);
    assert!(cc1::semantic::resolution::function::define_function(&mut r, &ast, &def).is_some());
    assert!(has_diag(&r, |d| matches!(d, Diagnosis::FunctionAutoExtern)));
}

#[test]
fn void_parameter_list_is_an_empty_prototype() {
    let mut ast = empty_ast();
    ast.declarators.push(Declarator::Ident(name(160)));
    ast.declarators.push(Declarator::Abstract);
    let void_param = ParameterDeclaration {
        specifiers: vec![DeclarationSpecifier::Type(TypeSpecifier::Void)],
        declarator: dnode(1),
        span: sp(2),
    };
    ast.declarators.push(Declarator::Function {
        declarator: dnode(0),
        params: FunctionParameters::ParameterTypeList(vec![void_param]),
    });
    let def = FunctionDefinitionNode { specifiers: int_spec(), declarator: dnode(2), old_style_declarations: Vec::new(), span: sp(1) };
    let mut r = resolver_for(&ast);
    let header = cc1::semantic::resolution::function::define_function(&mut r, &ast, &def).unwrap();
    assert!(matches!(&header.params, DeclaredParams::Prototype { params, is_variadic: false } if params.is_empty()));
    assert!(r.sema.diagnosis.is_empty());
}

#[test]
fn builtins_reuse_types_already_interned() {
    let mut types = ResolvedTypeArena::new();
    let long_id = types.allocate(ResolvedType::Long);
    let target = Target::x86_64();
    let b = Builtins::new(&mut types, &target);
    assert_eq!(long_id, 0);
    assert_eq!(b.long, long_id);
    assert_eq!(b.ptrdiff_t, long_id);
    assert_eq!(b.size_t, b.unsigned_long);
    assert_ne!(b.int, b.long);
}

#[test]
fn enumeration_value_out_of_int_range() {
    let mut ast = empty_ast();
    ast.expressions.push(constant(Value::Long(2147483648)));
    ast.variants.push(VariantNode { name: name(170), value: Some(node(0)), span: sp(1) });
    ast.variants.push(VariantNode { name: name(171), value: None, span: sp(2) });
    ast.enums.push(EnumSpec { name: None, variants: vec![0, 1], span: sp(1) });
    let mut r = resolver_for(&ast);
    enum_tag(&mut r, &ast, 0, NESTING_BUDGET).unwrap();
    assert!(has_diag(&r, |d| matches!(d, Diagnosis::VariantBadValue)));
    let values: Vec<Option<i32>> = [170, 171]
        .iter()
        .map(|n| r.sema.symbols.get(r.lookup_ordinary(*n).unwrap()).value)
        .collect();
    assert_eq!(values, vec![Some(0), Some(1)]);
}
