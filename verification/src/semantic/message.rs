//! The text of each diagnostic.

use vstd::prelude::*;

use crate::ast::{UnaryOp, Value};
use crate::context::Context;
use crate::semantic::diagnosis::{Diagnosis, DiagnosisNode, ExpectedTokens, SwitchLabel, END_OF_FILE};
use crate::semantic::model::display::{decimal_text, describe_text, kind_text, name_of, name_text};
use crate::semantic::sema::Sema;

verus! {

/// The keyword of a `case` or `default` label.
pub open spec fn label_text(s: SwitchLabel) -> Seq<char> {
    match s {
        SwitchLabel::Case => "case"@,
        SwitchLabel::Default => "default"@,
    }
}

fn label_of(s: &SwitchLabel) -> (t: &'static str)
    ensures
        t@ == label_text(*s),
{
    match s {
        SwitchLabel::Case => "case",
        SwitchLabel::Default => "default",
    }
}

/// How a token kind reads: the end of input by name, others by the
/// parser's name for them.
pub open spec fn token_text(ctx: &Context, t: usize) -> Seq<char> {
    if t == END_OF_FILE {
        "end of file"@
    } else {
        name_text(ctx.token_names@, t)
    }
}

fn token_of(ctx: &Context, t: usize) -> (s: String)
    ensures
        s@ == token_text(ctx, t),
{
    if t == END_OF_FILE {
        String::from_str("end of file")
    } else {
        name_of(&ctx.token_names, t)
    }
}

/// Token kinds separated by commas.
pub open spec fn comma_text(ctx: &Context, ts: Seq<usize>) -> Seq<char>
    decreases ts.len(),
{
    if ts.len() == 0 {
        Seq::empty()
    } else if ts.len() == 1 {
        token_text(ctx, ts[0])
    } else {
        comma_text(ctx, ts.drop_last()) + ", "@ + token_text(ctx, ts.last())
    }
}

/// The expected token kinds: separated by commas, the last after "or".
pub open spec fn expected_text(ctx: &Context, ts: Seq<usize>) -> Seq<char> {
    if ts.len() <= 1 {
        comma_text(ctx, ts)
    } else {
        comma_text(ctx, ts.drop_last()) + " or "@ + token_text(ctx, ts.last())
    }
}

fn expected_of(ctx: &Context, e: &ExpectedTokens) -> (s: String)
    requires
        e.wf(),
    ensures
        s@ == expected_text(ctx, e.view()),
{
    let mut out = String::new();
    let mut i: usize = 0;
    let ghost ts = e.view();
    while i < e.len
        invariant
            e.wf(),
            ts == e.view(),
            i <= e.len,
            i < e.len ==> out@ == comma_text(ctx, ts.subrange(0, i as int)),
            i == e.len && e.len > 1 ==> out@ == expected_text(ctx, ts),
            i == e.len && e.len <= 1 ==> out@ == comma_text(ctx, ts),
        decreases e.len - i,
    {
        let t = token_of(ctx, e.names[i]);
        let ghost before = out@;
        proof {
            let s = ts.subrange(0, i + 1);
            assert(s.drop_last() =~= ts.subrange(0, i as int));
            assert(s.last() == ts[i as int]);
            assert(ts[i as int] == e.names@[i as int]);
        }
        if i == 0 {
            out.append(t.as_str());
        } else if i + 1 == e.len {
            out.append(" or ");
            out.append(t.as_str());
        } else {
            out.append(", ");
            out.append(t.as_str());
        }
        proof {
            if i + 1 == e.len {
                assert(ts.subrange(0, i + 1) =~= ts);
                if i > 0 {
                    assert(ts.drop_last() =~= ts.subrange(0, i as int));
                }
            }
        }
        i = i + 1;
    }
    proof {
        if e.len == 0 {
            assert(ts =~= Seq::<usize>::empty());
        }
    }
    out
}

/// `n` written in decimal.
pub fn decimal_u64(n: u64) -> (s: String)
    ensures
        s@ == decimal_text(n as nat),
    decreases n,
{
    if n < 10 {
        let d = crate::semantic::model::display::decimal(n as usize);
        d
    } else {
        let mut s = decimal_u64(n / 10);
        let d = crate::semantic::model::display::decimal((n % 10) as usize);
        s.append(d.as_str());
        s
    }
}

/// `n` written in decimal, with a minus sign when negative.
pub open spec fn signed_text(n: int) -> Seq<char> {
    if n < 0 {
        "-"@ + decimal_text((-n) as nat)
    } else {
        decimal_text(n as nat)
    }
}

fn signed_decimal(n: i64) -> (s: String)
    ensures
        s@ == signed_text(n as int),
{
    if n < 0 {
        let mut s = String::from_str("-");
        let m: u64 = (0 - (n as i128)) as u64;
        let d = decimal_u64(m);
        s.append(d.as_str());
        s
    } else {
        decimal_u64(n as u64)
    }
}

fn value_bits(v: &Value) -> (b: u64)
    ensures
        b == v.spec_bits(),
{
    match v.get_integer_value() {
        Some(b) => b,
        None => 0,
    }
}

/// Every type a diagnosis names exists, and a misused increment names its operator.
pub open spec fn diag_ok(sema: &Sema, d: Diagnosis) -> bool {
    match d {
        Diagnosis::SyntaxError { expected, .. } => expected.wf(),
        Diagnosis::IncompleteType(ty) => sema.qt_ok(ty),
        Diagnosis::CallingNotFunction(ty) => sema.qt_ok(ty),
        Diagnosis::CallingIncompleteReturn(ty) => sema.qt_ok(ty),
        Diagnosis::ArgumentDiscardedQualifiers(n, to, from) => sema.qt_ok(from) && sema.qt_ok(to),
        Diagnosis::ArgumentIncompatibleTypes(n, to, from) => sema.qt_ok(from) && sema.qt_ok(to),
        Diagnosis::AccessNotStuctOrUnion(ty) => sema.qt_ok(ty),
        Diagnosis::AccessNotPointer(ty) => sema.qt_ok(ty),
        Diagnosis::AccessNotMember(ty, name_id) => sema.qt_ok(ty),
        Diagnosis::BadPostIncDec(op, ty) => sema.qt_ok(ty) && (op == UnaryOp::PostInc || op == UnaryOp::PreInc || op == UnaryOp::PostDec || op == UnaryOp::PreDec),
        Diagnosis::RValueAddress(ty) => sema.qt_ok(ty),
        Diagnosis::IndirectionNotPointer(ty) => sema.qt_ok(ty),
        Diagnosis::InvalidUnary(ty) => sema.qt_ok(ty),
        Diagnosis::SizeofIncomplete(ty) => sema.qt_ok(ty),
        Diagnosis::InvalidBinaryOperand(lhs, rhs) => sema.qt_ok(lhs) && sema.qt_ok(rhs),
        Diagnosis::OrderedFunctionPointers(lhs, rhs) => sema.qt_ok(lhs) && sema.qt_ok(rhs),
        Diagnosis::MixedCompletenessComparison(lhs, rhs) => sema.qt_ok(lhs) && sema.qt_ok(rhs),
        Diagnosis::InvalidComparison(lhs, rhs) => sema.qt_ok(lhs) && sema.qt_ok(rhs),
        Diagnosis::NotScalar(ty) => sema.qt_ok(ty),
        Diagnosis::IncompatibleOperands(lhs, rhs) => sema.qt_ok(lhs) && sema.qt_ok(rhs),
        Diagnosis::PointerMismatch(lhs, rhs) => sema.qt_ok(lhs) && sema.qt_ok(rhs),
        Diagnosis::ConstAssignment(ty) => sema.qt_ok(ty),
        Diagnosis::ConstMemberAssignment(ty) => sema.qt_ok(ty),
        Diagnosis::AssignmentDiscardedQualifiers(to, from) => sema.qt_ok(to) && sema.qt_ok(from),
        Diagnosis::AssignmentIncompatibleTypes(to, from) => sema.qt_ok(to) && sema.qt_ok(from),
        Diagnosis::IncompleteVariable(ty) => sema.qt_ok(ty),
        Diagnosis::InvalidMemberType(ty) => sema.qt_ok(ty),
        Diagnosis::InvalidElementType(ty) => sema.qt_ok(ty),
        Diagnosis::FunctionReturningArray(ty) => sema.qt_ok(ty),
        Diagnosis::FunctionReturningFunction(ty) => sema.qt_ok(ty),
        Diagnosis::InitDiscardedQualifiers(to, from) => sema.qt_ok(to) && sema.qt_ok(from),
        Diagnosis::InitIncompatibleTypes(to, from) => sema.qt_ok(to) && sema.qt_ok(from),
        Diagnosis::NonScalarStatement(ty) => sema.qt_ok(ty),
        Diagnosis::NonIntegralStatement(ty) => sema.qt_ok(ty),
        Diagnosis::ReturnDiscardedQualifiers(to, from) => sema.qt_ok(from) && sema.qt_ok(to),
        Diagnosis::ReturnIncompatibleTypes(to, from) => sema.qt_ok(from) && sema.qt_ok(to),
        Diagnosis::TentativeNeverCompleted(ty) => sema.qt_ok(ty),
        Diagnosis::IncompleteParameter(ty) => sema.qt_ok(ty),
        Diagnosis::IncompleteReturn(ty) => sema.qt_ok(ty),
        _ => true,
    }
}

/// The text of a diagnosis.
pub open spec fn message_text(sema: &Sema, ctx: &Context, d: Diagnosis) -> Seq<char> {
    match d {
        Diagnosis::OutsideSwitch(s) => "'"@ + label_text(s) + "' statement not in switch statement"@,
        Diagnosis::DuplicateCase(value) => "duplicate case value '"@ + decimal_text(value.spec_bits() as nat) + "'"@,
        Diagnosis::DuplicateDefault => "multiple default labels in one switch"@,
        Diagnosis::BreakNotInLoop => "'break' statement not in loop or switch statement"@,
        Diagnosis::ContinueNotInLoop => "'continue' statement not in loop statement"@,
        Diagnosis::DuplicateLabel(name) => "redefinition of label '"@ + name_text(ctx.names@, name.id) + "'"@,
        Diagnosis::UndefinedLabel(name) => "use of undeclared label '"@ + name_text(ctx.names@, name.id) + "'"@,
        Diagnosis::Poisoned => "Internal error"@,
        Diagnosis::InvalidOperand => "invalid operand"@,
        Diagnosis::SyntaxError { found, expected } => if expected.len == 0 {
            "syntax error, unexpected "@ + token_text(ctx, found)
        } else {
            "syntax error, unexpected "@ + token_text(ctx, found) + ", expecting "@ + expected_text(ctx, expected.view())
        },
        Diagnosis::DuplicateDeclaration(kind, name) => "duplicate declaration of "@ + kind_text(kind) + " `"@ + name_text(ctx.names@, name.id) + "'"@,
        Diagnosis::ConflictingLinkage(name) => "declaration of '"@ + name_text(ctx.names@, name.id) + "' conflicts with the linkage of a previous declaration"@,
        Diagnosis::IntegerConstantTooLarge => "integer constant is too large for any integer type"@,
        Diagnosis::EscapeOutOfRange => "escape sequence is out of range for the character type"@,
        Diagnosis::MixedWideStringConcat => "concatenation of a wide and a narrow string literal is undefined"@,
        Diagnosis::IncompleteType(ty) => "incomplete definition of type '"@ + describe_text(sema, ctx.names@, ty) + "'"@,
        Diagnosis::ArithmeticOverflow => "integer overflow in constant expression"@,
        Diagnosis::UndeclaredIdentifier(name) => "Use of undeclared identifier '"@ + name_text(ctx.names@, name.id) + "'"@,
        Diagnosis::SubscriptNotArray => "subscripted value is not an array, pointer, or vector"@,
        Diagnosis::CallingNotFunction(ty) => "called object type '"@ + describe_text(sema, ctx.names@, ty) + "' is not a function or function pointer"@,
        Diagnosis::CallingIncompleteReturn(ty) => "calling a function with incomplete return type '"@ + describe_text(sema, ctx.names@, ty) + "'"@,
        Diagnosis::TooManyArguments(expected, have) => "too many arguments to function call, expected "@ + decimal_text(expected as nat) + ", have "@ + decimal_text(have as nat),
        Diagnosis::TooFewArguments(expected, have) => "too few arguments to function call, expected "@ + decimal_text(expected as nat) + ", have "@ + decimal_text(have as nat),
        Diagnosis::BadArgumentsCount => "wrong argument count"@,
        Diagnosis::ArgumentDiscardedQualifiers(n, to, from) => "passing '"@ + describe_text(sema, ctx.names@, from) + "' to parameter "@ + decimal_text(n as nat) + " of type '"@ + describe_text(sema, ctx.names@, to) + "' discards qualifiers"@,
        Diagnosis::ArgumentIncompatibleTypes(n, to, from) => "passing '"@ + describe_text(sema, ctx.names@, from) + "' to parameter "@ + decimal_text(n as nat) + " of incompatible type '"@ + describe_text(sema, ctx.names@, to) + "'"@,
        Diagnosis::AccessNotStuctOrUnion(ty) => "member reference base type '"@ + describe_text(sema, ctx.names@, ty) + "' is not a structure or union"@,
        Diagnosis::AccessNotPointer(ty) => "member reference base type '"@ + describe_text(sema, ctx.names@, ty) + "' is not pointer"@,
        Diagnosis::AccessNotMember(ty, name_id) => "no member named '"@ + name_text(ctx.names@, name_id) + "' in '"@ + describe_text(sema, ctx.names@, ty) + "'"@,
        Diagnosis::BadPostIncDec(op, ty) => if op == UnaryOp::PostInc || op == UnaryOp::PreInc {
            "cannot increment value of type '"@ + describe_text(sema, ctx.names@, ty) + "'"@
        } else {
            "cannot decrement value of type '"@ + describe_text(sema, ctx.names@, ty) + "'"@
        },
        Diagnosis::BitFieldAddress => "address of bit-field requested"@,
        Diagnosis::RegisterAddress => "address of register variable requested"@,
        Diagnosis::RValueAddress(ty) => "cannot take the address of an rvalue of type '"@ + describe_text(sema, ctx.names@, ty) + "'"@,
        Diagnosis::IndirectionNotPointer(ty) => "indirection requires pointer operand ('"@ + describe_text(sema, ctx.names@, ty) + "' invalid)"@,
        Diagnosis::IndirectionToVoid => "ISO C does not allow indirection on operand of type 'void *'"@,
        Diagnosis::InvalidUnary(ty) => "invalid argument type '"@ + describe_text(sema, ctx.names@, ty) + "' to unary expression"@,
        Diagnosis::SizeofVoid => "invalid application of 'sizeof' to a void type"@,
        Diagnosis::SizeofIncomplete(ty) => "invalid application of 'sizeof' to an incomplete type '"@ + describe_text(sema, ctx.names@, ty) + "'"@,
        Diagnosis::SizeofFunction => "invalid application of 'sizeof' to a function type"@,
        Diagnosis::SizeofBitfield => "invalid application of 'sizeof' to bit-field"@,
        Diagnosis::CastToNonScalar => "Conversion to non scalar type"@,
        Diagnosis::CastOfNonScalar => "Conversion of non scalar type"@,
        Diagnosis::DivisionByZero => "division by zero is undefined"@,
        Diagnosis::ModuloByZero => "remainder by zero is undefined"@,
        Diagnosis::InvalidBinaryOperand(lhs, rhs) => "invalid operands to binary expression ('"@ + describe_text(sema, ctx.names@, lhs) + "' and '"@ + describe_text(sema, ctx.names@, rhs) + "')"@,
        Diagnosis::ShiftCountNegative => "shift count is negative"@,
        Diagnosis::ShiftCountOutOfRange => "shift count >= width of type"@,
        Diagnosis::OrderedFunctionPointers(lhs, rhs) => "ordered comparison of function pointers ('"@ + describe_text(sema, ctx.names@, lhs) + "' and '"@ + describe_text(sema, ctx.names@, rhs) + "')"@,
        Diagnosis::MixedCompletenessComparison(lhs, rhs) => "ordered comparison needs two complete or two incomplete pointee types ('"@ + describe_text(sema, ctx.names@, lhs) + "' and '"@ + describe_text(sema, ctx.names@, rhs) + "')"@,
        Diagnosis::InvalidComparison(lhs, rhs) => "comparison of distinct pointer types ('"@ + describe_text(sema, ctx.names@, lhs) + "' and '"@ + describe_text(sema, ctx.names@, rhs) + "')"@,
        Diagnosis::NotScalar(ty) => "used type '"@ + describe_text(sema, ctx.names@, ty) + "' where arithmetic or pointer type is required"@,
        Diagnosis::IncompatibleOperands(lhs, rhs) => "incompatible operand types ('"@ + describe_text(sema, ctx.names@, lhs) + "' and '"@ + describe_text(sema, ctx.names@, rhs) + "')"@,
        Diagnosis::PointerMismatch(lhs, rhs) => "pointer type mismatch ('"@ + describe_text(sema, ctx.names@, lhs) + "' and '"@ + describe_text(sema, ctx.names@, rhs) + "')"@,
        Diagnosis::AssignToRValue => "expression is not assignable"@,
        Diagnosis::ConstAssignment(ty) => "cannot assign to variable with const-qualified type '"@ + describe_text(sema, ctx.names@, ty) + "'"@,
        Diagnosis::ConstMemberAssignment(ty) => "cannot assign to '"@ + describe_text(sema, ctx.names@, ty) + "' because it has a const-qualified member"@,
        Diagnosis::AssignmentDiscardedQualifiers(to, from) => "assigning to '"@ + describe_text(sema, ctx.names@, to) + "' from '"@ + describe_text(sema, ctx.names@, from) + "' discards qualifiers"@,
        Diagnosis::AssignmentIncompatibleTypes(to, from) => "assignment to '"@ + describe_text(sema, ctx.names@, to) + "' from incompatible pointer type '"@ + describe_text(sema, ctx.names@, from) + "'"@,
        Diagnosis::ConstantOverflow => "overflow in constant expression"@,
        Diagnosis::NonConstantExpression => "Non constant expression"@,
        Diagnosis::NonIntegerConstantExpression => "Non integer constant expression"@,
        Diagnosis::EmptyDeclaration => "Declaration declares nothing"@,
        Diagnosis::InvalidTypeSpecifier => "Invalid type specifier or combination thereof"@,
        Diagnosis::IncompleteVariable(ty) => "variable has incomplete type '"@ + describe_text(sema, ctx.names@, ty) + "'"@,
        Diagnosis::MultipleStorageSpecifiers => "Multiple storage class declaration"@,
        Diagnosis::BlockScopeNotExtern => "Function in block not declared as extern"@,
        Diagnosis::TagWithoutMember(kind) => kind_text(kind) + " has no named member"@,
        Diagnosis::InvalidMemberType(ty) => "field has incomplete or function type '"@ + describe_text(sema, ctx.names@, ty) + "'"@,
        Diagnosis::NonIntBitFieldType => "Bit-field has non-integral type"@,
        Diagnosis::NegativeBitFieldWidth(Some(name), width) => "bit-field '"@ + name_text(ctx.names@, name.id) + "' has negative width ("@ + signed_text(width as int) + ")"@,
        Diagnosis::NegativeBitFieldWidth(None, width) => "anonymous bit-field has negative width ("@ + signed_text(width as int) + ")"@,
        Diagnosis::BitFieldWidthTooLarge(Some(name), width, bits) => "width of bit-field '"@ + name_text(ctx.names@, name.id) + "' ("@ + decimal_text(width as nat) + " bits) exceeds the width of its type ("@ + decimal_text(bits as nat) + " bits)"@,
        Diagnosis::BitFieldWidthTooLarge(None, width, bits) => "width of anonymous bit-field ("@ + decimal_text(width as nat) + " bits) exceeds the width of its type ("@ + decimal_text(bits as nat) + " bits)"@,
        Diagnosis::ZeroWidthNamedBitField(name) => "named bit-field '"@ + name_text(ctx.names@, name.id) + "' has zero width"@,
        Diagnosis::ForwardEnumReference(Some(name)) => "ISO C forbids forward references to enum '"@ + name_text(ctx.names@, name.id) + "'"@,
        Diagnosis::ForwardEnumReference(None) => "ISO C forbids forward references to 'enum' types"@,
        Diagnosis::VariantBadValue => "Variant value should be in int range"@,
        Diagnosis::DuplicateTypeQualifiers => "Duplicate type qualifiers"@,
        Diagnosis::NonIntArraySize => "Array len has non-integral type"@,
        Diagnosis::NegativeArraySize => "size of array is negative"@,
        Diagnosis::ZeroArraySize => "size of array is zero"@,
        Diagnosis::InvalidElementType(ty) => "array has incomplete or function element type '"@ + describe_text(sema, ctx.names@, ty) + "'"@,
        Diagnosis::FunctionReturningArray(ty) => "function cannot return array type '"@ + describe_text(sema, ctx.names@, ty) + "'"@,
        Diagnosis::FunctionReturningFunction(ty) => "function cannot return function type '"@ + describe_text(sema, ctx.names@, ty) + "'"@,
        Diagnosis::VoidParameter => "Parameter shall not have void type"@,
        Diagnosis::ParameterNotRegister => "Parameter shall only by declared with register storage"@,
        Diagnosis::DuplicateParameterName => "Duplicate paramter identifier"@,
        Diagnosis::ArrayInitTooLong => "excess elements in array initializer"@,
        Diagnosis::BlockScopeLinkageInitializer => "declaration of block scope identifier with linkage cannot have an initializer"@,
        Diagnosis::NonConstantInitializer => "initializer element is not a compile-time constant"@,
        Diagnosis::InitDiscardedQualifiers(to, from) => "initializing '"@ + describe_text(sema, ctx.names@, to) + "' with an expression of type '"@ + describe_text(sema, ctx.names@, from) + "' discards qualifiers"@,
        Diagnosis::InitIncompatibleTypes(to, from) => "initialization of '"@ + describe_text(sema, ctx.names@, to) + "' from incompatible pointer type '"@ + describe_text(sema, ctx.names@, from) + "'"@,
        Diagnosis::NonScalarStatement(ty) => "statement requires expression of scalar type ('"@ + describe_text(sema, ctx.names@, ty) + "' invalid)"@,
        Diagnosis::NonIntegralStatement(ty) => "statement requires expression of integer type ('"@ + describe_text(sema, ctx.names@, ty) + "' invalid)"@,
        Diagnosis::ReturnWithoutValue => "'return' with no value, in function returning non-void"@,
        Diagnosis::ReturnDiscardedQualifiers(to, from) => "returning '"@ + describe_text(sema, ctx.names@, from) + "' from a function with result type '"@ + describe_text(sema, ctx.names@, to) + "' discards qualifiers"@,
        Diagnosis::ReturnIncompatibleTypes(to, from) => "returning '"@ + describe_text(sema, ctx.names@, from) + "' from a function with incompatible result type '"@ + describe_text(sema, ctx.names@, to) + "'"@,
        Diagnosis::AutoRegisterExternal => "External declaration auto of register"@,
        Diagnosis::InternalNeverDefined(name) => "'"@ + name_text(ctx.names@, name.id) + "' used but never defined"@,
        Diagnosis::TentativeNeverCompleted(ty) => "tentative definition has type '"@ + describe_text(sema, ctx.names@, ty) + "' that is never completed"@,
        Diagnosis::NotFunctionTypeDeclarator => "Declarator shall be function type"@,
        Diagnosis::FunctionAutoExtern => "Function storage shall be auto or extern"@,
        Diagnosis::UnnamedPrototypeParameter => "Parameter shall include an identifier"@,
        Diagnosis::ParameterTypeListWithList => "Parameter style function declration shall not be followed by a declaration list"@,
        Diagnosis::MissingParameterInOldStyle => "Missing parameter"@,
        Diagnosis::IncompleteParameter(ty) => "parameter has incomplete type '"@ + describe_text(sema, ctx.names@, ty) + "'"@,
        Diagnosis::IncompleteReturn(ty) => "function definition has incomplete return type '"@ + describe_text(sema, ctx.names@, ty) + "'"@,
    }
}

impl DiagnosisNode {
    /// The text reported for this diagnostic.
    #[verifier::rlimit(100)]
    pub fn message(&self, sema: &Sema, ctx: &Context) -> (s: String)
        requires
            sema.wf(),
            diag_ok(sema, self.inner),
        ensures
            s@ == message_text(sema, ctx, self.inner),
    {
        let mut out = String::new();
        match self.inner {
            Diagnosis::OutsideSwitch(s) => {
                out.append("'");
                out.append(label_of(&s));
                out.append("' statement not in switch statement");
            },
            Diagnosis::DuplicateCase(value) => {
                out.append("duplicate case value '");
                let d = decimal_u64(value_bits(&value));
                out.append(d.as_str());
                out.append("'");
            },
            Diagnosis::DuplicateDefault => {
                out.append("multiple default labels in one switch");
            },
            Diagnosis::BreakNotInLoop => {
                out.append("'break' statement not in loop or switch statement");
            },
            Diagnosis::ContinueNotInLoop => {
                out.append("'continue' statement not in loop statement");
            },
            Diagnosis::DuplicateLabel(name) => {
                out.append("redefinition of label '");
                let d = name_of(&ctx.names, name.id);
                out.append(d.as_str());
                out.append("'");
            },
            Diagnosis::UndefinedLabel(name) => {
                out.append("use of undeclared label '");
                let d = name_of(&ctx.names, name.id);
                out.append(d.as_str());
                out.append("'");
            },
            Diagnosis::Poisoned => {
                out.append("Internal error");
            },
            Diagnosis::InvalidOperand => {
                out.append("invalid operand");
            },
            Diagnosis::SyntaxError { found, expected } => {
                out.append("syntax error, unexpected ");
                let t = token_of(ctx, found);
                out.append(t.as_str());
                if !expected.is_empty() {
                    out.append(", expecting ");
                    let e = expected_of(ctx, &expected);
                    out.append(e.as_str());
                }
            },
            Diagnosis::DuplicateDeclaration(kind, name) => {
                out.append("duplicate declaration of ");
                out.append(kind.text());
                out.append(" `");
                let d = name_of(&ctx.names, name.id);
                out.append(d.as_str());
                out.append("'");
            },
            Diagnosis::ConflictingLinkage(name) => {
                out.append("declaration of '");
                let d = name_of(&ctx.names, name.id);
                out.append(d.as_str());
                out.append("' conflicts with the linkage of a previous declaration");
            },
            Diagnosis::IntegerConstantTooLarge => {
                out.append("integer constant is too large for any integer type");
            },
            Diagnosis::EscapeOutOfRange => {
                out.append("escape sequence is out of range for the character type");
            },
            Diagnosis::MixedWideStringConcat => {
                out.append("concatenation of a wide and a narrow string literal is undefined");
            },
            Diagnosis::IncompleteType(ty) => {
                out.append("incomplete definition of type '");
                let d = ty.describe(sema, &ctx.names);
                out.append(d.as_str());
                out.append("'");
            },
            Diagnosis::ArithmeticOverflow => {
                out.append("integer overflow in constant expression");
            },
            Diagnosis::UndeclaredIdentifier(name) => {
                out.append("Use of undeclared identifier '");
                let d = name_of(&ctx.names, name.id);
                out.append(d.as_str());
                out.append("'");
            },
            Diagnosis::SubscriptNotArray => {
                out.append("subscripted value is not an array, pointer, or vector");
            },
            Diagnosis::CallingNotFunction(ty) => {
                out.append("called object type '");
                let d = ty.describe(sema, &ctx.names);
                out.append(d.as_str());
                out.append("' is not a function or function pointer");
            },
            Diagnosis::CallingIncompleteReturn(ty) => {
                out.append("calling a function with incomplete return type '");
                let d = ty.describe(sema, &ctx.names);
                out.append(d.as_str());
                out.append("'");
            },
            Diagnosis::TooManyArguments(expected, have) => {
                out.append("too many arguments to function call, expected ");
                let d = decimal_u64(expected as u64);
                out.append(d.as_str());
                out.append(", have ");
                let d = decimal_u64(have as u64);
                out.append(d.as_str());
            },
            Diagnosis::TooFewArguments(expected, have) => {
                out.append("too few arguments to function call, expected ");
                let d = decimal_u64(expected as u64);
                out.append(d.as_str());
                out.append(", have ");
                let d = decimal_u64(have as u64);
                out.append(d.as_str());
            },
            Diagnosis::BadArgumentsCount => {
                out.append("wrong argument count");
            },
            Diagnosis::ArgumentDiscardedQualifiers(n, to, from) => {
                out.append("passing '");
                let d = from.describe(sema, &ctx.names);
                out.append(d.as_str());
                out.append("' to parameter ");
                let d = decimal_u64(n as u64);
                out.append(d.as_str());
                out.append(" of type '");
                let d = to.describe(sema, &ctx.names);
                out.append(d.as_str());
                out.append("' discards qualifiers");
            },
            Diagnosis::ArgumentIncompatibleTypes(n, to, from) => {
                out.append("passing '");
                let d = from.describe(sema, &ctx.names);
                out.append(d.as_str());
                out.append("' to parameter ");
                let d = decimal_u64(n as u64);
                out.append(d.as_str());
                out.append(" of incompatible type '");
                let d = to.describe(sema, &ctx.names);
                out.append(d.as_str());
                out.append("'");
            },
            Diagnosis::AccessNotStuctOrUnion(ty) => {
                out.append("member reference base type '");
                let d = ty.describe(sema, &ctx.names);
                out.append(d.as_str());
                out.append("' is not a structure or union");
            },
            Diagnosis::AccessNotPointer(ty) => {
                out.append("member reference base type '");
                let d = ty.describe(sema, &ctx.names);
                out.append(d.as_str());
                out.append("' is not pointer");
            },
            Diagnosis::AccessNotMember(ty, name_id) => {
                out.append("no member named '");
                let d = name_of(&ctx.names, name_id);
                out.append(d.as_str());
                out.append("' in '");
                let d = ty.describe(sema, &ctx.names);
                out.append(d.as_str());
                out.append("'");
            },
            Diagnosis::BadPostIncDec(op, ty) => {
                if matches!(op, UnaryOp::PostInc | UnaryOp::PreInc) {
                    out.append("cannot increment value of type '");
                } else {
                    out.append("cannot decrement value of type '");
                }
                let d = ty.describe(sema, &ctx.names);
                out.append(d.as_str());
                out.append("'");
            },
            Diagnosis::BitFieldAddress => {
                out.append("address of bit-field requested");
            },
            Diagnosis::RegisterAddress => {
                out.append("address of register variable requested");
            },
            Diagnosis::RValueAddress(ty) => {
                out.append("cannot take the address of an rvalue of type '");
                let d = ty.describe(sema, &ctx.names);
                out.append(d.as_str());
                out.append("'");
            },
            Diagnosis::IndirectionNotPointer(ty) => {
                out.append("indirection requires pointer operand ('");
                let d = ty.describe(sema, &ctx.names);
                out.append(d.as_str());
                out.append("' invalid)");
            },
            Diagnosis::IndirectionToVoid => {
                out.append("ISO C does not allow indirection on operand of type 'void *'");
            },
            Diagnosis::InvalidUnary(ty) => {
                out.append("invalid argument type '");
                let d = ty.describe(sema, &ctx.names);
                out.append(d.as_str());
                out.append("' to unary expression");
            },
            Diagnosis::SizeofVoid => {
                out.append("invalid application of 'sizeof' to a void type");
            },
            Diagnosis::SizeofIncomplete(ty) => {
                out.append("invalid application of 'sizeof' to an incomplete type '");
                let d = ty.describe(sema, &ctx.names);
                out.append(d.as_str());
                out.append("'");
            },
            Diagnosis::SizeofFunction => {
                out.append("invalid application of 'sizeof' to a function type");
            },
            Diagnosis::SizeofBitfield => {
                out.append("invalid application of 'sizeof' to bit-field");
            },
            Diagnosis::CastToNonScalar => {
                out.append("Conversion to non scalar type");
            },
            Diagnosis::CastOfNonScalar => {
                out.append("Conversion of non scalar type");
            },
            Diagnosis::DivisionByZero => {
                out.append("division by zero is undefined");
            },
            Diagnosis::ModuloByZero => {
                out.append("remainder by zero is undefined");
            },
            Diagnosis::InvalidBinaryOperand(lhs, rhs) => {
                out.append("invalid operands to binary expression ('");
                let d = lhs.describe(sema, &ctx.names);
                out.append(d.as_str());
                out.append("' and '");
                let d = rhs.describe(sema, &ctx.names);
                out.append(d.as_str());
                out.append("')");
            },
            Diagnosis::ShiftCountNegative => {
                out.append("shift count is negative");
            },
            Diagnosis::ShiftCountOutOfRange => {
                out.append("shift count >= width of type");
            },
            Diagnosis::OrderedFunctionPointers(lhs, rhs) => {
                out.append("ordered comparison of function pointers ('");
                let d = lhs.describe(sema, &ctx.names);
                out.append(d.as_str());
                out.append("' and '");
                let d = rhs.describe(sema, &ctx.names);
                out.append(d.as_str());
                out.append("')");
            },
            Diagnosis::MixedCompletenessComparison(lhs, rhs) => {
                out.append("ordered comparison needs two complete or two incomplete pointee types ('");
                let d = lhs.describe(sema, &ctx.names);
                out.append(d.as_str());
                out.append("' and '");
                let d = rhs.describe(sema, &ctx.names);
                out.append(d.as_str());
                out.append("')");
            },
            Diagnosis::InvalidComparison(lhs, rhs) => {
                out.append("comparison of distinct pointer types ('");
                let d = lhs.describe(sema, &ctx.names);
                out.append(d.as_str());
                out.append("' and '");
                let d = rhs.describe(sema, &ctx.names);
                out.append(d.as_str());
                out.append("')");
            },
            Diagnosis::NotScalar(ty) => {
                out.append("used type '");
                let d = ty.describe(sema, &ctx.names);
                out.append(d.as_str());
                out.append("' where arithmetic or pointer type is required");
            },
            Diagnosis::IncompatibleOperands(lhs, rhs) => {
                out.append("incompatible operand types ('");
                let d = lhs.describe(sema, &ctx.names);
                out.append(d.as_str());
                out.append("' and '");
                let d = rhs.describe(sema, &ctx.names);
                out.append(d.as_str());
                out.append("')");
            },
            Diagnosis::PointerMismatch(lhs, rhs) => {
                out.append("pointer type mismatch ('");
                let d = lhs.describe(sema, &ctx.names);
                out.append(d.as_str());
                out.append("' and '");
                let d = rhs.describe(sema, &ctx.names);
                out.append(d.as_str());
                out.append("')");
            },
            Diagnosis::AssignToRValue => {
                out.append("expression is not assignable");
            },
            Diagnosis::ConstAssignment(ty) => {
                out.append("cannot assign to variable with const-qualified type '");
                let d = ty.describe(sema, &ctx.names);
                out.append(d.as_str());
                out.append("'");
            },
            Diagnosis::ConstMemberAssignment(ty) => {
                out.append("cannot assign to '");
                let d = ty.describe(sema, &ctx.names);
                out.append(d.as_str());
                out.append("' because it has a const-qualified member");
            },
            Diagnosis::AssignmentDiscardedQualifiers(to, from) => {
                out.append("assigning to '");
                let d = to.describe(sema, &ctx.names);
                out.append(d.as_str());
                out.append("' from '");
                let d = from.describe(sema, &ctx.names);
                out.append(d.as_str());
                out.append("' discards qualifiers");
            },
            Diagnosis::AssignmentIncompatibleTypes(to, from) => {
                out.append("assignment to '");
                let d = to.describe(sema, &ctx.names);
                out.append(d.as_str());
                out.append("' from incompatible pointer type '");
                let d = from.describe(sema, &ctx.names);
                out.append(d.as_str());
                out.append("'");
            },
            Diagnosis::ConstantOverflow => {
                out.append("overflow in constant expression");
            },
            Diagnosis::NonConstantExpression => {
                out.append("Non constant expression");
            },
            Diagnosis::NonIntegerConstantExpression => {
                out.append("Non integer constant expression");
            },
            Diagnosis::EmptyDeclaration => {
                out.append("Declaration declares nothing");
            },
            Diagnosis::InvalidTypeSpecifier => {
                out.append("Invalid type specifier or combination thereof");
            },
            Diagnosis::IncompleteVariable(ty) => {
                out.append("variable has incomplete type '");
                let d = ty.describe(sema, &ctx.names);
                out.append(d.as_str());
                out.append("'");
            },
            Diagnosis::MultipleStorageSpecifiers => {
                out.append("Multiple storage class declaration");
            },
            Diagnosis::BlockScopeNotExtern => {
                out.append("Function in block not declared as extern");
            },
            Diagnosis::TagWithoutMember(kind) => {
                out.append(kind.text());
                out.append(" has no named member");
            },
            Diagnosis::InvalidMemberType(ty) => {
                out.append("field has incomplete or function type '");
                let d = ty.describe(sema, &ctx.names);
                out.append(d.as_str());
                out.append("'");
            },
            Diagnosis::NonIntBitFieldType => {
                out.append("Bit-field has non-integral type");
            },
            Diagnosis::NegativeBitFieldWidth(Some(name), width) => {
                out.append("bit-field '");
                let d = name_of(&ctx.names, name.id);
                out.append(d.as_str());
                out.append("' has negative width (");
                let d = signed_decimal(width);
                out.append(d.as_str());
                out.append(")");
            },
            Diagnosis::NegativeBitFieldWidth(None, width) => {
                out.append("anonymous bit-field has negative width (");
                let d = signed_decimal(width);
                out.append(d.as_str());
                out.append(")");
            },
            Diagnosis::BitFieldWidthTooLarge(Some(name), width, bits) => {
                out.append("width of bit-field '");
                let d = name_of(&ctx.names, name.id);
                out.append(d.as_str());
                out.append("' (");
                let d = decimal_u64(width as u64);
                out.append(d.as_str());
                out.append(" bits) exceeds the width of its type (");
                let d = decimal_u64(bits as u64);
                out.append(d.as_str());
                out.append(" bits)");
            },
            Diagnosis::BitFieldWidthTooLarge(None, width, bits) => {
                out.append("width of anonymous bit-field (");
                let d = decimal_u64(width as u64);
                out.append(d.as_str());
                out.append(" bits) exceeds the width of its type (");
                let d = decimal_u64(bits as u64);
                out.append(d.as_str());
                out.append(" bits)");
            },
            Diagnosis::ZeroWidthNamedBitField(name) => {
                out.append("named bit-field '");
                let d = name_of(&ctx.names, name.id);
                out.append(d.as_str());
                out.append("' has zero width");
            },
            Diagnosis::ForwardEnumReference(Some(name)) => {
                out.append("ISO C forbids forward references to enum '");
                let d = name_of(&ctx.names, name.id);
                out.append(d.as_str());
                out.append("'");
            },
            Diagnosis::ForwardEnumReference(None) => {
                out.append("ISO C forbids forward references to 'enum' types");
            },
            Diagnosis::VariantBadValue => {
                out.append("Variant value should be in int range");
            },
            Diagnosis::DuplicateTypeQualifiers => {
                out.append("Duplicate type qualifiers");
            },
            Diagnosis::NonIntArraySize => {
                out.append("Array len has non-integral type");
            },
            Diagnosis::NegativeArraySize => {
                out.append("size of array is negative");
            },
            Diagnosis::ZeroArraySize => {
                out.append("size of array is zero");
            },
            Diagnosis::InvalidElementType(ty) => {
                out.append("array has incomplete or function element type '");
                let d = ty.describe(sema, &ctx.names);
                out.append(d.as_str());
                out.append("'");
            },
            Diagnosis::FunctionReturningArray(ty) => {
                out.append("function cannot return array type '");
                let d = ty.describe(sema, &ctx.names);
                out.append(d.as_str());
                out.append("'");
            },
            Diagnosis::FunctionReturningFunction(ty) => {
                out.append("function cannot return function type '");
                let d = ty.describe(sema, &ctx.names);
                out.append(d.as_str());
                out.append("'");
            },
            Diagnosis::VoidParameter => {
                out.append("Parameter shall not have void type");
            },
            Diagnosis::ParameterNotRegister => {
                out.append("Parameter shall only by declared with register storage");
            },
            Diagnosis::DuplicateParameterName => {
                out.append("Duplicate paramter identifier");
            },
            Diagnosis::ArrayInitTooLong => {
                out.append("excess elements in array initializer");
            },
            Diagnosis::BlockScopeLinkageInitializer => {
                out.append("declaration of block scope identifier with linkage cannot have an initializer");
            },
            Diagnosis::NonConstantInitializer => {
                out.append("initializer element is not a compile-time constant");
            },
            Diagnosis::InitDiscardedQualifiers(to, from) => {
                out.append("initializing '");
                let d = to.describe(sema, &ctx.names);
                out.append(d.as_str());
                out.append("' with an expression of type '");
                let d = from.describe(sema, &ctx.names);
                out.append(d.as_str());
                out.append("' discards qualifiers");
            },
            Diagnosis::InitIncompatibleTypes(to, from) => {
                out.append("initialization of '");
                let d = to.describe(sema, &ctx.names);
                out.append(d.as_str());
                out.append("' from incompatible pointer type '");
                let d = from.describe(sema, &ctx.names);
                out.append(d.as_str());
                out.append("'");
            },
            Diagnosis::NonScalarStatement(ty) => {
                out.append("statement requires expression of scalar type ('");
                let d = ty.describe(sema, &ctx.names);
                out.append(d.as_str());
                out.append("' invalid)");
            },
            Diagnosis::NonIntegralStatement(ty) => {
                out.append("statement requires expression of integer type ('");
                let d = ty.describe(sema, &ctx.names);
                out.append(d.as_str());
                out.append("' invalid)");
            },
            Diagnosis::ReturnWithoutValue => {
                out.append("'return' with no value, in function returning non-void");
            },
            Diagnosis::ReturnDiscardedQualifiers(to, from) => {
                out.append("returning '");
                let d = from.describe(sema, &ctx.names);
                out.append(d.as_str());
                out.append("' from a function with result type '");
                let d = to.describe(sema, &ctx.names);
                out.append(d.as_str());
                out.append("' discards qualifiers");
            },
            Diagnosis::ReturnIncompatibleTypes(to, from) => {
                out.append("returning '");
                let d = from.describe(sema, &ctx.names);
                out.append(d.as_str());
                out.append("' from a function with incompatible result type '");
                let d = to.describe(sema, &ctx.names);
                out.append(d.as_str());
                out.append("'");
            },
            Diagnosis::AutoRegisterExternal => {
                out.append("External declaration auto of register");
            },
            Diagnosis::InternalNeverDefined(name) => {
                out.append("'");
                let d = name_of(&ctx.names, name.id);
                out.append(d.as_str());
                out.append("' used but never defined");
            },
            Diagnosis::TentativeNeverCompleted(ty) => {
                out.append("tentative definition has type '");
                let d = ty.describe(sema, &ctx.names);
                out.append(d.as_str());
                out.append("' that is never completed");
            },
            Diagnosis::NotFunctionTypeDeclarator => {
                out.append("Declarator shall be function type");
            },
            Diagnosis::FunctionAutoExtern => {
                out.append("Function storage shall be auto or extern");
            },
            Diagnosis::UnnamedPrototypeParameter => {
                out.append("Parameter shall include an identifier");
            },
            Diagnosis::ParameterTypeListWithList => {
                out.append("Parameter style function declration shall not be followed by a declaration list");
            },
            Diagnosis::MissingParameterInOldStyle => {
                out.append("Missing parameter");
            },
            Diagnosis::IncompleteParameter(ty) => {
                out.append("parameter has incomplete type '");
                let d = ty.describe(sema, &ctx.names);
                out.append(d.as_str());
                out.append("'");
            },
            Diagnosis::IncompleteReturn(ty) => {
                out.append("function definition has incomplete return type '");
                let d = ty.describe(sema, &ctx.names);
                out.append(d.as_str());
                out.append("'");
            },
        }
        proof {
            assert(out@ =~= message_text(sema, ctx, self.inner));
        }
        out
    }
}

} // verus!
