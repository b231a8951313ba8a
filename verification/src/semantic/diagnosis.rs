//! Diagnostics: what the analysis reports, how severe it is, and the small
//! carrier `Diag` that pairs a result with an optional diagnostic.

use vstd::prelude::*;

use crate::ast::{Name, Span, StringId, UnaryOp, Value};
use crate::semantic::model::resolved_type::QualifiedType;
use crate::semantic::model::symbol::SymbolKind;

verus! {

/// The statement keyword a misplaced `case` or `default` label used.
#[derive(Clone, Copy, Debug, PartialEq, Eq, Structural)]
pub enum SwitchLabel {
    Case,
    Default,
}

#[derive(Clone, Copy, Debug)]
pub enum Diagnosis {
    OutsideSwitch(SwitchLabel),
    DuplicateCase(Value),
    DuplicateDefault,
    BreakNotInLoop,
    ContinueNotInLoop,
    DuplicateLabel(Name),
    UndefinedLabel(Name),
    Poisoned,
    InvalidOperand,
    SyntaxError { found: usize, expected: ExpectedTokens },
    // 6.1.2.1
    DuplicateDeclaration(SymbolKind, Name),
    // 6.1.2.2
    ConflictingLinkage(Name),
    // 6.1.3.2
    IntegerConstantTooLarge,
    // 6.1.3.4
    EscapeOutOfRange,
    // 6.1.4
    MixedWideStringConcat,
    // 6.2.2.1
    IncompleteType(QualifiedType),
    // 6.3
    ArithmeticOverflow,
    // 6.3.1
    UndeclaredIdentifier(Name),
    // 6.3.2.1
    SubscriptNotArray,
    // 6.3.2.2
    CallingNotFunction(QualifiedType),
    CallingIncompleteReturn(QualifiedType),
    TooManyArguments(usize, usize),
    TooFewArguments(usize, usize),
    BadArgumentsCount,
    ArgumentDiscardedQualifiers(usize, QualifiedType, QualifiedType),
    ArgumentIncompatibleTypes(usize, QualifiedType, QualifiedType),
    // 6.3.2.3
    AccessNotStuctOrUnion(QualifiedType),
    AccessNotPointer(QualifiedType),
    AccessNotMember(QualifiedType, StringId),
    // 6.3.2.4
    BadPostIncDec(UnaryOp, QualifiedType),
    // 6.3.3.2
    BitFieldAddress,
    RegisterAddress,
    RValueAddress(QualifiedType),
    IndirectionNotPointer(QualifiedType),
    IndirectionToVoid,
    // 6.3.3.3
    InvalidUnary(QualifiedType),
    // 6.3.3.4
    SizeofVoid,
    SizeofIncomplete(QualifiedType),
    SizeofFunction,
    SizeofBitfield,
    // 6.3.4
    CastToNonScalar,
    CastOfNonScalar,
    // 6.3.5
    DivisionByZero,
    ModuloByZero,
    InvalidBinaryOperand(QualifiedType, QualifiedType),
    // 6.3.7
    ShiftCountNegative,
    ShiftCountOutOfRange,
    // 6.3.8
    OrderedFunctionPointers(QualifiedType, QualifiedType),
    MixedCompletenessComparison(QualifiedType, QualifiedType),
    // 6.3.9
    InvalidComparison(QualifiedType, QualifiedType),
    // 6.3.15
    NotScalar(QualifiedType),
    IncompatibleOperands(QualifiedType, QualifiedType),
    PointerMismatch(QualifiedType, QualifiedType),
    // 6.3.16
    AssignToRValue,
    ConstAssignment(QualifiedType),
    ConstMemberAssignment(QualifiedType),
    AssignmentDiscardedQualifiers(QualifiedType, QualifiedType),
    AssignmentIncompatibleTypes(QualifiedType, QualifiedType),
    // 6.4
    ConstantOverflow,
    NonConstantExpression,
    NonIntegerConstantExpression,
    // 6.5
    EmptyDeclaration,
    InvalidTypeSpecifier,
    IncompleteVariable(QualifiedType),
    // 6.5.1
    MultipleStorageSpecifiers,
    BlockScopeNotExtern,
    // 6.5.2.1
    TagWithoutMember(SymbolKind),
    InvalidMemberType(QualifiedType),
    NonIntBitFieldType,
    NegativeBitFieldWidth(Option<Name>, i64),
    BitFieldWidthTooLarge(Option<Name>, u64, u32),
    ZeroWidthNamedBitField(Name),
    // 6.5.2.2
    VariantBadValue,
    // 6.5.2.3
    ForwardEnumReference(Option<Name>),
    // 6.5.3
    DuplicateTypeQualifiers,
    // 6.5.4.2
    NonIntArraySize,
    NegativeArraySize,
    ZeroArraySize,
    InvalidElementType(QualifiedType),
    // 6.5.4.3
    FunctionReturningArray(QualifiedType),
    FunctionReturningFunction(QualifiedType),
    VoidParameter,
    ParameterNotRegister,
    DuplicateParameterName,
    // 6.5.7
    BlockScopeLinkageInitializer,
    ArrayInitTooLong,
    NonConstantInitializer,
    InitDiscardedQualifiers(QualifiedType, QualifiedType),
    InitIncompatibleTypes(QualifiedType, QualifiedType),
    // 6.6.4
    NonScalarStatement(QualifiedType),
    // 6.6.4.2
    NonIntegralStatement(QualifiedType),
    // 6.6.6.4
    ReturnWithoutValue,
    ReturnDiscardedQualifiers(QualifiedType, QualifiedType),
    ReturnIncompatibleTypes(QualifiedType, QualifiedType),
    // 6.7
    AutoRegisterExternal,
    InternalNeverDefined(Name),
    TentativeNeverCompleted(QualifiedType),
    // 6.7.1
    NotFunctionTypeDeclarator,
    FunctionAutoExtern,
    UnnamedPrototypeParameter,
    ParameterTypeListWithList,
    MissingParameterInOldStyle,
    IncompleteParameter(QualifiedType),
    IncompleteReturn(QualifiedType),
}

#[derive(Clone, Copy, Debug, PartialEq, Eq, Structural)]
pub enum Severity {
    Warning,
    Error,
}

/// The diagnostics reported as warnings; every other one is an error.
pub open spec fn spec_severity(d: Diagnosis) -> Severity {
    match d {
        Diagnosis::MixedWideStringConcat | Diagnosis::ReturnWithoutValue | Diagnosis::ShiftCountNegative
        | Diagnosis::ShiftCountOutOfRange => Severity::Warning,
        _ => Severity::Error,
    }
}

impl Diagnosis {
    pub fn severity(&self) -> (s: Severity)
        ensures
            s == spec_severity(*self),
    {
        match self {
            Diagnosis::MixedWideStringConcat | Diagnosis::ReturnWithoutValue | Diagnosis::ShiftCountNegative
            | Diagnosis::ShiftCountOutOfRange => Severity::Warning,
            _ => Severity::Error,
        }
    }

    pub fn is_poisoned(&self) -> (b: bool)
        ensures
            b == (self is Poisoned),
    {
        matches!(self, Diagnosis::Poisoned)
    }
}

/// ANSI colour of a severity in reports.
pub open spec fn spec_color(s: Severity) -> &'static str {
    match s {
        Severity::Warning => "\x1b[33m",
        Severity::Error => "\x1b[31m",
    }
}

impl Severity {
    pub fn color(&self) -> (c: &'static str)
        ensures
            c == spec_color(*self),
    {
        match self {
            Severity::Warning => "\x1b[33m",
            Severity::Error => "\x1b[31m",
        }
    }
}

#[derive(Clone, Copy, Debug)]
pub struct DiagnosisNode {
    pub span: Span,
    pub inner: Diagnosis,
}

impl DiagnosisNode {
    pub fn new(inner: Diagnosis, span: Span) -> (n: Self)
        ensures
            n.inner == inner,
            n.span == span,
    {
        DiagnosisNode { span, inner }
    }

    pub fn severity(&self) -> (s: Severity)
        ensures
            s == spec_severity(self.inner),
    {
        self.inner.severity()
    }

    pub fn is_error(&self) -> (b: bool)
        ensures
            b == (spec_severity(self.inner) == Severity::Error),
    {
        match self.severity() {
            Severity::Error => true,
            Severity::Warning => false,
        }
    }
}

/// A result together with the diagnostic its computation raised, if any.
#[derive(Debug)]
pub struct Diag<T> {
    pub res: T,
    pub diagnosis: Option<Diagnosis>,
}

impl<T> Diag<T> {
    pub fn new(res: T, diagnosis: Option<Diagnosis>) -> (d: Self)
        ensures
            d.res == res,
            d.diagnosis == diagnosis,
    {
        Diag { res, diagnosis }
    }

    pub fn ok(res: T) -> (d: Self)
        ensures
            d.res == res,
            d.diagnosis is None,
    {
        Diag { res, diagnosis: None }
    }

    pub fn err(res: T, diagnosis: Diagnosis) -> (d: Self)
        ensures
            d.res == res,
            d.diagnosis == Some(diagnosis),
    {
        Diag { res, diagnosis: Some(diagnosis) }
    }

    /// `Err` with the diagnostic when there is one, `Ok` with the result otherwise.
    pub fn into_result(self) -> (r: Result<T, Diagnosis>)
        ensures
            r == match self.diagnosis {
                Some(d) => Err::<T, Diagnosis>(d),
                None => Ok(self.res),
            },
    {
        match self.diagnosis {
            Some(diagnosis) => Err(diagnosis),
            None => Ok(self.res),
        }
    }

    /// Reports the diagnostic to `collector` and hands back the result.
    pub fn collect<C: DiagCollector>(self, collector: &mut C, span: &Span) -> (r: T)
        ensures
            r == self.res,
            final(collector).spec_diags() == recorded(old(collector).spec_diags(), self.diagnosis, *span),
            final(collector).frame(*old(collector)),
    {
        collector.add_diag(self, span)
    }
}

/// The diagnostics after `diagnosis` was reported at `span`: nothing is
/// recorded for an absent or poisoned diagnosis (its cause was reported already).
pub open spec fn recorded(diags: Seq<DiagnosisNode>, diagnosis: Option<Diagnosis>, span: Span) -> Seq<DiagnosisNode> {
    match diagnosis {
        None => diags,
        Some(Diagnosis::Poisoned) => diags,
        Some(d) => diags.push(DiagnosisNode { span, inner: d }),
    }
}

/// Anything that keeps a list of diagnostics.
pub trait DiagCollector: Sized {
    spec fn spec_diags(&self) -> Seq<DiagnosisNode>;

    /// Everything but the diagnostics is as in `old`.
    spec fn frame(&self, old: Self) -> bool;

    proof fn lemma_frame_refl(&self)
        ensures
            self.frame(*self),
    ;

    fn push_diagnosis(&mut self, node: DiagnosisNode)
        ensures
            final(self).spec_diags() == old(self).spec_diags().push(node),
            final(self).frame(*old(self)),
    ;

    fn add_diag<T>(&mut self, diag: Diag<T>, span: &Span) -> (r: T)
        ensures
            r == diag.res,
            final(self).spec_diags() == recorded(old(self).spec_diags(), diag.diagnosis, *span),
            final(self).frame(*old(self)),
    {
        match diag.diagnosis {
            Some(Diagnosis::Poisoned) | None => {
                proof {
                    self.lemma_frame_refl();
                }
            },
            Some(diagnosis) => self.push_diagnosis(DiagnosisNode::new(diagnosis, *span)),
        }
        diag.res
    }
}

pub const MAX_EXPECTED: usize = 5;

/// Token kinds, as indices into the parser's token-name table: the structural
/// tokens `;` `,` `)` `]` `}` come first, then the end of input.
pub const CLOSE_BRACE: usize = 4;

pub const END_OF_FILE: usize = 5;

pub open spec fn spec_is_structural(t: usize) -> bool {
    t < 5
}

/// The structural tokens of `names`, in order.
pub open spec fn structural_of(names: Seq<usize>) -> Seq<usize> {
    names.filter(|t: usize| spec_is_structural(t))
}

/// What a syntax error reports as expected: all candidates when there are at
/// most five; otherwise only the structural ones, or nothing when there are
/// more than five of those, or when the only one is a `}` and the input has
/// not ended.
pub open spec fn spec_expected(found: usize, names: Seq<usize>) -> Seq<usize> {
    if names.len() <= MAX_EXPECTED {
        names
    } else {
        let structural = structural_of(names);
        if structural.len() > MAX_EXPECTED || (structural == seq![CLOSE_BRACE] && found != END_OF_FILE) {
            Seq::empty()
        } else {
            structural
        }
    }
}

/// Up to five token kinds a parser expected.
#[derive(Clone, Copy, Debug)]
pub struct ExpectedTokens {
    pub names: [usize; 5],
    pub len: usize,
}

impl ExpectedTokens {
    pub open spec fn view(self) -> Seq<usize> {
        self.names@.subrange(0, self.len as int)
    }

    pub open spec fn wf(self) -> bool {
        self.len <= MAX_EXPECTED
    }

    pub fn new(found: usize, names: &Vec<usize>) -> (e: Self)
        ensures
            e.wf(),
            e.view() == spec_expected(found, names@),
    {
        if names.len() <= MAX_EXPECTED {
            return Self::from_slice(names);
        }
        let mut structural: Vec<usize> = Vec::new();
        let mut i: usize = 0;
        while i < names.len()
            invariant
                i <= names@.len(),
                structural@ == structural_of(names@.subrange(0, i as int)),
            decreases names@.len() - i,
        {
            proof {
                let s = names@.subrange(0, i as int + 1);
                assert(s.drop_last() =~= names@.subrange(0, i as int));
                reveal_with_fuel(Seq::filter, 1);
            }
            if names[i] < 5 {
                structural.push(names[i]);
            }
            i += 1;
        }
        assert(names@.subrange(0, names@.len() as int) =~= names@);
        if structural.len() > MAX_EXPECTED || (structural.len() == 1 && structural[0] == CLOSE_BRACE
            && found != END_OF_FILE) {
            proof {
                if structural.len() == 1 && structural[0] == CLOSE_BRACE {
                    assert(structural@ =~= seq![CLOSE_BRACE]);
                }
            }
            return Self::from_slice(&Vec::new());
        }
        proof {
            if structural@ == seq![CLOSE_BRACE] {
                assert(structural@[0] == CLOSE_BRACE);
            }
        }
        Self::from_slice(&structural)
    }

    fn from_slice(names: &Vec<usize>) -> (e: Self)
        requires
            names@.len() <= MAX_EXPECTED,
        ensures
            e.wf(),
            e.view() == names@,
    {
        let mut buf = [0usize; 5];
        let mut i: usize = 0;
        while i < names.len()
            invariant
                names@.len() <= 5,
                i <= names@.len(),
                forall|j: int| 0 <= j < i ==> buf@[j] == names@[j],
            decreases names@.len() - i,
        {
            buf[i] = names[i];
            i += 1;
        }
        let e = ExpectedTokens { names: buf, len: names.len() };
        assert(e.view() =~= names@);
        e
    }

    pub fn is_empty(&self) -> (b: bool)
        ensures
            b == (self.len == 0),
    {
        self.len == 0
    }
}

} // verus!
