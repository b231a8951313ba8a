//! How types and the kinds of symbols read in diagnostics.

use vstd::prelude::*;

use crate::ast::Tag;
use crate::semantic::model::function_def::ParamTypes;
use crate::semantic::model::resolved_type::{QualifiedType, ResolvedType};
use crate::semantic::model::symbol::{Definition, Duration, Linkage, SymbolKind};
use crate::semantic::sema::Sema;

verus! {

/// The decimal digit `d`.
pub open spec fn digit_text(d: nat) -> Seq<char> {
    if d == 0 {
        "0"@
    } else if d == 1 {
        "1"@
    } else if d == 2 {
        "2"@
    } else if d == 3 {
        "3"@
    } else if d == 4 {
        "4"@
    } else if d == 5 {
        "5"@
    } else if d == 6 {
        "6"@
    } else if d == 7 {
        "7"@
    } else if d == 8 {
        "8"@
    } else {
        "9"@
    }
}

/// `n` written in decimal.
pub open spec fn decimal_text(n: nat) -> Seq<char>
    decreases n,
{
    if n < 10 {
        digit_text(n)
    } else {
        decimal_text(n / 10) + digit_text(n % 10)
    }
}

fn digit(d: usize) -> (s: &'static str)
    requires
        d < 10,
    ensures
        s@ == digit_text(d as nat),
{
    if d == 0 {
        "0"
    } else if d == 1 {
        "1"
    } else if d == 2 {
        "2"
    } else if d == 3 {
        "3"
    } else if d == 4 {
        "4"
    } else if d == 5 {
        "5"
    } else if d == 6 {
        "6"
    } else if d == 7 {
        "7"
    } else if d == 8 {
        "8"
    } else {
        "9"
    }
}

/// `n` written in decimal.
pub fn decimal(n: usize) -> (s: String)
    ensures
        s@ == decimal_text(n as nat),
    decreases n,
{
    if n < 10 {
        String::from_str(digit(n))
    } else {
        let mut s = decimal(n / 10);
        s.append(digit(n % 10));
        s
    }
}

/// The word for a kind of symbol.
pub open spec fn kind_text(k: SymbolKind) -> Seq<char> {
    match k {
        SymbolKind::Variable => "variable"@,
        SymbolKind::Function => "function"@,
        SymbolKind::Parameter => "parameter"@,
        SymbolKind::Struct => "struct"@,
        SymbolKind::Enum => "enum"@,
        SymbolKind::Union => "union"@,
        SymbolKind::Member => "member"@,
        SymbolKind::Label => "label"@,
        SymbolKind::Typedef => "typedef"@,
        SymbolKind::Variant => "variant"@,
    }
}

impl SymbolKind {
    pub fn text(&self) -> (s: &'static str)
        ensures
            s@ == kind_text(*self),
    {
        match self {
            SymbolKind::Variable => "variable",
            SymbolKind::Function => "function",
            SymbolKind::Parameter => "parameter",
            SymbolKind::Struct => "struct",
            SymbolKind::Enum => "enum",
            SymbolKind::Union => "union",
            SymbolKind::Member => "member",
            SymbolKind::Label => "label",
            SymbolKind::Typedef => "typedef",
            SymbolKind::Variant => "variant",
        }
    }
}

impl Linkage {
    pub fn text(&self) -> (s: &'static str)
        ensures
            s@ == match *self {
                Linkage::NoLinkage => "none"@,
                Linkage::External => "external"@,
                Linkage::Internal => "internal"@,
            },
    {
        match self {
            Linkage::NoLinkage => "none",
            Linkage::External => "external",
            Linkage::Internal => "internal",
        }
    }
}

impl Duration {
    pub fn text(&self) -> (s: &'static str)
        ensures
            s@ == match *self {
                Duration::NoDuration => "none"@,
                Duration::Static => "static"@,
                Duration::Automatic => "automatic"@,
            },
    {
        match self {
            Duration::NoDuration => "none",
            Duration::Static => "static",
            Duration::Automatic => "automatic",
        }
    }
}

impl Definition {
    pub fn text(&self) -> (s: &'static str)
        ensures
            s@ == match *self {
                Definition::Declaration => "declaration"@,
                Definition::Tentative => "tentative"@,
                Definition::Definition => "definition"@,
            },
    {
        match self {
            Definition::Declaration => "declaration",
            Definition::Tentative => "tentative",
            Definition::Definition => "definition",
        }
    }
}

/// The text of identifier `id`; nothing for an identifier the table lacks.
pub open spec fn name_text(names: Seq<String>, id: usize) -> Seq<char> {
    if id < names.len() {
        names[id as int]@
    } else {
        Seq::empty()
    }
}

pub fn name_of(names: &Vec<String>, id: usize) -> (s: String)
    ensures
        s@ == name_text(names@, id),
{
    if id < names.len() {
        names[id].clone()
    } else {
        String::new()
    }
}

/// The qualifiers written before a type.
pub open spec fn qualifier_text(q: QualifiedType) -> Seq<char> {
    (if q.is_const { "const "@ } else { Seq::empty() }) + (if q.is_volatile { "volatile "@ } else { Seq::empty() })
}

/// The innermost element type of nested arrays of element `elem`.
pub open spec fn array_base(sema: &Sema, elem: QualifiedType) -> QualifiedType
    decreases elem.id,
{
    match sema.ty(elem.id) {
        ResolvedType::Array { elem: inner, .. } => if inner.id < elem.id { array_base(sema, inner) } else { elem },
        _ => elem,
    }
}

/// The dimensions of an array of `len` elements of `elem`, outermost first.
pub open spec fn dims_text(sema: &Sema, elem: QualifiedType, len: Option<usize>) -> Seq<char>
    decreases elem.id,
{
    "["@ + (match len {
        Some(n) => decimal_text(n as nat),
        None => Seq::empty(),
    }) + "]"@ + match sema.ty(elem.id) {
        ResolvedType::Array { elem: inner, len: l } => if inner.id < elem.id { dims_text(sema, inner, l) } else { Seq::empty() },
        _ => Seq::empty(),
    }
}

/// The innermost element type comes no later than the element type.
pub proof fn lemma_array_base_below(sema: &Sema, elem: QualifiedType)
    ensures
        array_base(sema, elem).id <= elem.id,
    decreases elem.id,
{
    if let ResolvedType::Array { elem: inner, .. } = sema.ty(elem.id) {
        if inner.id < elem.id {
            lemma_array_base_below(sema, inner);
        }
    }
}

/// How a type reads in a diagnostic: C's spelling, pointers as a suffix,
/// and tags by kind and name.
pub open spec fn describe_text(sema: &Sema, names: Seq<String>, q: QualifiedType) -> Seq<char>
    decreases q.id, 2nat, 0nat,
{
    qualifier_text(q) + body_text(sema, names, q)
}

/// How the type of `q` reads, its qualifiers aside.
pub open spec fn body_text(sema: &Sema, names: Seq<String>, q: QualifiedType) -> Seq<char>
    decreases q.id, 1nat, 0nat,
{
    match sema.ty(q.id) {
        ResolvedType::Void => "void"@,
        ResolvedType::Char => "char"@,
        ResolvedType::SignedChar => "signed char"@,
        ResolvedType::UnsignedChar => "unsigned char"@,
        ResolvedType::Short => "short"@,
        ResolvedType::UnsignedShort => "unsigned short"@,
        ResolvedType::Int => "int"@,
        ResolvedType::UnsignedInt => "unsigned int"@,
        ResolvedType::Long => "long"@,
        ResolvedType::UnsignedLong => "unsigned long"@,
        ResolvedType::Float => "float"@,
        ResolvedType::Double => "double"@,
        ResolvedType::LongDouble => "long double"@,
        ResolvedType::Pointer(inner) => (if inner.id < q.id {
            match sema.ty(inner.id) {
                ResolvedType::Function { .. } | ResolvedType::Array { .. } => "("@ + describe_text(sema, names, inner)
                    + ")"@,
                _ => describe_text(sema, names, inner),
            }
        } else {
            Seq::empty()
        }) + " *"@,
        ResolvedType::Tag(id) => {
            let def = sema.tag(id);
            kind_text(crate::semantic::model::tag_def::spec_symbol_kind(def.kind)) + " "@ + (match def.name {
                Some(n) => name_text(names, n.id),
                None => "<anonymous>"@,
            }) + (if def.is_complete { Seq::empty() } else { " (incomplete)"@ })
        },
        ResolvedType::Array { elem, len } => (if elem.id < q.id {
            proof {
                lemma_array_base_below(sema, elem);
            }
            describe_text(sema, names, array_base(sema, elem))
        } else {
            Seq::empty()
        }) + dims_text(sema, elem, len),
        ResolvedType::Function { ret, params } => (if ret.id < q.id {
            describe_text(sema, names, ret)
        } else {
            Seq::empty()
        }) + "("@ + (match params {
            ParamTypes::Prototype { params, is_variadic } => (if params@.len() == 0 {
                "void"@
            } else {
                params_text(sema, names, params@, q.id as int)
            }) + (if is_variadic { ", ..."@ } else { Seq::empty() }),
            ParamTypes::Unspecified => Seq::empty(),
        }) + ")"@,
    }
}

/// The parameter types, described and separated by commas; those not below
/// `bound` are left out.
pub open spec fn params_text(sema: &Sema, names: Seq<String>, ps: Seq<QualifiedType>, bound: int) -> Seq<char>
    decreases bound, 0nat, ps.len(),
{
    if ps.len() == 0 {
        Seq::empty()
    } else {
        let last = if ps.last().id < bound { describe_text(sema, names, ps.last()) } else { Seq::empty() };
        if ps.len() == 1 {
            last
        } else {
            params_text(sema, names, ps.drop_last(), bound) + ", "@ + last
        }
    }
}

impl QualifiedType {
    /// How the type reads in a diagnostic.
    pub fn describe(&self, sema: &Sema, names: &Vec<String>) -> (s: String)
        requires
            sema.wf(),
            self.id < sema.ntypes(),
        ensures
            s@ == describe_text(sema, names@, *self),
        decreases self.id, 2nat, 0nat,
    {
        let mut out = String::new();
        if self.is_const {
            out.append("const ");
        }
        if self.is_volatile {
            out.append("volatile ");
        }
        let body = self.body(sema, names);
        out.append(body.as_str());
        proof {
            assert(out@ =~= describe_text(sema, names@, *self));
        }
        out
    }

    /// How the type reads, its qualifiers aside.
    fn body(&self, sema: &Sema, names: &Vec<String>) -> (s: String)
        requires
            sema.wf(),
            self.id < sema.ntypes(),
        ensures
            s@ == body_text(sema, names@, *self),
        decreases self.id, 1nat, 0nat,
    {
        let ty = sema.types.get(self.id);
        proof {
            assert(sema.ty(self.id).refs_below(self.id as int));
        }
        match ty {
            ResolvedType::Void => String::from_str("void"),
            ResolvedType::Char => String::from_str("char"),
            ResolvedType::SignedChar => String::from_str("signed char"),
            ResolvedType::UnsignedChar => String::from_str("unsigned char"),
            ResolvedType::Short => String::from_str("short"),
            ResolvedType::UnsignedShort => String::from_str("unsigned short"),
            ResolvedType::Int => String::from_str("int"),
            ResolvedType::UnsignedInt => String::from_str("unsigned int"),
            ResolvedType::Long => String::from_str("long"),
            ResolvedType::UnsignedLong => String::from_str("unsigned long"),
            ResolvedType::Float => String::from_str("float"),
            ResolvedType::Double => String::from_str("double"),
            ResolvedType::LongDouble => String::from_str("long double"),
            ResolvedType::Pointer(inner) => {
                let mut out = String::new();
                let inner_text = inner.describe(sema, names);
                if sema.types.get(inner.id).is_function() || matches!(sema.types.get(inner.id), ResolvedType::Array { .. }) {
                    out.append("(");
                    out.append(inner_text.as_str());
                    out.append(")");
                } else {
                    out.append(inner_text.as_str());
                }
                out.append(" *");
                proof {
                    assert(out@ =~= body_text(sema, names@, *self));
                }
                out
            },
            ResolvedType::Tag(id) => {
                let mut out = String::new();
                let def = sema.tags.get(*id);
                out.append(def.kind().text());
                out.append(" ");
                match def.name {
                    Some(n) => {
                        let name = name_of(names, n.id);
                        out.append(name.as_str());
                    },
                    None => out.append("<anonymous>"),
                }
                if !def.is_complete {
                    out.append(" (incomplete)");
                }
                proof {
                    assert(out@ =~= body_text(sema, names@, *self));
                }
                out
            },
            ResolvedType::Array { elem, len } => {
                let mut out = String::new();
                let base = base_of(sema, *elem);
                proof {
                    lemma_array_base_below(sema, *elem);
                }
                let base_text = base.describe(sema, names);
                let dims = dims_of(sema, *elem, *len);
                out.append(base_text.as_str());
                out.append(dims.as_str());
                proof {
                    assert(out@ =~= body_text(sema, names@, *self));
                }
                out
            },
            ResolvedType::Function { ret, params } => {
                let mut out = String::new();
                let ret_text = ret.describe(sema, names);
                out.append(ret_text.as_str());
                out.append("(");
                match params {
                    ParamTypes::Prototype { params, is_variadic } => {
                        if params.len() == 0 {
                            out.append("void");
                        } else {
                            let list = describe_params(sema, names, params, Ghost(self.id as int));
                            out.append(list.as_str());
                        }
                        if *is_variadic {
                            out.append(", ...");
                        }
                    },
                    ParamTypes::Unspecified => {},
                }
                out.append(")");
                proof {
                    assert(out@ =~= body_text(sema, names@, *self));
                }
                out
            },
        }
    }
}

/// The innermost element type of nested arrays of element `elem`.
fn base_of(sema: &Sema, elem: QualifiedType) -> (b: QualifiedType)
    requires
        sema.wf(),
        elem.id < sema.ntypes(),
    ensures
        b == array_base(sema, elem),
        b.id < sema.ntypes(),
    decreases elem.id,
{
    match sema.types.get(elem.id) {
        ResolvedType::Array { elem: inner, .. } => base_of(sema, *inner),
        _ => elem,
    }
}

fn dims_of(sema: &Sema, elem: QualifiedType, len: Option<usize>) -> (s: String)
    requires
        sema.wf(),
        elem.id < sema.ntypes(),
    ensures
        s@ == dims_text(sema, elem, len),
    decreases elem.id,
{
    let mut out = String::from_str("[");
    if let Some(n) = len {
        let d = decimal(n);
        out.append(d.as_str());
    }
    out.append("]");
    if let ResolvedType::Array { elem: inner, len: l } = sema.types.get(elem.id) {
        let rest = dims_of(sema, *inner, *l);
        out.append(rest.as_str());
    }
    proof {
        assert(out@ =~= dims_text(sema, elem, len));
    }
    out
}

fn describe_params(sema: &Sema, names: &Vec<String>, params: &Vec<QualifiedType>, Ghost(bound): Ghost<int>) -> (s: String)
    requires
        sema.wf(),
        bound <= sema.ntypes(),
        forall|i: int| 0 <= i < params@.len() ==> #[trigger] params@[i].id < bound,
    ensures
        s@ == params_text(sema, names@, params@, bound),
    decreases bound, 0nat, 1nat,
{
    let mut out = String::new();
    let mut i: usize = 0;
    while i < params.len()
        invariant
            sema.wf(),
            bound <= sema.ntypes(),
            forall|j: int| 0 <= j < params@.len() ==> #[trigger] params@[j].id < bound,
            i <= params@.len(),
            out@ == params_text(sema, names@, params@.subrange(0, i as int), bound),
        decreases params@.len() - i,
    {
        let text = params[i].describe(sema, names);
        let ghost before = out@;
        if i > 0 {
            out.append(", ");
        }
        out.append(text.as_str());
        proof {
            let s = params@.subrange(0, i + 1);
            assert(s.drop_last() =~= params@.subrange(0, i as int));
            assert(s.last() == params@[i as int]);
            if i > 0 {
                assert(out@ =~= before + ", "@ + text@);
            } else {
                assert(before =~= Seq::<char>::empty());
                assert(out@ =~= text@);
            }
        }
        i = i + 1;
    }
    proof {
        assert(params@.subrange(0, params@.len() as int) =~= params@);
    }
    out
}

} // verus!
