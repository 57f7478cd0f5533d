//! Static types of the language and the compatibility relation between them.
use vstd::prelude::*;

verus! {

/// The scalar types built into the language.
#[derive(Clone, Copy, Debug, PartialEq, Eq, Structural)]
pub enum BuiltinType {
    Unit,
    Num,
    String,
    Array,
}

/// A (possibly dotted) name as written in the source.
#[derive(Clone, Debug)]
pub struct QualifiedName(pub String);

/// One `name: Type` entry of a struct declaration.
#[derive(Debug)]
pub struct FieldDeclaration(pub QualifiedName, pub Type);

/// A static type.
#[derive(Debug)]
pub enum Type {
    Struct(Vec<FieldDeclaration>),
    Nullable(Box<Type>),
    Nested(Box<Type>, Box<Type>),
    Explicit(QualifiedName),
    Fn(Box<Type>),
    Builtin(BuiltinType),
    Infer,
}

/// Mathematical model of a `Type`: names become character sequences.
pub enum TypeView {
    Struct(Seq<(Seq<char>, TypeView)>),
    Nullable(Box<TypeView>),
    Nested(Box<TypeView>, Box<TypeView>),
    Explicit(Seq<char>),
    Fn(Box<TypeView>),
    Builtin(BuiltinType),
    Infer,
}

pub open spec fn decls_view(d: Seq<FieldDeclaration>) -> Seq<(Seq<char>, TypeView)>
    decreases d,
{
    Seq::new(
        d.len(),
        |i: int|
            if 0 <= i < d.len() {
                (d[i].0.0@, type_view(d[i].1))
            } else {
                (Seq::empty(), TypeView::Infer)
            },
    )
}

pub open spec fn type_view(t: Type) -> TypeView
    decreases t,
{
    match t {
        Type::Struct(d) => TypeView::Struct(decls_view(d@)),
        Type::Nullable(b) => TypeView::Nullable(Box::new(type_view(*b))),
        Type::Nested(b, n) => TypeView::Nested(Box::new(type_view(*b)), Box::new(type_view(*n))),
        Type::Explicit(q) => TypeView::Explicit(q.0@),
        Type::Fn(r) => TypeView::Fn(Box::new(type_view(*r))),
        Type::Builtin(b) => TypeView::Builtin(b),
        Type::Infer => TypeView::Infer,
    }
}

impl View for Type {
    type V = TypeView;

    open spec fn view(&self) -> TypeView {
        type_view(*self)
    }
}

/// `declared` accepts a value of type `actual`. Struct, named and function types
/// accept only the identical type. Otherwise identical types agree, `Infer` on either
/// side accepts anything, a nullable type accepts its inner type, and nested types
/// compare base and parameter; every other pair is refused.
pub open spec fn inferable(declared: TypeView, actual: TypeView) -> bool
    decreases declared,
{
    match declared {
        TypeView::Struct(_) | TypeView::Explicit(_) | TypeView::Fn(_) => declared == actual,
        _ => if declared == actual || actual == TypeView::Infer {
            true
        } else {
            match declared {
                TypeView::Infer => true,
                TypeView::Nullable(t) => match actual {
                    TypeView::Nullable(o) => inferable(*t, *o),
                    _ => inferable(*t, actual),
                },
                TypeView::Nested(b, n) => match actual {
                    TypeView::Nested(ob, on) => inferable(*b, *ob) && inferable(*n, *on),
                    _ => false,
                },
                _ => false,
            }
        },
    }
}

pub open spec fn builtin_text(b: BuiltinType) -> Seq<char> {
    match b {
        BuiltinType::Unit => "Unit"@,
        BuiltinType::Num => "Num"@,
        BuiltinType::String => "String"@,
        BuiltinType::Array => "Array"@,
    }
}

/// Text of the field list of a struct type: `name:Type,` for each field.
pub open spec fn decls_text(d: Seq<(Seq<char>, TypeView)>) -> Seq<char>
    decreases d,
{
    if d.len() == 0 {
        Seq::empty()
    } else {
        decls_text(d.drop_last()) + d.last().0 + ":"@ + type_text(d.last().1) + ","@
    }
}

/// How a type is written in diagnostics.
pub open spec fn type_text(t: TypeView) -> Seq<char>
    decreases t,
{
    match t {
        TypeView::Fn(r) => "(): "@ + type_text(*r),
        TypeView::Struct(d) => "("@ + decls_text(d) + ")"@,
        TypeView::Nullable(i) => type_text(*i) + "?"@,
        TypeView::Nested(b, n) => type_text(*b) + "<"@ + type_text(*n) + ">"@,
        TypeView::Explicit(q) => q,
        TypeView::Builtin(b) => builtin_text(b),
        TypeView::Infer => "_"@,
    }
}

/// The type that a type name written in the source stands for.
pub open spec fn named_type(n: Seq<char>) -> TypeView {
    if n == "String"@ {
        TypeView::Builtin(BuiltinType::String)
    } else if n == "Number"@ {
        TypeView::Builtin(BuiltinType::Num)
    } else if n == "Array"@ {
        TypeView::Builtin(BuiltinType::Array)
    } else {
        TypeView::Explicit(n)
    }
}

impl BuiltinType {
    pub fn print(&self) -> (r: String)
        ensures
            r@ == builtin_text(*self),
    {
        match self {
            BuiltinType::Unit => String::from_str("Unit"),
            BuiltinType::Num => String::from_str("Num"),
            BuiltinType::String => String::from_str("String"),
            BuiltinType::Array => String::from_str("Array"),
        }
    }
}

impl Type {
    /// An independent copy of the type.
    pub fn deep_clone(&self) -> (r: Type)
        ensures
            r@ == self@,
        decreases self,
    {
        match self {
            Type::Struct(d) => {
                let mut v: Vec<FieldDeclaration> = Vec::new();
                let mut i: usize = 0;
                while i < d.len()
                    invariant
                        *self == Type::Struct(*d),
                        i <= d@.len(),
                        v@.len() == i,
                        forall|j: int|
                            0 <= j < i ==> #[trigger] v@[j].0.0@ == d@[j].0.0@ && v@[j].1@
                                == d@[j].1@,
                    decreases d@.len() - i,
                {
                    proof {
                        assert(decreases_to!(*self => self->Struct_0));
                        assert(decreases_to!(*d => d@));
                        assert(decreases_to!(d@ => d@[i as int]));
                        assert(decreases_to!(d@[i as int] => d@[i as int].1));
                    }
                    let name = QualifiedName(d[i].0.0.clone());
                    v.push(FieldDeclaration(name, d[i].1.deep_clone()));
                    i = i + 1;
                }
                assert(decls_view(v@) =~= decls_view(d@));
                Type::Struct(v)
            },
            Type::Nullable(b) => Type::Nullable(Box::new(b.deep_clone())),
            Type::Nested(b, n) => Type::Nested(Box::new(b.deep_clone()), Box::new(n.deep_clone())),
            Type::Explicit(q) => Type::Explicit(QualifiedName(q.0.clone())),
            Type::Fn(r) => Type::Fn(Box::new(r.deep_clone())),
            Type::Builtin(b) => Type::Builtin(*b),
            Type::Infer => Type::Infer,
        }
    }

    pub fn is_infer(&self) -> (r: bool)
        ensures
            r == (self@ == TypeView::Infer),
    {
        match self {
            Type::Infer => true,
            _ => false,
        }
    }

    /// Structural equality of two types.
    pub fn same_type(&self, other: &Type) -> (r: bool)
        ensures
            r == (self@ == other@),
        decreases self,
    {
        match (self, other) {
            (Type::Struct(a), Type::Struct(b)) => {
                if a.len() != b.len() {
                    assert(decls_view(a@).len() != decls_view(b@).len());
                    return false;
                }
                let mut i: usize = 0;
                while i < a.len()
                    invariant
                        *self == Type::Struct(*a),
                        *other == Type::Struct(*b),
                        i <= a@.len(),
                        a@.len() == b@.len(),
                        forall|j: int|
                            0 <= j < i ==> #[trigger] decls_view(a@)[j] == decls_view(b@)[j],
                    decreases a@.len() - i,
                {
                    proof {
                        assert(decreases_to!(*self => self->Struct_0));
                        assert(decreases_to!(*a => a@));
                        assert(decreases_to!(a@ => a@[i as int]));
                        assert(decreases_to!(a@[i as int] => a@[i as int].1));
                    }
                    let same_name = a[i].0.0 == b[i].0.0;
                    if !same_name {
                        assert(decls_view(a@)[i as int].0 != decls_view(b@)[i as int].0);
                        return false;
                    }
                    if !a[i].1.same_type(&b[i].1) {
                        assert(decls_view(a@)[i as int].1 != decls_view(b@)[i as int].1);
                        return false;
                    }
                    i = i + 1;
                }
                assert(decls_view(a@) =~= decls_view(b@));
                true
            },
            (Type::Nullable(a), Type::Nullable(b)) => a.same_type(b),
            (Type::Nested(a, m), Type::Nested(b, n)) => a.same_type(b) && m.same_type(n),
            (Type::Explicit(a), Type::Explicit(b)) => a.0 == b.0,
            (Type::Fn(a), Type::Fn(b)) => a.same_type(b),
            (Type::Builtin(a), Type::Builtin(b)) => *a == *b,
            (Type::Infer, Type::Infer) => true,
            _ => false,
        }
    }

    /// The type that the name `name` stands for in a type annotation.
    pub fn explicit(name: QualifiedName) -> (r: Type)
        ensures
            r@ == named_type(name.0@),
    {
        let string = String::from_str("String");
        let number = String::from_str("Number");
        let array = String::from_str("Array");
        if name.0 == string {
            Type::Builtin(BuiltinType::String)
        } else if name.0 == number {
            Type::Builtin(BuiltinType::Num)
        } else if name.0 == array {
            Type::Builtin(BuiltinType::Array)
        } else {
            Type::Explicit(name)
        }
    }

    /// How the type is written in diagnostics.
    pub fn print(&self) -> (r: String)
        ensures
            r@ == type_text(self@),
        decreases self,
    {
        match self {
            Type::Fn(ty) => {
                let mut s = String::from_str("(): ");
                let inner = ty.print();
                s.append(inner.as_str());
                s
            },
            Type::Struct(decls) => {
                let mut s = String::from_str("(");
                let mut i: usize = 0;
                while i < decls.len()
                    invariant
                        *self == Type::Struct(*decls),
                        i <= decls@.len(),
                        s@ == "("@ + decls_text(decls_view(decls@).subrange(0, i as int)),
                    decreases decls@.len() - i,
                {
                    proof {
                        assert(decreases_to!(*self => self->Struct_0));
                        assert(decreases_to!(*decls => decls@));
                        assert(decreases_to!(decls@ => decls@[i as int]));
                        assert(decreases_to!(decls@[i as int] => decls@[i as int].1));
                    }
                    s.append(decls[i].0.0.as_str());
                    s.append(":");
                    let t = decls[i].1.print();
                    s.append(t.as_str());
                    s.append(",");
                    proof {
                        let dv = decls_view(decls@);
                        assert(dv.subrange(0, i + 1).drop_last() =~= dv.subrange(0, i as int));
                    }
                    i = i + 1;
                }
                s.append(")");
                assert(decls_view(decls@).subrange(0, decls@.len() as int) =~= decls_view(decls@));
                s
            },
            Type::Nullable(ty) => {
                let mut s = ty.print();
                s.append("?");
                s
            },
            Type::Nested(ty, nested) => {
                let mut s = ty.print();
                s.append("<");
                let n = nested.print();
                s.append(n.as_str());
                s.append(">");
                s
            },
            Type::Explicit(name) => name.0.clone(),
            Type::Builtin(builtin) => builtin.print(),
            Type::Infer => String::from_str("_"),
        }
    }

    /// Whether a value of type `other_ty` may stand where `self` is declared.
    pub fn can_be_inferred_from(&self, other_ty: &Type) -> (r: bool)
        ensures
            r == inferable(self@, other_ty@),
        decreases self,
    {
        match self {
            Type::Struct(_) | Type::Explicit(_) | Type::Fn(_) => return self.same_type(other_ty),
            _ => {},
        }
        if !self.same_type(other_ty) && !other_ty.is_infer() {
            match self {
                Type::Infer => true,
                Type::Nullable(t) => {
                    match other_ty {
                        Type::Nullable(other_t) => t.can_be_inferred_from(other_t),
                        _ => t.can_be_inferred_from(other_ty),
                    }
                },
                Type::Nested(base, n) => {
                    match other_ty {
                        Type::Nested(other_base, other_n) => base.can_be_inferred_from(other_base)
                            && n.can_be_inferred_from(other_n),
                        _ => false,
                    }
                },
                _ => false,
            }
        } else {
            true
        }
    }
}

} // verus!
