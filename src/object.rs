//! Runtime values and compiled chunks.
use vstd::prelude::*;
use crate::bytecode::Opcode;
use crate::compiler::Compiler;
use crate::number::Number;
use crate::types::{QualifiedName, Type, TypeView};

verus! {

/// A runtime value.
#[derive(Debug)]
pub enum Object {
    Num(Number),
    String(String),
    Struct(Vec<(QualifiedName, Object)>),
    Array(Vec<Object>),
    /// Arity, name, body and declared return type of a function.
    Function(u8, String, Chunk, Type),
    Nil,
}

/// A compiled unit: instructions and the constants they refer to.
#[derive(Debug)]
pub struct Chunk {
    pub compiler: Compiler,
    pub code: Vec<Opcode>,
    pub constants: Vec<Object>,
    pub debug: bool,
}

/// Mathematical model of an `Object`.
pub enum ObjectView {
    Num(Number),
    Text(Seq<char>),
    Struct(Seq<(Seq<char>, ObjectView)>),
    Array(Seq<ObjectView>),
    Function(nat, Seq<char>, ChunkView, TypeView),
    Nil,
}

/// Mathematical model of a `Chunk`.
pub struct ChunkView {
    pub code: Seq<Opcode>,
    pub constants: Seq<ObjectView>,
}

pub open spec fn fields_view(f: Seq<(QualifiedName, Object)>) -> Seq<(Seq<char>, ObjectView)>
    decreases f,
{
    Seq::new(
        f.len(),
        |i: int|
            if 0 <= i < f.len() {
                (f[i].0.0@, object_view(f[i].1))
            } else {
                (Seq::empty(), ObjectView::Nil)
            },
    )
}

pub open spec fn objects_view(s: Seq<Object>) -> Seq<ObjectView>
    decreases s,
{
    Seq::new(s.len(), |i: int| if 0 <= i < s.len() { object_view(s[i]) } else { ObjectView::Nil })
}

pub open spec fn object_view(o: Object) -> ObjectView
    decreases o,
{
    match o {
        Object::Num(n) => ObjectView::Num(n),
        Object::String(s) => ObjectView::Text(s@),
        Object::Struct(f) => ObjectView::Struct(fields_view(f@)),
        Object::Array(a) => ObjectView::Array(objects_view(a@)),
        Object::Function(arity, name, chunk, ty) => ObjectView::Function(
            arity as nat,
            name@,
            chunk_view(chunk),
            ty@,
        ),
        Object::Nil => ObjectView::Nil,
    }
}

pub open spec fn chunk_view(c: Chunk) -> ChunkView
    decreases c,
{
    ChunkView { code: c.code@, constants: objects_view(c.constants@) }
}

pub proof fn lemma_objects_view_push(s: Seq<Object>, o: Object)
    ensures
        objects_view(s.push(o)) == objects_view(s).push(o@),
{
    assert(objects_view(s.push(o)) =~= objects_view(s).push(o@));
}

pub proof fn lemma_objects_view_subrange(s: Seq<Object>, i: int, j: int)
    requires
        0 <= i <= j <= s.len(),
    ensures
        objects_view(s.subrange(i, j)) == objects_view(s).subrange(i, j),
{
    assert(objects_view(s.subrange(i, j)) =~= objects_view(s).subrange(i, j));
}

pub proof fn lemma_objects_view_update(s: Seq<Object>, i: int, o: Object)
    requires
        0 <= i < s.len(),
    ensures
        objects_view(s.update(i, o)) == objects_view(s).update(i, o@),
{
    assert(objects_view(s.update(i, o)) =~= objects_view(s).update(i, o@));
}

pub proof fn lemma_objects_view_index(s: Seq<Object>, i: int)
    requires
        0 <= i < s.len(),
    ensures
        objects_view(s).len() == s.len(),
        objects_view(s)[i] == s[i]@,
{
}

impl View for Object {
    type V = ObjectView;

    open spec fn view(&self) -> ObjectView {
        object_view(*self)
    }
}

impl View for Chunk {
    type V = ChunkView;

    open spec fn view(&self) -> ChunkView {
        chunk_view(*self)
    }
}

impl Object {
    /// The text of a string value.
    pub fn as_str(&self) -> (r: String)
        requires
            self is String,
        ensures
            self@ == ObjectView::Text(r@),
    {
        match self {
            Object::String(s) => s.clone(),
            _ => String::new(),
        }
    }

    /// An independent copy of the value.
    pub fn deep_clone(&self) -> (r: Object)
        ensures
            r@ == self@,
        decreases self,
    {
        match self {
            Object::Num(n) => Object::Num(*n),
            Object::String(s) => Object::String(s.clone()),
            Object::Struct(f) => {
                let mut v: Vec<(QualifiedName, Object)> = Vec::new();
                let mut i: usize = 0;
                while i < f.len()
                    invariant
                        *self == Object::Struct(*f),
                        i <= f@.len(),
                        v@.len() == i,
                        forall|j: int|
                            0 <= j < i ==> (#[trigger] v@[j]).0.0@ == f@[j].0.0@ && object_view(v@[j].1)
                                == object_view(f@[j].1),
                    decreases f@.len() - i,
                {
                    proof {
                        assert(decreases_to!(*self => self->Struct_0));
                        assert(decreases_to!(*f => f@));
                        assert(decreases_to!(f@ => f@[i as int]));
                        assert(decreases_to!(f@[i as int] => f@[i as int].1));
                    }
                    let text = f[i].0.0.clone();
                    let value = f[i].1.deep_clone();
                    v.push((QualifiedName(text), value));
                    i = i + 1;
                }
                assert(fields_view(v@).len() == v@.len());
                assert(forall|j: int|
                    0 <= j < v@.len() ==> fields_view(v@)[j] == (v@[j].0.0@, object_view(v@[j].1)));
                assert(fields_view(v@) =~= fields_view(f@));
                Object::Struct(v)
            },
            Object::Array(a) => {
                let mut v: Vec<Object> = Vec::new();
                let mut i: usize = 0;
                while i < a.len()
                    invariant
                        *self == Object::Array(*a),
                        i <= a@.len(),
                        v@.len() == i,
                        forall|j: int| 0 <= j < i ==> #[trigger] object_view(v@[j]) == object_view(a@[j]),
                    decreases a@.len() - i,
                {
                    proof {
                        assert(decreases_to!(*self => self->Array_0));
                        assert(decreases_to!(*a => a@));
                        assert(decreases_to!(a@ => a@[i as int]));
                    }
                    v.push(a[i].deep_clone());
                    i = i + 1;
                }
                assert(objects_view(v@).len() == v@.len());
                assert(forall|j: int| 0 <= j < v@.len() ==> objects_view(v@)[j] == object_view(v@[j]));
                assert(objects_view(v@) =~= objects_view(a@));
                Object::Array(v)
            },
            Object::Function(arity, name, chunk, ty) => {
                proof {
                    assert(decreases_to!(*self => self->Function_2));
                }
                Object::Function(*arity, name.clone(), chunk.deep_clone(), ty.deep_clone())
            },
            Object::Nil => Object::Nil,
        }
    }
}

impl Chunk {
    /// An independent copy of the chunk.
    pub fn deep_clone(&self) -> (r: Chunk)
        ensures
            r@ == self@,
        decreases self,
    {
        let mut constants: Vec<Object> = Vec::new();
        let mut i: usize = 0;
        while i < self.constants.len()
            invariant
                i <= self.constants@.len(),
                constants@.len() == i,
                forall|j: int|
                    0 <= j < i ==> #[trigger] object_view(constants@[j]) == object_view(
                        self.constants@[j],
                    ),
            decreases self.constants@.len() - i,
        {
            proof {
                assert(decreases_to!(*self => self.constants));
                assert(decreases_to!(self.constants => self.constants@));
                assert(decreases_to!(self.constants@ => self.constants@[i as int]));
            }
            constants.push(self.constants[i].deep_clone());
            i = i + 1;
        }
        assert(objects_view(constants@).len() == constants@.len());
        assert(forall|j: int|
            0 <= j < constants@.len() ==> objects_view(constants@)[j] == object_view(constants@[j]));
        assert(objects_view(constants@) =~= objects_view(self.constants@));
        Chunk {
            compiler: self.compiler.deep_clone(),
            code: self.code.clone(),
            constants,
            debug: self.debug,
        }
    }
}

} // verus!
