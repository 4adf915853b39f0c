//! The type language of the analyses: types, their model, and syscall signatures.
use vstd::prelude::*;

verus! {

/// Primitive Neo value types.
#[derive(Debug, Clone, Copy, PartialEq, Eq, Structural)]
pub enum PrimitiveType {
    Boolean,
    Integer,
    ByteString,
    String,
    ByteArray,
    Hash160,
    Hash256,
    PublicKey,
    Signature,
    ECPoint,
    Null,
}

/// A field of a struct type.
#[derive(Debug, PartialEq, Eq)]
pub struct FieldType {
    pub name: String,
    pub field_type: Type,
    pub index: usize,
    pub optional: bool,
}

/// A struct type: optional name and ordered fields.
#[derive(Debug, PartialEq, Eq)]
pub struct StructType {
    pub name: Option<String>,
    pub fields: Vec<FieldType>,
    pub is_packed: bool,
}

/// Types inferred for values of lifted code.
#[derive(Debug, PartialEq, Eq)]
pub enum Type {
    /// No value.
    Void,
    /// Not (yet) known.
    Unknown,
    /// Any value.
    Any,
    /// A primitive type.
    Primitive(PrimitiveType),
    /// Array with the given element type.
    Array(Box<Type>),
    /// Map from keys to values.
    Mapping { key: Box<Type>, value: Box<Type> },
    /// The inner type or null.
    Nullable(Box<Type>),
    /// Mutable byte buffer.
    Buffer,
    /// Struct.
    Struct(StructType),
    /// Interop interface of the named kind.
    InteropInterface(String),
    /// A named type that the analyses do not interpret.
    UserDefined(String),
    /// Function from parameter types to a return type.
    Function { parameters: Vec<Type>, return_type: Box<Type> },
    /// Inference variable.
    Variable(u32),
    /// Pointer into the script, to code of the given type.
    Pointer(Box<Type>),
}

/// Model of a field type.
pub struct FieldView {
    pub name: Seq<char>,
    pub field_type: TypeView,
    pub index: usize,
    pub optional: bool,
}

/// Model of a type: strings as character sequences, lists as sequences.
pub enum TypeView {
    Void,
    Unknown,
    Any,
    Primitive(PrimitiveType),
    Array(Box<TypeView>),
    Mapping { key: Box<TypeView>, value: Box<TypeView> },
    Nullable(Box<TypeView>),
    Buffer,
    Struct { name: Option<Seq<char>>, fields: Seq<FieldView>, is_packed: bool },
    InteropInterface(Seq<char>),
    UserDefined(Seq<char>),
    Function { parameters: Seq<TypeView>, return_type: Box<TypeView> },
    Variable(u32),
    Pointer(Box<TypeView>),
}

/// The model of a type.
pub open spec fn type_view(t: Type) -> TypeView
    decreases t, 1nat,
{
    match t {
        Type::Void => TypeView::Void,
        Type::Unknown => TypeView::Unknown,
        Type::Any => TypeView::Any,
        Type::Primitive(p) => TypeView::Primitive(p),
        Type::Array(e) => TypeView::Array(Box::new(type_view(*e))),
        Type::Mapping { key, value } => TypeView::Mapping {
            key: Box::new(type_view(*key)),
            value: Box::new(type_view(*value)),
        },
        Type::Nullable(e) => TypeView::Nullable(Box::new(type_view(*e))),
        Type::Buffer => TypeView::Buffer,
        Type::Struct(st) => TypeView::Struct {
            name: match st.name {
                Some(n) => Some(n@),
                None => None,
            },
            fields: fields_view(st.fields@),
            is_packed: st.is_packed,
        },
        Type::InteropInterface(s) => TypeView::InteropInterface(s@),
        Type::UserDefined(s) => TypeView::UserDefined(s@),
        Type::Function { parameters, return_type } => TypeView::Function {
            parameters: types_view(parameters@),
            return_type: Box::new(type_view(*return_type)),
        },
        Type::Variable(v) => TypeView::Variable(v),
        Type::Pointer(e) => TypeView::Pointer(Box::new(type_view(*e))),
    }
}

/// The models of a list of types.
pub open spec fn types_view(s: Seq<Type>) -> Seq<TypeView>
    decreases s, 0nat,
{
    if s.len() == 0 {
        Seq::empty()
    } else {
        seq![type_view(s[0])] + types_view(s.drop_first())
    }
}

/// The models of a list of fields.
pub open spec fn fields_view(s: Seq<FieldType>) -> Seq<FieldView>
    decreases s, 0nat,
{
    if s.len() == 0 {
        Seq::empty()
    } else {
        seq![FieldView {
            name: s[0].name@,
            field_type: type_view(s[0].field_type),
            index: s[0].index,
            optional: s[0].optional,
        }] + fields_view(s.drop_first())
    }
}

impl View for Type {
    type V = TypeView;

    open spec fn view(&self) -> TypeView {
        type_view(*self)
    }
}

/// What a syscall does besides computing its result.
#[derive(Debug, Clone, Copy, PartialEq, Eq, Structural)]
pub enum SideEffect {
    Pure,
    StorageRead,
    StorageWrite,
    ContractCall,
    EventEmit,
    StateChange,
}

/// Typed signature of a syscall.
#[derive(Debug)]
pub struct SyscallSignature {
    pub name: String,
    pub parameters: Vec<Type>,
    pub return_type: Type,
    pub effects: Vec<SideEffect>,
}

/// Model of a syscall signature.
pub struct SyscallSignatureView {
    pub name: Seq<char>,
    pub parameters: Seq<TypeView>,
    pub return_type: TypeView,
    pub effects: Seq<SideEffect>,
}

impl View for SyscallSignature {
    type V = SyscallSignatureView;

    open spec fn view(&self) -> SyscallSignatureView {
        SyscallSignatureView {
            name: self.name@,
            parameters: types_view(self.parameters@),
            return_type: self.return_type@,
            effects: self.effects@,
        }
    }
}

/// Copy a type.
pub fn clone_type(t: &Type) -> (r: Type)
    ensures
        r@ == t@,
    decreases t,
{
    match t {
        Type::Void => Type::Void,
        Type::Unknown => Type::Unknown,
        Type::Any => Type::Any,
        Type::Primitive(p) => Type::Primitive(*p),
        Type::Array(e) => Type::Array(Box::new(clone_type(e))),
        Type::Mapping { key, value } => Type::Mapping {
            key: Box::new(clone_type(key)),
            value: Box::new(clone_type(value)),
        },
        Type::Nullable(e) => Type::Nullable(Box::new(clone_type(e))),
        Type::Buffer => Type::Buffer,
        Type::Struct(st) => {
            let name = match &st.name {
                Some(n) => Some(n.clone()),
                None => None,
            };
            let fields = clone_fields(&st.fields);
            Type::Struct(StructType { name, fields, is_packed: st.is_packed })
        },
        Type::InteropInterface(s) => Type::InteropInterface(s.clone()),
        Type::UserDefined(s) => Type::UserDefined(s.clone()),
        Type::Function { parameters, return_type } => {
            let ps = clone_types(parameters);
            Type::Function { parameters: ps, return_type: Box::new(clone_type(return_type)) }
        },
        Type::Variable(v) => Type::Variable(*v),
        Type::Pointer(e) => Type::Pointer(Box::new(clone_type(e))),
    }
}

pub proof fn lemma_types_view_push(s: Seq<Type>, t: Type)
    ensures
        types_view(s.push(t)) == types_view(s).push(type_view(t)),
    decreases s.len(),
{
    reveal_with_fuel(types_view, 2);
    if s.len() == 0 {
        assert(s.push(t).drop_first() =~= Seq::<Type>::empty());
        assert(types_view(s.push(t)) =~= seq![type_view(t)]);
    } else {
        assert(s.push(t).drop_first() =~= s.drop_first().push(t));
        lemma_types_view_push(s.drop_first(), t);
        assert(types_view(s.push(t)) =~= types_view(s).push(type_view(t)));
    }
}

proof fn lemma_types_view_take(s: Seq<Type>, i: int)
    requires
        0 <= i < s.len(),
    ensures
        types_view(s.take(i + 1)) == types_view(s.take(i)).push(type_view(s[i])),
{
    assert(s.take(i + 1) =~= s.take(i).push(s[i]));
    lemma_types_view_push(s.take(i), s[i]);
}

proof fn lemma_fields_view_push(s: Seq<FieldType>, f: FieldType)
    ensures
        fields_view(s.push(f)) == fields_view(s).push(FieldView {
            name: f.name@,
            field_type: type_view(f.field_type),
            index: f.index,
            optional: f.optional,
        }),
    decreases s.len(),
{
    reveal_with_fuel(fields_view, 2);
    if s.len() == 0 {
        assert(s.push(f).drop_first() =~= Seq::<FieldType>::empty());
    } else {
        assert(s.push(f).drop_first() =~= s.drop_first().push(f));
        lemma_fields_view_push(s.drop_first(), f);
    }
    assert(fields_view(s.push(f)) =~= fields_view(s).push(FieldView {
        name: f.name@,
        field_type: type_view(f.field_type),
        index: f.index,
        optional: f.optional,
    }));
}

/// Copy a list of types.
pub fn clone_types(v: &Vec<Type>) -> (r: Vec<Type>)
    ensures
        types_view(r@) == types_view(v@),
    decreases v,
{
    let mut out: Vec<Type> = Vec::new();
    let mut i: usize = 0;
    while i < v.len()
        invariant
            i <= v.len(),
            types_view(out@) == types_view(v@.take(i as int)),
        decreases v.len() - i,
    {
        let t = clone_type(&v[i]);
        proof {
            lemma_types_view_take(v@, i as int);
            lemma_types_view_push(out@, t);
        }
        out.push(t);
        i = i + 1;
    }
    assert(v@.take(v.len() as int) =~= v@);
    out
}

/// Copy a list of fields.
pub fn clone_fields(v: &Vec<FieldType>) -> (r: Vec<FieldType>)
    ensures
        fields_view(r@) == fields_view(v@),
    decreases v,
{
    let mut out: Vec<FieldType> = Vec::new();
    let mut i: usize = 0;
    while i < v.len()
        invariant
            i <= v.len(),
            fields_view(out@) == fields_view(v@.take(i as int)),
        decreases v.len() - i,
    {
        let f = &v[i];
        let c = FieldType {
            name: f.name.clone(),
            field_type: clone_type(&f.field_type),
            index: f.index,
            optional: f.optional,
        };
        proof {
            assert(v@.take(i + 1) =~= v@.take(i as int).push(v@[i as int]));
            lemma_fields_view_push(v@.take(i as int), v@[i as int]);
            lemma_fields_view_push(out@, c);
        }
        out.push(c);
        i = i + 1;
    }
    assert(v@.take(v.len() as int) =~= v@);
    out
}

} // verus!
