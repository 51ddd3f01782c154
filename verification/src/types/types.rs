use vstd::prelude::*;

verus! {

/// A Melbi type.
///
/// Records must be sorted by field name and symbols by part; the constructors
/// `Type::record` and `Type::symbol` establish that order.
#[derive(Debug, PartialEq, Eq)]
pub enum Type {
    /// A type variable.
    TypeVar(u16),
    Int,
    Float,
    Bool,
    Str,
    Bytes,
    Array(Box<Type>),
    MapOf(Box<Type>, Box<Type>),
    /// A structural record: field names with their types.
    Record(Vec<(String, Type)>),
    Function { params: Vec<Type>, ret: Box<Type> },
    /// A symbol type: the set of its parts.
    Symbol(Vec<String>),
}

/// The mathematical model of a `Type`: names are character sequences.
pub enum SpecType {
    TypeVar(u16),
    Int,
    Float,
    Bool,
    Str,
    Bytes,
    Array(Box<SpecType>),
    MapOf(Box<SpecType>, Box<SpecType>),
    Record(Seq<(Seq<char>, SpecType)>),
    Function(Seq<SpecType>, Box<SpecType>),
    Symbol(Seq<Seq<char>>),
}

pub open spec fn type_model(t: Type) -> SpecType
    decreases t,
{
    match t {
        Type::TypeVar(id) => SpecType::TypeVar(id),
        Type::Int => SpecType::Int,
        Type::Float => SpecType::Float,
        Type::Bool => SpecType::Bool,
        Type::Str => SpecType::Str,
        Type::Bytes => SpecType::Bytes,
        Type::Array(e) => SpecType::Array(Box::new(type_model(*e))),
        Type::MapOf(k, v) => SpecType::MapOf(Box::new(type_model(*k)), Box::new(type_model(*v))),
        Type::Record(fs) => SpecType::Record(fields_model(fs@)),
        Type::Function { params, ret } => SpecType::Function(
            types_model(params@),
            Box::new(type_model(*ret)),
        ),
        Type::Symbol(parts) => SpecType::Symbol(strings_model(parts@)),
    }
}

pub open spec fn types_model(ts: Seq<Type>) -> Seq<SpecType>
    decreases ts,
{
    if ts.len() == 0 {
        Seq::empty()
    } else {
        seq![type_model(ts[0])] + types_model(ts.drop_first())
    }
}

pub open spec fn fields_model(fs: Seq<(String, Type)>) -> Seq<(Seq<char>, SpecType)>
    decreases fs,
{
    if fs.len() == 0 {
        Seq::empty()
    } else {
        seq![(fs[0].0@, type_model(fs[0].1))] + fields_model(fs.drop_first())
    }
}

pub open spec fn strings_model(ss: Seq<String>) -> Seq<Seq<char>> {
    ss.map_values(|s: String| s@)
}

impl View for Type {
    type V = SpecType;

    open spec fn view(&self) -> SpecType {
        type_model(*self)
    }
}

/// The kind of a type, without its contents.
#[derive(Debug, Clone, Copy, PartialEq, Eq, Hash, Structural)]
pub enum TypeTag {
    TypeVar,
    Int,
    Float,
    Bool,
    Str,
    Bytes,
    Array,
    MapOf,
    Record,
    Function,
    Symbol,
}

/// The byte that stands for each tag: the tags in declaration order, from 0.
pub open spec fn tag_byte(tag: TypeTag) -> u8 {
    match tag {
        TypeTag::TypeVar => 0,
        TypeTag::Int => 1,
        TypeTag::Float => 2,
        TypeTag::Bool => 3,
        TypeTag::Str => 4,
        TypeTag::Bytes => 5,
        TypeTag::Array => 6,
        TypeTag::MapOf => 7,
        TypeTag::Record => 8,
        TypeTag::Function => 9,
        TypeTag::Symbol => 10,
    }
}

impl TypeTag {
    /// The byte of this tag.
    pub fn to_u8(self) -> (r: u8)
        ensures
            r == tag_byte(self),
    {
        match self {
            TypeTag::TypeVar => 0,
            TypeTag::Int => 1,
            TypeTag::Float => 2,
            TypeTag::Bool => 3,
            TypeTag::Str => 4,
            TypeTag::Bytes => 5,
            TypeTag::Array => 6,
            TypeTag::MapOf => 7,
            TypeTag::Record => 8,
            TypeTag::Function => 9,
            TypeTag::Symbol => 10,
        }
    }

    /// The tag that a byte stands for; `Err(())` for bytes above 10.
    pub fn try_from(value: u8) -> (r: Result<TypeTag, ()>)
        ensures
            value <= 10 ==> (r matches Ok(t) && tag_byte(t) == value),
            value > 10 ==> r is Err,
    {
        match value {
            0 => Ok(TypeTag::TypeVar),
            1 => Ok(TypeTag::Int),
            2 => Ok(TypeTag::Float),
            3 => Ok(TypeTag::Bool),
            4 => Ok(TypeTag::Str),
            5 => Ok(TypeTag::Bytes),
            6 => Ok(TypeTag::Array),
            7 => Ok(TypeTag::MapOf),
            8 => Ok(TypeTag::Record),
            9 => Ok(TypeTag::Function),
            10 => Ok(TypeTag::Symbol),
            _ => Err(()),
        }
    }
}


} // verus!

verus! {

pub proof fn lemma_types_model(ts: Seq<Type>)
    ensures
        types_model(ts).len() == ts.len(),
        forall|i: int| 0 <= i < ts.len() ==> #[trigger] types_model(ts)[i] == type_model(ts[i]),
    decreases ts.len(),
{
    if ts.len() > 0 {
        lemma_types_model(ts.drop_first());
        assert forall|i: int| 0 <= i < ts.len() implies #[trigger] types_model(ts)[i] == type_model(
            ts[i],
        ) by {
            if i > 0 {
                assert(ts.drop_first()[i - 1] == ts[i]);
            }
        }
    }
}

pub proof fn lemma_fields_model(fs: Seq<(String, Type)>)
    ensures
        fields_model(fs).len() == fs.len(),
        forall|i: int|
            0 <= i < fs.len() ==> #[trigger] fields_model(fs)[i] == (fs[i].0@, type_model(fs[i].1)),
    decreases fs.len(),
{
    if fs.len() > 0 {
        lemma_fields_model(fs.drop_first());
        assert forall|i: int| 0 <= i < fs.len() implies #[trigger] fields_model(fs)[i] == (
            fs[i].0@,
            type_model(fs[i].1),
        ) by {
            if i > 0 {
                assert(fs.drop_first()[i - 1] == fs[i]);
            }
        }
    }
}

} // verus!

verus! {

pub proof fn lemma_fields_model_push(fs: Seq<(String, Type)>, f: (String, Type))
    ensures
        fields_model(fs.push(f)) == fields_model(fs).push((f.0@, type_model(f.1))),
{
    lemma_fields_model(fs);
    lemma_fields_model(fs.push(f));
    assert(fields_model(fs.push(f)) =~= fields_model(fs).push((f.0@, type_model(f.1)))) by {
        assert forall|i: int| 0 <= i < fs.len() implies fs.push(f)[i] == fs[i] by {}
    }
}

pub proof fn lemma_types_model_push(ts: Seq<Type>, t: Type)
    ensures
        types_model(ts.push(t)) == types_model(ts).push(type_model(t)),
{
    lemma_types_model(ts);
    lemma_types_model(ts.push(t));
    assert(types_model(ts.push(t)) =~= types_model(ts).push(type_model(t))) by {
        assert forall|i: int| 0 <= i < ts.len() implies ts.push(t)[i] == ts[i] by {}
    }
}

} // verus!
