//! Turning type annotations written in source into types.
use crate::ast::TypeExpr;
use crate::text::{decimal, push_decimal, push_str, str_eq};
use crate::types::order::sort_by_key;
use crate::types::types::{SpecType, Type, fields_model, lemma_fields_model_push};
use vstd::prelude::*;

verus! {

/// Why a type annotation does not name a type.
#[derive(Debug, PartialEq, Eq)]
pub enum TypeConversionError {
    /// The name is not a known type.
    UnknownType { name: String },
    /// A known parameterized type with the wrong number of parameters.
    WrongParameterCount { type_label: String, expected: usize, got: usize },
}

/// What a type annotation stands for: a type, or the reason it is none.
pub enum Conversion {
    Converted(SpecType),
    Unknown(Seq<char>),
    WrongCount(Seq<char>, nat, nat),
}

/// The model of a conversion error.
pub open spec fn error_model(e: TypeConversionError) -> Conversion {
    match e {
        TypeConversionError::UnknownType { name } => Conversion::Unknown(name@),
        TypeConversionError::WrongParameterCount { type_label: tn, expected, got } => Conversion::WrongCount(
            tn@,
            expected as nat,
            got as nat,
        ),
    }
}

/// The built-in type that a bare name stands for.
pub open spec fn path_type(name: Seq<char>) -> Conversion {
    if name == "Int"@ {
        Conversion::Converted(SpecType::Int)
    } else if name == "Float"@ {
        Conversion::Converted(SpecType::Float)
    } else if name == "Bool"@ {
        Conversion::Converted(SpecType::Bool)
    } else if name == "String"@ {
        Conversion::Converted(SpecType::Str)
    } else if name == "Bytes"@ {
        Conversion::Converted(SpecType::Bytes)
    } else {
        Conversion::Unknown(name)
    }
}

/// The type that a type annotation stands for: `Array[T]` and `Map[K, V]`
/// with exactly one and two parameters; records with their fields sorted by
/// name. The first error, in reading order, is the answer where there is one.
pub open spec fn convert(e: TypeExpr) -> Conversion
    decreases e,
{
    match e {
        TypeExpr::Path(p) => path_type(p@),
        TypeExpr::Parametrized { path, params } => if path@ == "Array"@ {
            if params@.len() != 1 {
                Conversion::WrongCount("Array"@, 1, params@.len())
            } else {
                match convert(params@[0]) {
                    Conversion::Converted(t) => Conversion::Converted(SpecType::Array(Box::new(t))),
                    other => other,
                }
            }
        } else if path@ == "Map"@ {
            if params@.len() != 2 {
                Conversion::WrongCount("Map"@, 2, params@.len())
            } else {
                match convert(params@[0]) {
                    Conversion::Converted(k) => match convert(params@[1]) {
                        Conversion::Converted(v) => Conversion::Converted(
                            SpecType::MapOf(Box::new(k), Box::new(v)),
                        ),
                        other => other,
                    },
                    other => other,
                }
            }
        } else {
            Conversion::Unknown(path@)
        },
        TypeExpr::Record(fields) => match convert_fields(fields@) {
            Ok(fs) => Conversion::Converted(SpecType::Record(sort_by_key(fs))),
            Err(c) => c,
        },
    }
}

/// The record fields that a list of annotated fields stands for, in order.
pub open spec fn convert_fields(fs: Seq<(String, TypeExpr)>) -> Result<
    Seq<(Seq<char>, SpecType)>,
    Conversion,
>
    decreases fs,
{
    if fs.len() == 0 {
        Ok(Seq::empty())
    } else {
        match convert_fields(fs.drop_last()) {
            Err(c) => Err(c),
            Ok(done) => match convert(fs.last().1) {
                Conversion::Converted(t) => Ok(done.push((fs.last().0@, t))),
                other => Err(other),
            },
        }
    }
}

/// An error in the fields read so far is the error of the whole list.
proof fn lemma_fields_error_prefix(fs: Seq<(String, TypeExpr)>, k: nat)
    requires
        k <= fs.len(),
        convert_fields(fs.take(k as int)) is Err,
    ensures
        convert_fields(fs) == convert_fields(fs.take(k as int)),
    decreases fs.len() - k,
{
    if k < fs.len() {
        assert(fs.take(k + 1 as int).drop_last() =~= fs.take(k as int));
        lemma_fields_error_prefix(fs, (k + 1) as nat);
    } else {
        assert(fs.take(k as int) =~= fs);
    }
}

/// The built-in names: `Int`, `Float`, `Bool`, `String` (the string type),
/// `Bytes`; any other bare name is unknown. `Array` takes one parameter and
/// `Map` two, and an unknown error names the annotation's own name.
pub proof fn law_type_names(name: Seq<char>)
    ensures
        path_type("Int"@) == Conversion::Converted(SpecType::Int),
        path_type("Float"@) == Conversion::Converted(SpecType::Float),
        path_type("Bool"@) == Conversion::Converted(SpecType::Bool),
        path_type("String"@) == Conversion::Converted(SpecType::Str),
        path_type("Bytes"@) == Conversion::Converted(SpecType::Bytes),
        !(name == "Int"@ || name == "Float"@ || name == "Bool"@ || name == "String"@ || name
            == "Bytes"@) ==> path_type(name) == Conversion::Unknown(name),
{
    reveal_strlit("Int");
    reveal_strlit("Float");
    reveal_strlit("Bool");
    reveal_strlit("String");
    reveal_strlit("Bytes");
    assert("Float"@ != "Int"@) by {
        assert("Float"@.len() != "Int"@.len());
    }
    assert("Bool"@ != "Int"@) by {
        assert("Bool"@.len() != "Int"@.len());
    }
    assert("Bool"@ != "Float"@) by {
        assert("Bool"@.len() != "Float"@.len());
    }
    assert("String"@ != "Int"@ && "String"@ != "Float"@ && "String"@ != "Bool"@) by {
        assert("String"@.len() == 6);
    }
    assert("Bytes"@ != "Int"@ && "Bytes"@ != "Bool"@ && "Bytes"@ != "String"@) by {
        assert("Bytes"@.len() == 5);
    }
    assert("Bytes"@ != "Float"@) by {
        assert("Bytes"@[0] != "Float"@[0]);
    }
}

/// A parameterized annotation with a wrong number of parameters names the
/// type, the number it takes and the number it got; with the right number
/// its parameters are converted, an error in them being the answer.
pub proof fn law_parameter_counts(path: String, params: Vec<TypeExpr>)
    ensures
        ({
            let e = TypeExpr::Parametrized { path, params };
            let n = params@.len();
            &&& path@ == "Array"@ && n != 1 ==> convert(e) == Conversion::WrongCount("Array"@, 1, n)
            &&& path@ == "Map"@ && n != 2 ==> convert(e) == Conversion::WrongCount("Map"@, 2, n)
            &&& path@ == "Array"@ && n == 1 ==> (convert(params@[0]) matches Conversion::Converted(t)
                ==> convert(e) == Conversion::Converted(SpecType::Array(Box::new(t))))
            &&& path@ == "Map"@ && n == 2 ==> (convert(params@[0]) matches Conversion::Converted(k)
                ==> (convert(params@[1]) matches Conversion::Converted(v) ==> convert(e)
                == Conversion::Converted(SpecType::MapOf(Box::new(k), Box::new(v)))))
            &&& !(path@ == "Array"@ || path@ == "Map"@) ==> convert(e) == Conversion::Unknown(path@)
        }),
{
    reveal_strlit("Array");
    reveal_strlit("Map");
    assert("Map"@ != "Array"@) by {
        assert("Map"@.len() != "Array"@.len());
    }
}

/// Converts a type annotation into a type.
pub fn type_expr_to_type(type_expr: &TypeExpr) -> (r: Result<Type, TypeConversionError>)
    ensures
        match r {
            Ok(t) => convert(*type_expr) == Conversion::Converted(t@),
            Err(e) => convert(*type_expr) == error_model(e),
        },
    decreases type_expr,
{
    match type_expr {
        TypeExpr::Path(path) => {
            let p = path.as_str();
            if str_eq(p, "Int") {
                Ok(Type::Int)
            } else if str_eq(p, "Float") {
                Ok(Type::Float)
            } else if str_eq(p, "Bool") {
                Ok(Type::Bool)
            } else if str_eq(p, "String") {
                Ok(Type::Str)
            } else if str_eq(p, "Bytes") {
                Ok(Type::Bytes)
            } else {
                Err(TypeConversionError::UnknownType { name: path.clone() })
            }
        },
        TypeExpr::Parametrized { path, params } => {
            let p = path.as_str();
            if str_eq(p, "Array") {
                if params.len() != 1 {
                    return Err(
                        TypeConversionError::WrongParameterCount {
                            type_label: String::from_str("Array"),
                            expected: 1,
                            got: params.len(),
                        },
                    );
                }
                let element = type_expr_to_type(&params[0])?;
                Ok(Type::Array(Box::new(element)))
            } else if str_eq(p, "Map") {
                if params.len() != 2 {
                    return Err(
                        TypeConversionError::WrongParameterCount {
                            type_label: String::from_str("Map"),
                            expected: 2,
                            got: params.len(),
                        },
                    );
                }
                let key = type_expr_to_type(&params[0])?;
                let value = type_expr_to_type(&params[1])?;
                Ok(Type::MapOf(Box::new(key), Box::new(value)))
            } else {
                Err(TypeConversionError::UnknownType { name: path.clone() })
            }
        },
        TypeExpr::Record(fields) => {
            let mut out: Vec<(String, Type)> = Vec::new();
            let n = fields.len();
            for i in 0..n
                invariant
                    n == fields@.len(),
                    *type_expr == TypeExpr::Record(*fields),
                    convert_fields(fields@.take(i as int)) == Ok::<
                        Seq<(Seq<char>, SpecType)>,
                        Conversion,
                    >(fields_model(out@)),
            {
                let ghost before = out@;
                assert(fields@.take(i + 1).drop_last() =~= fields@.take(i as int));
                assert(fields@.take(i + 1).last() == fields@[i as int]);
                proof {
                    assert(*type_expr == TypeExpr::Record(*fields));
                    assert(decreases_to!(TypeExpr::Record(*fields) => *fields));
                    assert(decreases_to!(*fields => fields@));
                    assert(decreases_to!(fields@ => fields@[i as int]));
                    assert(decreases_to!(fields@[i as int] => fields@[i as int].1));
                }
                let t = match type_expr_to_type(&fields[i].1) {
                    Ok(t) => t,
                    Err(e) => {
                        proof {
                            assert(convert(fields@[i as int].1) == error_model(e));
                            assert(convert_fields(fields@.take(i + 1)) == Err::<
                                Seq<(Seq<char>, SpecType)>,
                                Conversion,
                            >(error_model(e)));
                            lemma_fields_error_prefix(fields@, (i + 1) as nat);
                        }
                        return Err(e);
                    },
                };
                let name = fields[i].0.clone();
                out.push((name, t));
                proof {
                    lemma_fields_model_push(before, (name, t));
                }
            }
            assert(fields@.take(n as int) =~= fields@);
            Ok(Type::record(out))
        },
    }
}

/// The message of a conversion error.
pub open spec fn message_of(e: TypeConversionError) -> Seq<char> {
    match error_model(e) {
        Conversion::Unknown(n) => "Unknown type: "@ + n,
        Conversion::WrongCount(tn, expected, got) => tn + " type expects "@ + decimal(expected)
            + " type parameter"@ + (if expected == 1 {
            ""@
        } else {
            "s"@
        }) + ", got "@ + decimal(got),
        Conversion::Converted(_) => Seq::empty(),
    }
}

fn wrong_count_message(tn: &String, expected: usize, got: usize) -> (r: String)
    ensures
        r@ == tn@ + " type expects "@ + decimal(expected as nat) + " type parameter"@ + (if expected
            == 1 {
            ""@
        } else {
            "s"@
        }) + ", got "@ + decimal(got as nat),
{
    let mut s = String::new();
    push_str(&mut s, tn.as_str());
    push_str(&mut s, " type expects ");
    push_decimal(&mut s, expected as u64);
    push_str(&mut s, " type parameter");
    if expected == 1 {
        push_str(&mut s, "");
    } else {
        push_str(&mut s, "s");
    }
    push_str(&mut s, ", got ");
    push_decimal(&mut s, got as u64);
    assert(s@ =~= tn@ + " type expects "@ + decimal(expected as nat) + " type parameter"@ + (
    if expected == 1 {
        ""@
    } else {
        "s"@
    }) + ", got "@ + decimal(got as nat));
    s
}

impl TypeConversionError {
    fn count_parts(&self) -> (r: (&String, usize, usize))
        requires
            self is WrongParameterCount,
        ensures
            error_model(*self) == Conversion::WrongCount(r.0@, r.1 as nat, r.2 as nat),
    {
        match self {
            TypeConversionError::WrongParameterCount { type_label: tn, expected, got } => (
                tn,
                *expected,
                *got,
            ),
            TypeConversionError::UnknownType { name } => (name, 0, 0),
        }
    }

    /// The error message, e.g. `Unknown type: Foo` or
    /// `Map type expects 2 type parameters, got 1`.
    pub fn to_string(&self) -> (r: String)
        ensures
            r@ == message_of(*self),
    {
        match self {
            TypeConversionError::UnknownType { name } => {
                let mut s = String::from_str("Unknown type: ");
                push_str(&mut s, name.as_str());
                s
            },
            TypeConversionError::WrongParameterCount { .. } => {
                let (tn, expected, got) = self.count_parts();
                wrong_count_message(tn, expected, got)
            },
        }
    }
}

} // verus!
