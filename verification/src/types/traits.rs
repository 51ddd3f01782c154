//! Showing types as text.
use crate::text::{decimal, push_char, push_decimal, push_str};
use crate::types::types::{
    SpecType, Type, fields_model, lemma_fields_model, lemma_types_model, strings_model,
    types_model,
};
use vstd::prelude::*;

verus! {

/// The text of a type: `Int`, `_3`, `Array[Int]`, `Map[Str, Int]`,
/// `Record[a: Int, b: Str]`, `(Int, Bool) => Str`, `Symbol[a|b]`.
pub open spec fn display_text(t: SpecType) -> Seq<char>
    decreases t,
{
    match t {
        SpecType::Int => "Int"@,
        SpecType::Float => "Float"@,
        SpecType::Bool => "Bool"@,
        SpecType::Str => "Str"@,
        SpecType::Bytes => "Bytes"@,
        SpecType::TypeVar(id) => seq!['_'] + decimal(id as nat),
        SpecType::Array(e) => "Array["@ + display_text(*e) + seq![']'],
        SpecType::MapOf(k, v) => "Map["@ + display_text(*k) + ", "@ + display_text(*v) + seq![']'],
        SpecType::Record(fs) => "Record["@ + fields_text(fs) + seq![']'],
        SpecType::Function(ps, r) => seq!['('] + params_text(ps) + ") => "@ + display_text(*r),
        SpecType::Symbol(parts) => "Symbol["@ + parts_text(parts) + seq![']'],
    }
}

/// `name: type` for each field, separated by `, `.
pub open spec fn fields_text(fs: Seq<(Seq<char>, SpecType)>) -> Seq<char>
    decreases fs,
{
    if fs.len() == 0 {
        Seq::empty()
    } else if fs.len() == 1 {
        fs[0].0 + ": "@ + display_text(fs[0].1)
    } else {
        fields_text(fs.drop_last()) + ", "@ + fs.last().0 + ": "@ + display_text(fs.last().1)
    }
}

/// The types, separated by `, `.
pub open spec fn params_text(ps: Seq<SpecType>) -> Seq<char>
    decreases ps,
{
    if ps.len() == 0 {
        Seq::empty()
    } else if ps.len() == 1 {
        display_text(ps[0])
    } else {
        params_text(ps.drop_last()) + ", "@ + display_text(ps.last())
    }
}

/// The parts, separated by `|`.
pub open spec fn parts_text(ps: Seq<Seq<char>>) -> Seq<char>
    decreases ps.len(),
{
    if ps.len() == 0 {
        Seq::empty()
    } else if ps.len() == 1 {
        ps[0]
    } else {
        parts_text(ps.drop_last()) + seq!['|'] + ps.last()
    }
}

/// Formats a type as text.
pub fn display_type(ty: &Type) -> (r: String)
    ensures
        r@ == display_text(ty@),
{
    let mut s = String::new();
    push_type(&mut s, ty);
    assert(s@ =~= display_text(ty@));
    s
}

fn push_type(s: &mut String, ty: &Type)
    ensures
        final(s)@ == old(s)@ + display_text(ty@),
    decreases ty,
{
    let ghost start = s@;
    match ty {
        Type::Int => push_str(s, "Int"),
        Type::Float => push_str(s, "Float"),
        Type::Bool => push_str(s, "Bool"),
        Type::Str => push_str(s, "Str"),
        Type::Bytes => push_str(s, "Bytes"),
        Type::TypeVar(id) => {
            push_char(s, '_');
            push_decimal(s, *id as u64);
            assert(s@ =~= start + display_text(ty@));
        },
        Type::Array(e) => {
            push_str(s, "Array[");
            push_type(s, e);
            push_char(s, ']');
            assert(s@ =~= start + display_text(ty@));
        },
        Type::MapOf(k, v) => {
            push_str(s, "Map[");
            push_type(s, k);
            push_str(s, ", ");
            push_type(s, v);
            push_char(s, ']');
            assert(s@ =~= start + display_text(ty@));
        },
        Type::Record(fs) => {
            push_str(s, "Record[");
            let ghost m = fields_model(fs@);
            proof {
                lemma_fields_model(fs@);
                assert(m.take(0) =~= Seq::<(Seq<char>, SpecType)>::empty());
            }
            let n = fs.len();
            for i in 0..n
                invariant
                    n == fs@.len(),
                    m == fields_model(fs@),
                    m.len() == n,
                    forall|j: int| 0 <= j < n ==> #[trigger] m[j] == (fs@[j].0@, fs@[j].1@),
                    *ty == Type::Record(*fs),
                    s@ == start + "Record["@ + fields_text(m.take(i as int)),
            {
                proof {
                    let g = (*ty)->Record_0;
                    assert(decreases_to!(*ty => *fs));
                    assert(decreases_to!(*fs => fs@));
                    assert(decreases_to!(fs@ => fs@[i as int]));
                    assert(decreases_to!(fs@[i as int] => fs@[i as int].1));
                }
                let ghost before = s@;
                if i > 0 {
                    push_str(s, ", ");
                }
                push_str(s, fs[i].0.as_str());
                push_str(s, ": ");
                push_type(s, &fs[i].1);
                proof {
                    let t = m.take(i + 1);
                    assert(t.drop_last() =~= m.take(i as int));
                    assert(t.last() == m[i as int]);
                    if i == 0 {
                        assert(t[0] == m[0]);
                    }
                    assert(s@ =~= start + "Record["@ + fields_text(t));
                }
            }
            push_char(s, ']');
            assert(m.take(n as int) =~= m);
            assert(s@ =~= start + display_text(ty@));
        },
        Type::Function { params, ret } => {
            push_char(s, '(');
            let ghost m = types_model(params@);
            proof {
                lemma_types_model(params@);
                assert(m.take(0) =~= Seq::<SpecType>::empty());
            }
            let n = params.len();
            for i in 0..n
                invariant
                    n == params@.len(),
                    m == types_model(params@),
                    m.len() == n,
                    forall|j: int| 0 <= j < n ==> #[trigger] m[j] == params@[j]@,
                    *ty == (Type::Function { params: *params, ret: *ret }),
                    s@ == start + seq!['('] + params_text(m.take(i as int)),
            {
                proof {
                    let g = (*ty)->Function_params;
                    assert(decreases_to!(*ty => *params));
                    assert(decreases_to!(*params => params@));
                    assert(decreases_to!(params@ => params@[i as int]));
                }
                if i > 0 {
                    push_str(s, ", ");
                }
                push_type(s, &params[i]);
                proof {
                    let t = m.take(i + 1);
                    assert(t.drop_last() =~= m.take(i as int));
                    assert(t.last() == m[i as int]);
                    if i == 0 {
                        assert(t[0] == m[0]);
                    }
                    assert(s@ =~= start + seq!['('] + params_text(t));
                }
            }
            assert(m.take(n as int) =~= m);
            push_str(s, ") => ");
            push_type(s, ret);
            assert(s@ =~= start + display_text(ty@));
        },
        Type::Symbol(parts) => {
            push_str(s, "Symbol[");
            let ghost m = strings_model(parts@);
            assert(m.take(0) =~= Seq::<Seq<char>>::empty());
            let n = parts.len();
            for i in 0..n
                invariant
                    n == parts@.len(),
                    m == strings_model(parts@),
                    s@ == start + "Symbol["@ + parts_text(m.take(i as int)),
            {
                if i > 0 {
                    push_char(s, '|');
                }
                push_str(s, parts[i].as_str());
                proof {
                    let t = m.take(i + 1);
                    assert(t.drop_last() =~= m.take(i as int));
                    assert(t.last() == m[i as int]);
                    if i == 0 {
                        assert(t[0] == m[0]);
                    }
                    assert(s@ =~= start + "Symbol["@ + parts_text(t));
                }
            }
            assert(m.take(n as int) =~= m);
            push_char(s, ']');
            assert(s@ =~= start + display_text(ty@));
        },
    }
}

/// How each kind of type is shown: primitives by their names, a type
/// variable as `_` and its number, an array as `Array[..]`, a map as
/// `Map[key, value]`, a record as `Record[name: type, ..]`, a function as
/// `(params) => result`, a symbol as `Symbol[a|b]`; lists separated by
/// `, ` (or `|` for symbol parts).
pub proof fn law_type_texts(t: SpecType)
    ensures
        display_text(SpecType::Int) == "Int"@,
        display_text(SpecType::Float) == "Float"@,
        display_text(SpecType::Bool) == "Bool"@,
        display_text(SpecType::Str) == "Str"@,
        display_text(SpecType::Bytes) == "Bytes"@,
        t matches SpecType::TypeVar(id) ==> display_text(t) == seq!['_'] + decimal(id as nat),
        t matches SpecType::Array(e) ==> display_text(t) == "Array["@ + display_text(*e) + seq![']'],
        t matches SpecType::MapOf(k, v) ==> display_text(t) == "Map["@ + display_text(*k) + ", "@
            + display_text(*v) + seq![']'],
        t matches SpecType::Record(fs) ==> display_text(t) == "Record["@ + fields_text(fs) + seq![
            ']',
        ],
        t matches SpecType::Function(ps, r) ==> display_text(t) == seq!['('] + params_text(ps)
            + ") => "@ + display_text(*r),
        t matches SpecType::Symbol(ss) ==> display_text(t) == "Symbol["@ + parts_text(ss) + seq![
            ']',
        ],
{
}

/// Lists are shown element by element: one element alone, and a separator
/// before each further element.
pub proof fn law_list_texts(
    fs: Seq<(Seq<char>, SpecType)>,
    f: (Seq<char>, SpecType),
    ps: Seq<SpecType>,
    p: SpecType,
    ss: Seq<Seq<char>>,
    s: Seq<char>,
)
    ensures
        fields_text(Seq::empty()) == Seq::<char>::empty(),
        fields_text(seq![f]) == f.0 + ": "@ + display_text(f.1),
        fs.len() > 0 ==> fields_text(fs.push(f)) == fields_text(fs) + ", "@ + f.0 + ": "@ + display_text(f.1),
        params_text(Seq::empty()) == Seq::<char>::empty(),
        params_text(seq![p]) == display_text(p),
        ps.len() > 0 ==> params_text(ps.push(p)) == params_text(ps) + ", "@ + display_text(p),
        parts_text(Seq::empty()) == Seq::<char>::empty(),
        parts_text(seq![s]) == s,
        ss.len() > 0 ==> parts_text(ss.push(s)) == parts_text(ss) + seq!['|'] + s,
{
    assert(fs.push(f).drop_last() =~= fs);
    assert(ps.push(p).drop_last() =~= ps);
    assert(ss.push(s).drop_last() =~= ss);
}

} // verus!
