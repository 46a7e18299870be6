//! The type algebra: a textual type grammar, its canonical rendering and the
//! directional compatibility comparator.
use vstd::prelude::*;

use crate::text::{
    ends_with, find, find_str, find_top, find_top_char, has_prefix, has_suffix, identifier,
    is_identifier, join, lemma_find_bound, lemma_find_top_bound, lemma_rfind_bound,
    lemma_trim_len, rfind, rfind_char, same, starts_with, trim, trimmed,
};
use crate::value::Fault;

verus! {

broadcast use vstd::std_specs::vec::group_vec_axioms;

/// The evaluation posture: whether effect-registered names are reachable.
#[derive(Clone, Copy, Debug, PartialEq, Eq, Structural)]
pub enum Mode {
    Pure,
    Effect,
}

/// A type. A `None` payload leaves the constructor unannotated: it then acts
/// as a wildcard for that constructor on the left of a comparison.
#[derive(Debug)]
pub enum Type {
    Num,
    Str,
    List(Option<Box<Type>>),
    Dict(Option<Vec<(String, Type)>>),
    Range,
    Func(Option<Box<(Type, Type)>>, Mode),
    Kind,
    Any,
}

/// The mathematical value of a `Type`.
pub enum TypeModel {
    Num,
    Str,
    List(Option<Box<TypeModel>>),
    Dict(Option<Seq<(Seq<char>, TypeModel)>>),
    Range,
    Func(Option<Box<(TypeModel, TypeModel)>>, Mode),
    Kind,
    Any,
}

pub open spec fn type_model(t: Type) -> TypeModel
    decreases t,
{
    match t {
        Type::Num => TypeModel::Num,
        Type::Str => TypeModel::Str,
        Type::List(None) => TypeModel::List(None),
        Type::List(Some(e)) => TypeModel::List(Some(Box::new(type_model(*e)))),
        Type::Dict(None) => TypeModel::Dict(None),
        Type::Dict(Some(fs)) => TypeModel::Dict(
            Some(
                Seq::new(
                    fs@.len(),
                    |i: int|
                        if 0 <= i < fs@.len() {
                            (fs@[i].0@, type_model(fs@[i].1))
                        } else {
                            (Seq::empty(), TypeModel::Any)
                        },
                ),
            ),
        ),
        Type::Range => TypeModel::Range,
        Type::Func(None, m) => TypeModel::Func(None, m),
        Type::Func(Some(p), m) => TypeModel::Func(
            Some(Box::new((type_model(p.0), type_model(p.1)))),
            m,
        ),
        Type::Kind => TypeModel::Kind,
        Type::Any => TypeModel::Any,
    }
}

impl View for Type {
    type V = TypeModel;

    open spec fn view(&self) -> TypeModel {
        type_model(*self)
    }
}

/// The models of a list of named fields.
pub open spec fn fields_model(fs: Seq<(String, Type)>) -> Seq<(Seq<char>, TypeModel)> {
    Seq::new(fs.len(), |i: int| (fs[i].0@, fs[i].1@))
}

/// The canonical text of a type.
pub open spec fn render(t: TypeModel) -> Seq<char>
    decreases t,
{
    match t {
        TypeModel::Num => "num"@,
        TypeModel::Str => "str"@,
        TypeModel::List(None) => "list"@,
        TypeModel::List(Some(e)) => "list["@ + render(*e) + "]"@,
        TypeModel::Dict(None) => "dict"@,
        TypeModel::Dict(Some(fs)) => "dict{ "@ + join(field_texts(fs), ", "@) + " }"@,
        TypeModel::Range => "range"@,
        TypeModel::Func(None, Mode::Pure) => "fn"@,
        TypeModel::Func(None, Mode::Effect) => "fn<effect>"@,
        TypeModel::Func(Some(p), Mode::Pure) => "fn("@ + render(p.0) + " -> "@ + render(p.1)
            + ")"@,
        TypeModel::Func(Some(p), Mode::Effect) => "fn("@ + render(p.0) + " -> "@ + render(p.1)
            + " + effect)"@,
        TypeModel::Kind => "kind"@,
        TypeModel::Any => "any"@,
    }
}

/// The texts of the fields of a dictionary type, `name: type` each.
pub open spec fn field_texts(fs: Seq<(Seq<char>, TypeModel)>) -> Seq<Seq<char>>
    decreases fs,
{
    Seq::new(
        fs.len(),
        |i: int|
            if 0 <= i < fs.len() {
                fs[i].0 + ": "@ + render(fs[i].1)
            } else {
                Seq::empty()
            },
    )
}

/// The comparator: `declared` accepts `actual`. `Any` on the left accepts
/// everything; an unannotated function, list or dictionary type on the left
/// accepts every type of its constructor; otherwise the canonical texts must
/// be equal.
pub open spec fn compatible(declared: TypeModel, actual: TypeModel) -> bool {
    if declared is Any {
        true
    } else if declared matches TypeModel::Func(None, _) && actual is Func {
        true
    } else if declared matches TypeModel::List(None) && actual is List {
        true
    } else if declared matches TypeModel::Dict(None) && actual is Dict {
        true
    } else {
        render(declared) == render(actual)
    }
}

/// Whether `fs` already has a field named `k`.
pub open spec fn has_field(fs: Seq<(Seq<char>, TypeModel)>, k: Seq<char>) -> bool {
    exists|i: int| 0 <= i < fs.len() && #[trigger] fs[i].0 == k
}

/// The type that the text `s` denotes, if it is well formed.
pub open spec fn parse_type(s: Seq<char>) -> Option<TypeModel>
    decreases s.len(),
    via parse_type_decreases
{
    let t = trim(s);
    if t == "num"@ {
        Some(TypeModel::Num)
    } else if t == "str"@ {
        Some(TypeModel::Str)
    } else if t == "list"@ {
        Some(TypeModel::List(None))
    } else if t == "dict"@ {
        Some(TypeModel::Dict(None))
    } else if t == "range"@ {
        Some(TypeModel::Range)
    } else if t == "fn"@ {
        Some(TypeModel::Func(None, Mode::Pure))
    } else if t == "fn<effect>"@ {
        Some(TypeModel::Func(None, Mode::Effect))
    } else if t == "kind"@ {
        Some(TypeModel::Kind)
    } else if t == "any"@ {
        Some(TypeModel::Any)
    } else if starts_with(t, "fn("@) && find(t, "->"@) is Some && ends_with(t, ")"@) {
        let inner = t.subrange(3, t.len() - 1);
        match find(inner, "->"@) {
            None => None,
            Some(k) => {
                let arg = inner.subrange(0, k);
                let ret = inner.subrange(k + 2, inner.len() as int);
                let effectful = match rfind(ret, '+') {
                    Some(j) => trim(ret.subrange(j + 1, ret.len() as int)) == "effect"@,
                    None => false,
                };
                let ret_text = if effectful {
                    ret.subrange(0, rfind(ret, '+')->0)
                } else {
                    ret
                };
                match (parse_type(arg), parse_type(ret_text)) {
                    (Some(a), Some(r)) => Some(
                        TypeModel::Func(
                            Some(Box::new((a, r))),
                            if effectful {
                                Mode::Effect
                            } else {
                                Mode::Pure
                            },
                        ),
                    ),
                    _ => None,
                }
            },
        }
    } else if starts_with(t, "list["@) && ends_with(t, "]"@) {
        match parse_type(t.subrange(5, t.len() - 1)) {
            Some(e) => Some(TypeModel::List(Some(Box::new(e)))),
            None => None,
        }
    } else if starts_with(t, "dict{"@) && ends_with(t, "}"@) {
        match parse_fields(t.subrange(5, t.len() - 1)) {
            Some(fs) => Some(TypeModel::Dict(Some(fs))),
            None => None,
        }
    } else {
        None
    }
}

/// The fields that the text `b` between the braces of `dict{...}` lists:
/// `name: type` entries separated by commas outside brackets, names distinct.
pub open spec fn parse_fields(b: Seq<char>) -> Option<Seq<(Seq<char>, TypeModel)>>
    decreases b.len(),
    via parse_fields_decreases
{
    if trim(b).len() == 0 {
        Some(Seq::empty())
    } else {
        let entry = match find_top(b, ',') {
            Some(k) => b.subrange(0, k),
            None => b,
        };
        match find(entry, ":"@) {
            None => None,
            Some(c) => {
                let key = trim(entry.subrange(0, c));
                if !is_identifier(key) {
                    None
                } else {
                    match parse_type(entry.subrange(c + 1, entry.len() as int)) {
                        None => None,
                        Some(v) => match find_top(b, ',') {
                            None => Some(seq![(key, v)]),
                            Some(k) => match parse_fields(b.subrange(k + 1, b.len() as int)) {
                                None => None,
                                Some(rest) => if has_field(rest, key) {
                                    None
                                } else {
                                    Some(seq![(key, v)] + rest)
                                },
                            },
                        },
                    }
                }
            },
        }
    }
}

#[via_fn]
proof fn parse_type_decreases(s: Seq<char>) {
    lemma_trim_len(s);
    let t = trim(s);
    reveal_strlit("fn(");
    reveal_strlit(")");
    reveal_strlit("->");
    reveal_strlit("list[");
    reveal_strlit("]");
    reveal_strlit("dict{");
    reveal_strlit("}");
    if starts_with(t, "fn("@) && ends_with(t, ")"@) {
        assert(t.len() >= 4) by {
            if t.len() == 3 {
                assert(t[2] == t.subrange(0, 3)[2]);
                assert(t[2] == t.subrange(t.len() - 1, t.len() as int)[0]);
            }
        }
        let inner = t.subrange(3, t.len() - 1);
        lemma_find_bound(inner, "->"@, 0);
        let ret = match find(inner, "->"@) {
            Some(k) => inner.subrange(k + 2, inner.len() as int),
            None => inner,
        };
        lemma_rfind_bound(ret, '+', ret.len() as int);
    }
    if starts_with(t, "list["@) && ends_with(t, "]"@) {
        assert(t.len() >= 6) by {
            if t.len() == 5 {
                assert(t[4] == t.subrange(0, 5)[4]);
                assert(t[4] == t.subrange(t.len() - 1, t.len() as int)[0]);
            }
        }
    }
    if starts_with(t, "dict{"@) && ends_with(t, "}"@) {
        assert(t.len() >= 6) by {
            if t.len() == 5 {
                assert(t[4] == t.subrange(0, 5)[4]);
                assert(t[4] == t.subrange(t.len() - 1, t.len() as int)[0]);
            }
        }
    }
}

#[via_fn]
proof fn parse_fields_decreases(b: Seq<char>) {
    reveal_strlit(":");
    lemma_find_top_bound(b, ',', 0, 0);
    let entry = match find_top(b, ',') {
        Some(k) => b.subrange(0, k),
        None => b,
    };
    lemma_find_bound(entry, ":"@, 0);
}


proof fn lemma_wrapped_len(t: Seq<char>, pre: Seq<char>, post: Seq<char>)
    requires
        starts_with(t, pre),
        ends_with(t, post),
        pre.len() > 0,
        post.len() == 1,
        pre.last() != post[0],
    ensures
        t.len() >= pre.len() + 1,
{
    if t.len() == pre.len() {
        assert(t[t.len() - 1] == t.subrange(0, pre.len() as int)[pre.len() - 1]);
        assert(t[t.len() - 1] == t.subrange(t.len() - 1, t.len() as int)[0]);
    }
}

proof fn lemma_dict_model(v: Vec<(String, Type)>)
    ensures
        Type::Dict(Some(v))@ == TypeModel::Dict(Some(fields_model(v@))),
{
    let m = Type::Dict(Some(v))@;
    assert(m->Dict_0->0 =~= fields_model(v@));
}

impl Type {
    /// Reads a type from its text; surrounding whitespace is ignored.
    pub fn parse(token: &str) -> (r: Result<Type, Fault>)
        ensures
            r matches Ok(t) ==> parse_type(token@) == Some(t@),
            r matches Err(e) ==> parse_type(token@) is None && e == Fault::Syntax,
        decreases token@.len(),
    {
        proof {
            lemma_trim_len(token@);
            reveal_strlit("fn(");
            reveal_strlit(")");
            reveal_strlit("list[");
            reveal_strlit("]");
            reveal_strlit("dict{");
            reveal_strlit("}");
        }
        let t = trimmed(token);
        if same(t, "num") {
            return Ok(Type::Num);
        } else if same(t, "str") {
            return Ok(Type::Str);
        } else if same(t, "list") {
            return Ok(Type::List(None));
        } else if same(t, "dict") {
            return Ok(Type::Dict(None));
        } else if same(t, "range") {
            return Ok(Type::Range);
        } else if same(t, "fn") {
            return Ok(Type::Func(None, Mode::Pure));
        } else if same(t, "fn<effect>") {
            return Ok(Type::Func(None, Mode::Effect));
        } else if same(t, "kind") {
            return Ok(Type::Kind);
        } else if same(t, "any") {
            return Ok(Type::Any);
        }
        let n = t.unicode_len();
        if has_prefix(t, "fn(") && find_str(t, "->").is_some() && has_suffix(t, ")") {
            proof {
                lemma_wrapped_len(t@, "fn("@, ")"@);
            }
            let inner = t.substring_char(3, n - 1);
            let k = match find_str(inner, "->") {
                Some(k) => k,
                None => {
                    return Err(Fault::Syntax);
                },
            };
            proof {
                lemma_find_bound(inner@, "->"@, 0);
                reveal_strlit("->");
            }
            let m = inner.unicode_len();
            let arg = inner.substring_char(0, k);
            let ret = inner.substring_char(k + 2, m);
            let rl = ret.unicode_len();
            let mut effectful = false;
            let mut ret_text = ret;
            match rfind_char(ret, '+') {
                Some(j) => {
                    proof {
                        lemma_rfind_bound(ret@, '+', rl as int);
                    }
                    if same(trimmed(ret.substring_char(j + 1, rl)), "effect") {
                        effectful = true;
                        ret_text = ret.substring_char(0, j);
                    }
                },
                None => {},
            }
            let a = Type::parse(arg)?;
            let r = Type::parse(ret_text)?;
            let mode = if effectful {
                Mode::Effect
            } else {
                Mode::Pure
            };
            return Ok(Type::Func(Some(Box::new((a, r))), mode));
        }
        if has_prefix(t, "list[") && has_suffix(t, "]") {
            proof {
                lemma_wrapped_len(t@, "list["@, "]"@);
            }
            let e = Type::parse(t.substring_char(5, n - 1))?;
            return Ok(Type::List(Some(Box::new(e))));
        }
        if has_prefix(t, "dict{") && has_suffix(t, "}") {
            proof {
                lemma_wrapped_len(t@, "dict{"@, "}"@);
            }
            let fs = parse_field_list(t.substring_char(5, n - 1))?;
            proof {
                lemma_dict_model(fs);
            }
            return Ok(Type::Dict(Some(fs)));
        }
        Err(Fault::Syntax)
    }

    /// The canonical text of the type.
    pub fn to_text(&self) -> (r: String)
        ensures
            r@ == render(self@),
        decreases self,
    {
        match self {
            Type::Num => String::from_str("num"),
            Type::Str => String::from_str("str"),
            Type::List(None) => String::from_str("list"),
            Type::List(Some(e)) => String::from_str("list[").concat(e.to_text().as_str()).concat(
                "]",
            ),
            Type::Dict(None) => String::from_str("dict"),
            Type::Dict(Some(fs)) => {
                let ghost fm = fields_model(fs@);
                let ghost texts = field_texts(fm);
                let mut res = String::new();
                let mut k: usize = 0;
                assert(texts.take(0) =~= Seq::<Seq<char>>::empty());
                while k < fs.len()
                    invariant
                        *self == Type::Dict(Some(*fs)),
                        fm == fields_model(fs@),
                        texts == field_texts(fm),
                        k <= fs.len(),
                        res@ == join(texts.take(k as int), ", "@),
                    decreases fs.len() - k,
                {
                    assert(texts.take(k + 1).drop_last() =~= texts.take(k as int));
                    if k > 0 {
                        res = res.concat(", ");
                    } else {
                        assert(texts.take(1) =~= seq![texts[0]]);
                    }
                    proof {
                        assert(decreases_to!(*self => self->Dict_0));
                        assert(decreases_to!(self->Dict_0 => self->Dict_0->0));
                        assert(decreases_to!(*fs => fs@[k as int]));
                        assert(decreases_to!(fs@[k as int] => fs@[k as int].1));
                        assert(decreases_to!(*self => fs@[k as int].1));
                    }
                    let field = fs[k].1.to_text();
                    res = res.concat(fs[k].0.as_str()).concat(": ").concat(field.as_str());
                    k = k + 1;
                }
                proof {
                    assert(texts.take(fs.len() as int) =~= texts);
                    lemma_dict_model(*fs);
                }
                String::from_str("dict{ ").concat(res.as_str()).concat(" }")
            },
            Type::Range => String::from_str("range"),
            Type::Func(None, Mode::Pure) => String::from_str("fn"),
            Type::Func(None, Mode::Effect) => String::from_str("fn<effect>"),
            Type::Func(Some(p), Mode::Pure) => String::from_str("fn(").concat(
                p.0.to_text().as_str(),
            ).concat(" -> ").concat(p.1.to_text().as_str()).concat(")"),
            Type::Func(Some(p), Mode::Effect) => String::from_str("fn(").concat(
                p.0.to_text().as_str(),
            ).concat(" -> ").concat(p.1.to_text().as_str()).concat(" + effect)"),
            Type::Kind => String::from_str("kind"),
            Type::Any => String::from_str("any"),
        }
    }
}

/// Whether `fs` already has a field named `key`.
fn has_field_named(fs: &Vec<(String, Type)>, key: &str) -> (r: bool)
    ensures
        r == has_field(fields_model(fs@), key@),
{
    let mut i: usize = 0;
    while i < fs.len()
        invariant
            i <= fs.len(),
            forall|j: int| 0 <= j < i ==> fs@[j].0@ != key@,
        decreases fs.len() - i,
    {
        if same(fs[i].0.as_str(), key) {
            assert(fields_model(fs@)[i as int].0 == key@);
            return true;
        }
        i = i + 1;
    }
    false
}

/// Reads the fields between the braces of a dictionary type.
fn parse_field_list(b: &str) -> (r: Result<Vec<(String, Type)>, Fault>)
    ensures
        r matches Ok(v) ==> parse_fields(b@) == Some(fields_model(v@)),
        r matches Err(e) ==> parse_fields(b@) is None && e == Fault::Syntax,
    decreases b@.len(),
{
    if trimmed(b).unicode_len() == 0 {
        let v: Vec<(String, Type)> = Vec::new();
        assert(fields_model(v@) =~= Seq::empty());
        return Ok(v);
    }
    proof {
        reveal_strlit(":");
        lemma_find_top_bound(b@, ',', 0, 0);
    }
    let n = b.unicode_len();
    let comma = find_top_char(b, ',');
    let entry = match comma {
        Some(k) => b.substring_char(0, k),
        None => b,
    };
    let c = match find_str(entry, ":") {
        Some(c) => c,
        None => {
            return Err(Fault::Syntax);
        },
    };
    proof {
        lemma_find_bound(entry@, ":"@, 0);
    }
    let key = trimmed(entry.substring_char(0, c));
    if !identifier(key) {
        return Err(Fault::Syntax);
    }
    let v = Type::parse(entry.substring_char(c + 1, entry.unicode_len()))?;
    match comma {
        None => {
            let mut out: Vec<(String, Type)> = Vec::new();
            out.push((key.to_owned(), v));
            assert(fields_model(out@) =~= seq![(key@, out@[0].1@)]);
            Ok(out)
        },
        Some(k) => {
            let mut rest = parse_field_list(b.substring_char(k + 1, n))?;
            if has_field_named(&rest, key) {
                return Err(Fault::Syntax);
            }
            let ghost before = fields_model(rest@);
            rest.insert(0, (key.to_owned(), v));
            assert(fields_model(rest@) =~= seq![(key@, rest@[0].1@)] + before);
            Ok(rest)
        },
    }
}

/// The comparator is directional: an unannotated function type on the left
/// accepts an annotated one, whatever the modes, while the annotated one on
/// the left refuses the unannotated one, as their texts differ.
pub proof fn law_comparator_direction(p: (TypeModel, TypeModel), m1: Mode, m2: Mode)
    ensures
        compatible(TypeModel::Func(None, m1), TypeModel::Func(Some(Box::new(p)), m2)),
        !compatible(TypeModel::Func(Some(Box::new(p)), m2), TypeModel::Func(None, m1)),
{
    reveal_strlit("fn(");
    reveal_strlit("fn");
    reveal_strlit("fn<effect>");
    let a = TypeModel::Func(Some(Box::new(p)), m2);
    let b = TypeModel::Func(None, m1);
    let tail = match m2 {
        Mode::Pure => ")"@,
        Mode::Effect => " + effect)"@,
    };
    assert(render(a) == "fn("@ + render(p.0) + " -> "@ + render(p.1) + tail);
    assert(render(a)[2] == '(');
    assert(render(a).len() >= 3);
    match m1 {
        Mode::Pure => assert(render(b).len() == 2),
        Mode::Effect => assert(render(b)[2] == '<'),
    }
}

impl Clone for Type {
    fn clone(&self) -> (r: Self)
        ensures
            r@ == self@,
        decreases self,
    {
        match self {
            Type::Num => Type::Num,
            Type::Str => Type::Str,
            Type::List(None) => Type::List(None),
            Type::List(Some(e)) => Type::List(Some(Box::new((**e).clone()))),
            Type::Dict(None) => Type::Dict(None),
            Type::Dict(Some(fs)) => {
                let mut out: Vec<(String, Type)> = Vec::new();
                let mut k: usize = 0;
                assert(fields_model(out@) =~= fields_model(fs@).take(0));
                while k < fs.len()
                    invariant
                        *self == Type::Dict(Some(*fs)),
                        k <= fs.len(),
                        fields_model(out@) == fields_model(fs@).take(k as int),
                    decreases fs.len() - k,
                {
                    proof {
                        assert(decreases_to!(*self => self->Dict_0));
                        assert(decreases_to!(self->Dict_0 => self->Dict_0->0));
                        assert(decreases_to!(*fs => fs@[k as int]));
                        assert(decreases_to!(fs@[k as int] => fs@[k as int].1));
                    }
                    let ghost before = fields_model(out@);
                    let field = fs[k].1.clone();
                    out.push((fs[k].0.clone(), field));
                    assert(fields_model(out@) =~= fields_model(fs@).take(k + 1)) by {
                        assert(fields_model(out@).drop_last() =~= before);
                    }
                    k = k + 1;
                }
                proof {
                    assert(fields_model(fs@).take(fs.len() as int) =~= fields_model(fs@));
                    lemma_dict_model(out);
                    lemma_dict_model(*fs);
                }
                Type::Dict(Some(out))
            },
            Type::Range => Type::Range,
            Type::Func(None, m) => Type::Func(None, *m),
            Type::Func(Some(p), m) => Type::Func(Some(Box::new((p.0.clone(), p.1.clone()))), *m),
            Type::Kind => Type::Kind,
            Type::Any => Type::Any,
        }
    }
}

impl PartialEq for Type {
    /// The comparator, with the declared type on the left.
    fn eq(&self, other: &Type) -> (r: bool) {
        if let Type::Any = self {
            return true;
        }
        if let Type::Func(None, _) = self {
            if let Type::Func(_, _) = other {
                return true;
            }
        }
        if let Type::List(None) = self {
            if let Type::List(_) = other {
                return true;
            }
        }
        if let Type::Dict(None) = self {
            if let Type::Dict(_) = other {
                return true;
            }
        }
        self.to_text() == other.to_text()
    }
}

impl vstd::std_specs::cmp::PartialEqSpecImpl for Type {
    open spec fn obeys_eq_spec() -> bool {
        true
    }

    open spec fn eq_spec(&self, other: &Type) -> bool {
        compatible(self@, other@)
    }
}

} // verus!
