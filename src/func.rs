//! Function values: native operations and user-defined lambda terms.
use vstd::prelude::*;

use crate::text::{
    find, find_from, find_str, identifier, is_identifier, last_outside, lemma_find_bound,
    lemma_scan_last_bound, lemma_trim_len, occurs_at, same, top_last, trim, trimmed,
};
use crate::types::{parse_type, Mode, Type, TypeModel};
use crate::value::{
    copy_value, lemma_list_model, type_of_model, value_model, Fault, Value, ValueModel,
};

verus! {

/// The native operations that the context provides.
#[derive(Clone, Copy, Debug, PartialEq, Eq, Structural)]
pub enum Builtin {
    /// Evaluates a string as a block in the calling context.
    Eval,
    /// The runtime type of its argument.
    TypeOf,
    /// Renames the parameter of a user-defined function.
    AlphaConvert,
}

/// An expression of a function body.
#[derive(Debug)]
pub enum Expr {
    Value(Value),
    Refer(String),
}

/// A function value.
#[derive(Debug)]
pub enum Func {
    BuiltIn(Builtin),
    /// Parameter name, body and declared type.
    UserDefined(String, Box<Expr>, Type),
}

/// The mathematical value of an `Expr`.
pub enum ExprModel {
    Value(ValueModel),
    Refer(Seq<char>),
}

/// The mathematical value of a `Func`.
pub enum FuncModel {
    BuiltIn(Builtin),
    UserDefined(Seq<char>, Box<ExprModel>, TypeModel),
}

pub open spec fn expr_model(e: Expr) -> ExprModel
    decreases e,
{
    match e {
        Expr::Value(v) => ExprModel::Value(value_model(v)),
        Expr::Refer(n) => ExprModel::Refer(n@),
    }
}

pub open spec fn func_model(f: Func) -> FuncModel
    decreases f,
{
    match f {
        Func::BuiltIn(b) => FuncModel::BuiltIn(b),
        Func::UserDefined(p, b, t) => FuncModel::UserDefined(p@, Box::new(expr_model(*b)), t@),
    }
}

impl View for Expr {
    type V = ExprModel;

    open spec fn view(&self) -> ExprModel {
        expr_model(*self)
    }
}

impl View for Func {
    type V = FuncModel;

    open spec fn view(&self) -> FuncModel {
        func_model(*self)
    }
}

/// A copy of `e` with the same model.
pub fn copy_expr(e: &Expr) -> (r: Expr)
    ensures
        r@ == e@,
    decreases e,
{
    match e {
        Expr::Value(v) => Expr::Value(copy_value(v)),
        Expr::Refer(n) => Expr::Refer(n.clone()),
    }
}

/// A copy of `f` with the same model.
pub fn copy_func(f: &Func) -> (r: Func)
    ensures
        r@ == f@,
    decreases f,
{
    match f {
        Func::BuiltIn(b) => Func::BuiltIn(*b),
        Func::UserDefined(p, b, t) => Func::UserDefined(
            p.clone(),
            Box::new(copy_expr(b)),
            t.clone(),
        ),
    }
}

impl Clone for Expr {
    fn clone(&self) -> (r: Self)
        ensures
            r@ == self@,
    {
        copy_expr(self)
    }
}

impl Clone for Func {
    fn clone(&self) -> (r: Self)
        ensures
            r@ == self@,
    {
        copy_func(self)
    }
}

/// Whether `c` introduces a lambda: the glyph `λ` or a backslash.
pub open spec fn is_lambda_mark(c: char) -> bool {
    c == '\u{3bb}' || c == '\\'
}

/// The expression that the text `s` denotes: a lambda, a name, or a string
/// literal in double quotes; surrounding whitespace is ignored.
pub open spec fn parse_expr(s: Seq<char>) -> Option<ExprModel>
    decreases s.len(), 2nat,
    via parse_expr_decreases
{
    let t = trim(s);
    if t.len() > 0 && is_lambda_mark(t[0]) {
        match parse_func(t) {
            Some(f) => Some(ExprModel::Value(ValueModel::Func(f))),
            None => None,
        }
    } else if is_identifier(t) {
        Some(ExprModel::Refer(t))
    } else if t.len() >= 2 && t[0] == '"' && t.last() == '"' {
        Some(ExprModel::Value(ValueModel::Str(t.subrange(1, t.len() - 1))))
    } else {
        None
    }
}

/// The function that the lambda text `s` denotes: a lambda mark, then the
/// text that `parse_lambda` reads, which holds a `.`.
pub open spec fn parse_func(s: Seq<char>) -> Option<FuncModel>
    decreases s.len(), 1nat,
{
    if s.len() > 0 && is_lambda_mark(s[0]) && find(s, "."@) is Some {
        parse_lambda(s.drop_first())
    } else {
        None
    }
}

/// Whether the parameter text of a lambda and its body carry an annotation:
/// the parameter holds `:` and the body's brackets balance.
pub open spec fn annotated(arg: Seq<char>, body: Seq<char>) -> bool {
    find(arg, ":"@) is Some && top_last(body, "->"@) is Some
}

/// The body text of a lambda once the return annotation is taken off: the
/// text before the last `->` outside brackets, empty where there is none.
pub open spec fn body_part(arg: Seq<char>, body: Seq<char>) -> Seq<char> {
    if annotated(arg, body) {
        match top_last(body, "->"@)->0 {
            Some(q) => body.subrange(0, q),
            None => Seq::empty(),
        }
    } else {
        body
    }
}

/// The return annotation text: what follows the last `->` outside brackets.
pub open spec fn return_part(body: Seq<char>) -> Seq<char> {
    match top_last(body, "->"@) {
        Some(Some(q)) => body.subrange(q + 2, body.len() as int),
        _ => body,
    }
}

/// The parameter name: the text before the first `:` where annotated.
pub open spec fn name_part(arg: Seq<char>, body: Seq<char>) -> Seq<char> {
    if annotated(arg, body) {
        arg.subrange(0, find(arg, ":"@)->0)
    } else {
        arg
    }
}

/// The declared argument and return types: `Some(None)` where there is no
/// annotation, `None` where one of the two does not parse.
pub open spec fn annotation_part(arg: Seq<char>, body: Seq<char>) -> Option<
    Option<(TypeModel, TypeModel)>,
> {
    if annotated(arg, body) {
        let c = find(arg, ":"@)->0;
        match (parse_type(arg.subrange(c + 1, arg.len() as int)), parse_type(return_part(body))) {
            (Some(a), Some(r)) => Some(Some((a, r))),
            _ => None,
        }
    } else {
        Some(None)
    }
}

/// The function that `s` denotes, read after the lambda mark: parameter,
/// `.`, body, with an optional `name: type` parameter and `-> type` return
/// annotation.
pub open spec fn parse_lambda(s: Seq<char>) -> Option<FuncModel>
    decreases s.len(), 0nat,
    via parse_lambda_decreases
{
    match find(s, "."@) {
        None => None,
        Some(d) => {
            let arg = trim(s.subrange(0, d));
            let body = s.subrange(d + 1, s.len() as int);
            if arg.len() == 0 {
                None
            } else {
                match annotation_part(arg, body) {
                    None => None,
                    Some(pair) => if !is_identifier(name_part(arg, body)) {
                        None
                    } else {
                        match parse_expr(body_part(arg, body)) {
                            None => None,
                            Some(e) => Some(
                                FuncModel::UserDefined(
                                    name_part(arg, body),
                                    Box::new(e),
                                    TypeModel::Func(
                                        match pair {
                                            Some(p) => Some(Box::new(p)),
                                            None => None,
                                        },
                                        Mode::Pure,
                                    ),
                                ),
                            ),
                        }
                    },
                }
            }
        },
    }
}

#[via_fn]
proof fn parse_expr_decreases(s: Seq<char>) {
    lemma_trim_len(s);
}

#[via_fn]
proof fn parse_lambda_decreases(s: Seq<char>) {
    reveal_strlit(".");
    reveal_strlit("->");
    lemma_find_bound(s, "."@, 0);
    if let Some(d) = find(s, "."@) {
        let body = s.subrange(d + 1, s.len() as int);
        lemma_scan_last_bound(body, "->"@, 0, 0, None);
    }
}

impl Expr {
    /// Reads an expression: a lambda, a name, or a string literal.
    pub fn parse(source: &str) -> (r: Result<Expr, Fault>)
        ensures
            r matches Ok(e) ==> parse_expr(source@) == Some(e@),
            r matches Err(f) ==> parse_expr(source@) is None && f == Fault::Syntax,
        decreases source@.len(), 2nat,
    {
        proof {
            lemma_trim_len(source@);
        }
        let t = trimmed(source);
        let n = t.unicode_len();
        if n > 0 {
            let c = t.get_char(0);
            if c == '\u{3bb}' || c == '\\' {
                let f = Func::parse(t)?;
                let ghost fm = f@;
                let e = Expr::Value(Value::Func(f));
                assert(e@ == ExprModel::Value(ValueModel::Func(fm)));
                return Ok(e);
            }
        }
        if identifier(t) {
            return Ok(Expr::Refer(t.to_owned()));
        }
        if n >= 2 && t.get_char(0) == '"' && t.get_char(n - 1) == '"' {
            let e = Expr::Value(Value::Str(t.substring_char(1, n - 1).to_owned()));
            assert(e@ == ExprModel::Value(ValueModel::Str(t@.subrange(1, n - 1))));
            return Ok(e);
        }
        Err(Fault::Syntax)
    }
}

impl Func {
    /// Reads a lambda: `λ` or a backslash, a parameter, `.`, and a body.
    pub fn parse(source: &str) -> (r: Result<Func, Fault>)
        ensures
            r matches Ok(f) ==> parse_func(source@) == Some(f@),
            r matches Err(e) ==> parse_func(source@) is None && e == Fault::Syntax,
        decreases source@.len(), 1nat,
    {
        let n = source.unicode_len();
        if n > 0 {
            let c = source.get_char(0);
            if (c == '\u{3bb}' || c == '\\') && find_str(source, ".").is_some() {
                assert(source@.drop_first() =~= source@.subrange(1, n as int));
                return Func::common(source.substring_char(1, n));
            }
        }
        Err(Fault::Syntax)
    }

    /// Reads what follows the lambda mark.
    fn common(source: &str) -> (r: Result<Func, Fault>)
        ensures
            r matches Ok(f) ==> parse_lambda(source@) == Some(f@),
            r matches Err(e) ==> parse_lambda(source@) is None && e == Fault::Syntax,
        decreases source@.len(), 0nat,
    {
        proof {
            reveal_strlit(".");
            reveal_strlit("->");
            reveal_strlit(":");
            lemma_find_bound(source@, "."@, 0);
        }
        let n = source.unicode_len();
        let d = match find_str(source, ".") {
            Some(d) => d,
            None => {
                return Err(Fault::Syntax);
            },
        };
        let arg = trimmed(source.substring_char(0, d));
        let body = source.substring_char(d + 1, n);
        let al = arg.unicode_len();
        let bl = body.unicode_len();
        if al == 0 {
            return Err(Fault::Syntax);
        }
        let ghost a = arg@;
        let ghost b = body@;
        proof {
            lemma_find_bound(a, ":"@, 0);
            lemma_scan_last_bound(b, "->"@, 0, 0, None);
        }
        let mut name = arg;
        let mut body_text = body;
        let mut pair: Option<Box<(Type, Type)>> = None;
        match (find_str(arg, ":"), last_outside(body, "->")) {
            (Some(c), Some(q)) => {
                name = arg.substring_char(0, c);
                let ret = match q {
                    Some(q) => {
                        body_text = body.substring_char(0, q);
                        body.substring_char(q + 2, bl)
                    },
                    None => {
                        body_text = "";
                        body
                    },
                };
                proof {
                    reveal_strlit("");
                    assert(ret@ == return_part(b));
                    assert(body_text@ == body_part(a, b));
                }
                let at = Type::parse(arg.substring_char(c + 1, al))?;
                let rt = Type::parse(ret)?;
                pair = Some(Box::new((at, rt)));
            },
            _ => {},
        }
        assert(name@ == name_part(a, b));
        assert(body_text@ == body_part(a, b));
        if !identifier(name) {
            return Err(Fault::Syntax);
        }
        let e = Expr::parse(body_text)?;
        let f = Func::UserDefined(name.to_owned(), Box::new(e), Type::Func(pair, Mode::Pure));
        Ok(f)
    }
}

/// The function with the annotation `anno` attached: where `anno` is a
/// function type with an argument and return type and `f` is user-defined,
/// `anno` becomes its declared type and, where the body is itself a function
/// value, the return type is attached to that function in turn. Otherwise
/// `f` is unchanged.
pub open spec fn bind_model(f: FuncModel, anno: TypeModel) -> FuncModel
    decreases f,
{
    match f {
        FuncModel::UserDefined(p, b, t) => match anno {
            TypeModel::Func(Some(pair), _) => FuncModel::UserDefined(
                p,
                match *b {
                    ExprModel::Value(ValueModel::Func(inner)) => Box::new(
                        ExprModel::Value(ValueModel::Func(bind_model(inner, pair.1))),
                    ),
                    _ => b,
                },
                anno,
            ),
            _ => f,
        },
        FuncModel::BuiltIn(_) => f,
    }
}

/// `e` with every free reference to `old` replaced by a reference to `new`;
/// a nested lambda whose parameter is `old` binds it anew and is left alone.
pub open spec fn rename_expr(e: ExprModel, old: Seq<char>, new: Seq<char>) -> ExprModel
    decreases e,
{
    match e {
        ExprModel::Refer(n) => if n == old {
            ExprModel::Refer(new)
        } else {
            e
        },
        ExprModel::Value(ValueModel::Func(FuncModel::UserDefined(p, b, t))) => if p == old {
            e
        } else {
            ExprModel::Value(
                ValueModel::Func(FuncModel::UserDefined(p, Box::new(rename_expr(*b, old, new)), t)),
            )
        },
        _ => e,
    }
}

/// Whether `e` refers to `x` where `x` is not bound by a lambda inside `e`.
pub open spec fn mentions(e: ExprModel, x: Seq<char>) -> bool
    decreases e,
{
    match e {
        ExprModel::Refer(n) => n == x,
        ExprModel::Value(ValueModel::Func(FuncModel::UserDefined(p, b, _))) => p != x && mentions(
            *b,
            x,
        ),
        _ => false,
    }
}

/// The alpha-converted function: parameter `new`, and the references to the
/// old parameter in the body renamed to `new`.
pub open spec fn alpha_model(f: FuncModel, new: Seq<char>) -> FuncModel {
    match f {
        FuncModel::UserDefined(p, b, t) => FuncModel::UserDefined(
            new,
            Box::new(rename_expr(*b, p, new)),
            t,
        ),
        FuncModel::BuiltIn(_) => f,
    }
}

impl Func {
    /// Attaches a function-type annotation, down a chain of curried lambdas.
    pub fn bind(&self, anno: Type) -> (r: Result<Func, Fault>)
        ensures
            r matches Ok(g) && g@ == bind_model(self@, anno@),
        decreases self,
    {
        match self {
            Func::BuiltIn(b) => Ok(Func::BuiltIn(*b)),
            Func::UserDefined(p, body, _) => {
                let ret = match &anno {
                    Type::Func(Some(pair), _) => pair.1.clone(),
                    _ => {
                        return Ok(copy_func(self));
                    },
                };
                let new_body = match &**body {
                    Expr::Value(Value::Func(inner)) => {
                        proof {
                            assert(decreases_to!(*self => *body));
                        }
                        let g = inner.bind(ret)?;
                        Box::new(Expr::Value(Value::Func(g)))
                    },
                    _ => Box::new(copy_expr(body)),
                };
                Ok(Func::UserDefined(p.clone(), new_body, anno))
            },
        }
    }
}

/// `e` with the free references to `old` renamed to `new`.
pub fn rename(e: &Expr, old: &str, new: &str) -> (r: Expr)
    ensures
        r@ == rename_expr(e@, old@, new@),
    decreases e,
{
    match e {
        Expr::Refer(n) => if same(n.as_str(), old) {
            Expr::Refer(new.to_owned())
        } else {
            Expr::Refer(n.clone())
        },
        Expr::Value(Value::Func(Func::UserDefined(p, b, t))) => {
            if same(p.as_str(), old) {
                copy_expr(e)
            } else {
                let inner = rename(b, old, new);
                Expr::Value(Value::Func(Func::UserDefined(p.clone(), Box::new(inner), t.clone())))
            }
        },
        _ => copy_expr(e),
    }
}

/// What `alphaConvert` gives for `args`: a fault unless `args` is a list of
/// a user-defined function and a string, else that function converted to the
/// string as its parameter name.
pub open spec fn alpha_outcome(args: ValueModel, r: Result<Value, Fault>) -> bool {
    match args {
        ValueModel::List(l) => if l.len() != 2 {
            r matches Err(Fault::ArgLen)
        } else if !(l[1] is Str) {
            (r matches Err(Fault::Type(v, t)) && v@ == l[1] && t@ == TypeModel::Str)
        } else if !(l[0] is Func && l[0]->Func_0 is UserDefined) {
            (r matches Err(Fault::Type(v, t)) && v@ == l[0] && t@ == TypeModel::Func(None, Mode::Pure))
        } else {
            (r matches Ok(v) && v@ == ValueModel::Func(alpha_model(l[0]->Func_0, l[1]->Str_0)))
        },
        _ => (r matches Err(Fault::Type(v, t)) && v@ == args && t@ == TypeModel::List(None)),
    }
}

/// The native `alphaConvert`: takes `[function, newName]` and renames the
/// parameter of the user-defined function to `newName`.
pub fn alpha_convert(args: &Value) -> (r: Result<Value, Fault>)
    ensures
        alpha_outcome(args@, r),
{
    let vs = match args {
        Value::List(vs) => vs,
        _ => {
            return Err(Fault::Type(copy_value(args), Type::List(None)));
        },
    };
    proof {
        lemma_list_model(*vs);
    }
    if vs.len() != 2 {
        return Err(Fault::ArgLen);
    }
    assert(args@->List_0[0] == vs@[0]@ && args@->List_0[1] == vs@[1]@);
    let new_name = match &vs[1] {
        Value::Str(s) => {
            assert(vs@[1]@ == ValueModel::Str(s@));
            s
        },
        Value::List(l) => {
            proof {
                lemma_list_model(*l);
            }
            return Err(Fault::Type(copy_value(&vs[1]), Type::Str));
        },
        _ => {
            return Err(Fault::Type(copy_value(&vs[1]), Type::Str));
        },
    };
    match &vs[0] {
        Value::Func(f) => {
            assert(vs@[0]@ == ValueModel::Func(f@));
            match f {
                Func::UserDefined(p, b, t) => {
                    assert(f@ == FuncModel::UserDefined(p@, Box::new((**b)@), t@));
                    let body = rename(b, p.as_str(), new_name.as_str());
                    let g = Func::UserDefined(new_name.clone(), Box::new(body), t.clone());
                    assert(g@ == alpha_model(f@, new_name@));
                    let v = Value::Func(g);
                    assert(v@ == ValueModel::Func(g@));
                    Ok(v)
                },
                Func::BuiltIn(_) => Err(Fault::Type(copy_value(&vs[0]), Type::Func(None, Mode::Pure))),
            }
        },
        Value::List(l) => {
            proof {
                lemma_list_model(*l);
            }
            Err(Fault::Type(copy_value(&vs[0]), Type::Func(None, Mode::Pure)))
        },
        _ => Err(Fault::Type(copy_value(&vs[0]), Type::Func(None, Mode::Pure))),
    }
}

impl Builtin {
    /// Applies the native operation to its argument; `None` for `Eval`, which
    /// needs the block evaluator that the caller runs.
    pub fn call(&self, arg: &Value) -> (r: Option<Result<Value, Fault>>)
        ensures
            *self == Builtin::Eval ==> r is None,
            *self == Builtin::TypeOf ==> (r matches Some(Ok(v)) && v@ == ValueModel::Type(
                type_of_model(arg@),
            )),
            *self == Builtin::AlphaConvert ==> (r matches Some(x) && alpha_outcome(arg@, x)),
    {
        match self {
            Builtin::Eval => None,
            Builtin::TypeOf => {
                let t = arg.type_of();
                let v = Value::Type(t);
                assert(v@ == ValueModel::Type(t@));
                Some(Ok(v))
            },
            Builtin::AlphaConvert => Some(alpha_convert(arg)),
        }
    }
}

/// After renaming `old` to a different name, the expression no longer
/// refers to `old`.
pub proof fn law_rename_removes_old(e: ExprModel, old: Seq<char>, new: Seq<char>)
    requires
        old != new,
    ensures
        !mentions(rename_expr(e, old, new), old),
    decreases e,
{
    match e {
        ExprModel::Value(ValueModel::Func(FuncModel::UserDefined(p, b, t))) => {
            if p != old {
                law_rename_removes_old(*b, old, new);
            }
        },
        _ => {},
    }
}

/// Alpha-conversion of a user-defined function to a different name gives a
/// function whose parameter is the new name and whose body no longer refers
/// to the old one.
pub proof fn law_alpha_conversion(f: FuncModel, new: Seq<char>)
    requires
        f is UserDefined,
        f->UserDefined_0 != new,
    ensures
        alpha_model(f, new)->UserDefined_0 == new,
        !mentions(*alpha_model(f, new)->UserDefined_1, f->UserDefined_0),
        alpha_model(f, new)->UserDefined_2 == f->UserDefined_2,
{
    law_rename_removes_old(*f->UserDefined_1, f->UserDefined_0, new);
}

proof fn lemma_find_dot_same(s1: Seq<char>, s2: Seq<char>, i: int)
    requires
        s1.len() == s2.len(),
        s1.len() > 0,
        s1[0] != '.',
        s2[0] != '.',
        forall|k: int| 1 <= k < s1.len() ==> s1[k] == s2[k],
        0 <= i,
    ensures
        find_from(s1, "."@, i) == find_from(s2, "."@, i),
    decreases s1.len() + 1 - i,
{
    reveal_strlit(".");
    if i + 1 <= s1.len() {
        assert(occurs_at(s1, "."@, i) == occurs_at(s2, "."@, i)) by {
            if i == 0 {
                assert(s1.subrange(0, 1)[0] == s1[0]);
                assert(s2.subrange(0, 1)[0] == s2[0]);
            } else {
                assert(s1.subrange(i, i + 1) =~= s2.subrange(i, i + 1));
            }
        }
        lemma_find_dot_same(s1, s2, i + 1);
    }
}

/// The two lambda spellings, `λ` and a backslash, read the same function
/// from the same parameter and body text.
pub proof fn law_lambda_spellings(rest: Seq<char>)
    ensures
        parse_func(seq!['\u{3bb}'] + rest) == parse_func(seq!['\\'] + rest),
{
    let s1 = seq!['\u{3bb}'] + rest;
    let s2 = seq!['\\'] + rest;
    lemma_find_dot_same(s1, s2, 0);
    assert(s1.drop_first() =~= rest);
    assert(s2.drop_first() =~= rest);
}

} // verus!
