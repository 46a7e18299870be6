//! The evaluation context: an ordered name table, the names that carry the
//! effect capability, and the purity posture.
use vstd::prelude::*;

use crate::func::{Builtin, Func, FuncModel};
use crate::text::{identifier, is_identifier, same};
use crate::types::Mode;
use crate::value::{copy_value, Fault, Value, ValueModel};

verus! {

/// The location of the standard library that a new context names `stdlib`.
pub const STDLIB_URL: &'static str = "https://kajizukataichi.github.io/MLtalk/lib/std.ml";

/// An evaluation context.
pub struct Engine {
    /// Bindings in insertion order; names are distinct and never `_`.
    pub scope: Vec<(String, Value)>,
    /// The names that need the `Effect` posture; distinct.
    pub effect: Vec<String>,
    pub is_toplevel: bool,
    pub is_lazy: bool,
    pub mode: Mode,
}

/// The mathematical value of an `Engine`.
pub struct EngineModel {
    pub scope: Seq<(Seq<char>, ValueModel)>,
    pub effect: Seq<Seq<char>>,
    pub is_toplevel: bool,
    pub is_lazy: bool,
    pub mode: Mode,
}

pub open spec fn scope_model(s: Seq<(String, Value)>) -> Seq<(Seq<char>, ValueModel)> {
    Seq::new(s.len(), |i: int| (s[i].0@, s[i].1@))
}

pub open spec fn names_model(s: Seq<String>) -> Seq<Seq<char>> {
    Seq::new(s.len(), |i: int| s[i]@)
}

impl View for Engine {
    type V = EngineModel;

    open spec fn view(&self) -> EngineModel {
        EngineModel {
            scope: scope_model(self.scope@),
            effect: names_model(self.effect@),
            is_toplevel: self.is_toplevel,
            is_lazy: self.is_lazy,
            mode: self.mode,
        }
    }
}

/// Whether `k` is bound in `scope`.
pub open spec fn bound(scope: Seq<(Seq<char>, ValueModel)>, k: Seq<char>) -> bool {
    exists|i: int| 0 <= i < scope.len() && #[trigger] scope[i].0 == k
}

/// The position of the binding of `k`, where `k` is bound.
pub open spec fn position(scope: Seq<(Seq<char>, ValueModel)>, k: Seq<char>) -> int {
    choose|i: int| 0 <= i < scope.len() && #[trigger] scope[i].0 == k
}

/// The value bound to `k`.
pub open spec fn lookup(scope: Seq<(Seq<char>, ValueModel)>, k: Seq<char>) -> Option<ValueModel> {
    if bound(scope, k) {
        Some(scope[position(scope, k)].1)
    } else {
        None
    }
}

/// `scope` with `k` bound to `v`: in place where `k` is bound, else at the end.
pub open spec fn put(scope: Seq<(Seq<char>, ValueModel)>, k: Seq<char>, v: ValueModel) -> Seq<
    (Seq<char>, ValueModel),
> {
    if bound(scope, k) {
        scope.update(position(scope, k), (k, v))
    } else {
        scope.push((k, v))
    }
}

/// Whether the names of `scope` are distinct.
pub open spec fn keys_distinct(scope: Seq<(Seq<char>, ValueModel)>) -> bool {
    forall|i: int, j: int|
        0 <= i < scope.len() && 0 <= j < scope.len() && i != j ==> #[trigger] scope[i].0
            != #[trigger] scope[j].0
}

/// Whether `scope` binds no `_`.
pub open spec fn no_discard(scope: Seq<(Seq<char>, ValueModel)>) -> bool {
    forall|i: int| 0 <= i < scope.len() ==> #[trigger] scope[i].0 != "_"@
}

/// Whether the names of `names` are distinct.
pub open spec fn names_distinct(names: Seq<Seq<char>>) -> bool {
    forall|i: int, j: int|
        0 <= i < names.len() && 0 <= j < names.len() && i != j ==> #[trigger] names[i]
            != #[trigger] names[j]
}

/// The context's invariant: distinct names, no `_` binding, distinct effect names.
pub open spec fn wf_model(m: EngineModel) -> bool {
    &&& keys_distinct(m.scope)
    &&& no_discard(m.scope)
    &&& names_distinct(m.effect)
}

/// The context after allocating `v` under `name`; `None` where `name` is no
/// identifier.
pub open spec fn allocate_model(m: EngineModel, name: Seq<char>, v: ValueModel) -> Option<EngineModel> {
    if !is_identifier(name) {
        None
    } else if name == "_"@ {
        Some(m)
    } else {
        Some(EngineModel { scope: put(m.scope, name, v), ..m })
    }
}

/// How a lookup of a name ends.
pub enum Access {
    /// The value bound to the name.
    Found(ValueModel),
    /// The name is not bound.
    Unbound,
    /// The name needs the `Effect` posture and the context is pure.
    Blocked,
}

/// How a lookup of `name` in `m` ends: the effect check comes first.
pub open spec fn access_model(m: EngineModel, name: Seq<char>) -> Access {
    if m.mode == Mode::Pure && m.effect.contains(name) {
        Access::Blocked
    } else {
        match lookup(m.scope, name) {
            Some(v) => Access::Found(v),
            None => Access::Unbound,
        }
    }
}

/// The context with `name` registered for the effect capability.
pub open spec fn set_effect_model(m: EngineModel, name: Seq<char>) -> EngineModel {
    if m.effect.contains(name) {
        m
    } else {
        EngineModel { effect: m.effect.push(name), ..m }
    }
}

/// The context with `name` no longer registered; the others keep their order.
pub open spec fn unset_effect_model(m: EngineModel, name: Seq<char>) -> EngineModel {
    if m.effect.contains(name) {
        EngineModel { effect: m.effect.remove(m.effect.index_of(name)), ..m }
    } else {
        m
    }
}

/// The bindings of a new context.
pub open spec fn initial_scope() -> Seq<(Seq<char>, ValueModel)> {
    seq![
        ("stdlib"@, ValueModel::Str(STDLIB_URL@)),
        ("eval"@, ValueModel::Func(FuncModel::BuiltIn(Builtin::Eval))),
        ("type"@, ValueModel::Func(FuncModel::BuiltIn(Builtin::TypeOf))),
        ("alphaConvert"@, ValueModel::Func(FuncModel::BuiltIn(Builtin::AlphaConvert))),
    ]
}

proof fn lemma_position(scope: Seq<(Seq<char>, ValueModel)>, k: Seq<char>, i: int)
    requires
        forall|a: int, b: int|
            0 <= a < scope.len() && 0 <= b < scope.len() && a != b ==> #[trigger] scope[a].0
                != #[trigger] scope[b].0,
        0 <= i < scope.len(),
        scope[i].0 == k,
    ensures
        bound(scope, k),
        position(scope, k) == i,
{
    assert(scope[i].0 == k);
    let p = position(scope, k);
    assert(scope[p].0 == k);
}

proof fn lemma_index_of(s: Seq<Seq<char>>, k: Seq<char>, i: int)
    requires
        forall|a: int, b: int|
            0 <= a < s.len() && 0 <= b < s.len() && a != b ==> #[trigger] s[a] != #[trigger] s[b],
        0 <= i < s.len(),
        s[i] == k,
    ensures
        s.contains(k),
        s.index_of(k) == i,
{
    assert(s[i] == k);
    let p = s.index_of(k);
    assert(s[p] == k);
}

proof fn lemma_put_lookup(scope: Seq<(Seq<char>, ValueModel)>, k: Seq<char>, v: ValueModel)
    requires
        keys_distinct(scope),
    ensures
        keys_distinct(put(scope, k, v)),
        lookup(put(scope, k, v), k) == Some(v),
{
    let s2 = put(scope, k, v);
    if bound(scope, k) {
        let p = position(scope, k);
        assert(scope[p].0 == k);
        assert forall|i: int, j: int|
            0 <= i < s2.len() && 0 <= j < s2.len() && i != j implies #[trigger] s2[i].0
                != #[trigger] s2[j].0 by {
            assert(s2[i].0 == scope[i].0);
            assert(s2[j].0 == scope[j].0);
        }
        lemma_position(s2, k, p);
    } else {
        let n = scope.len() as int;
        assert forall|i: int, j: int|
            0 <= i < s2.len() && 0 <= j < s2.len() && i != j implies #[trigger] s2[i].0
                != #[trigger] s2[j].0 by {
            if i < n && j < n {
                assert(s2[i].0 == scope[i].0);
                assert(s2[j].0 == scope[j].0);
            } else if i < n {
                assert(s2[i].0 == scope[i].0);
                assert(scope[i].0 != k);
            } else {
                assert(s2[j].0 == scope[j].0);
                assert(scope[j].0 != k);
            }
        }
        lemma_position(s2, k, n);
    }
}

/// Allocating under `_` binds nothing: the context stays as it was, and a
/// lookup of `_` that the effect check lets through finds no binding.
pub proof fn law_discard_binds_nothing(m: EngineModel, v: ValueModel)
    requires
        wf_model(m),
    ensures
        allocate_model(m, "_"@, v) == Some(m),
        lookup(m.scope, "_"@) is None,
        !(m.mode == Mode::Pure && m.effect.contains("_"@)) ==> access_model(
            allocate_model(m, "_"@, v)->0,
            "_"@,
        ) == Access::Unbound,
{
    reveal_strlit("_");
    assert(is_identifier("_"@));
    if bound(m.scope, "_"@) {
        let p = position(m.scope, "_"@);
        assert(m.scope[p].0 == "_"@);
    }
}

/// A name that starts with a digit is no identifier: allocating under it
/// fails, and `allocate` then leaves the context as it was.
pub proof fn law_digit_name_refused(m: EngineModel, name: Seq<char>, v: ValueModel)
    requires
        name.len() > 0,
        '0' <= name[0] <= '9',
    ensures
        allocate_model(m, name, v) is None,
{
}

/// Once `x` is registered for the effect capability and bound to `v`, a
/// lookup of `x` is blocked while the context is pure and finds `v` once the
/// context takes the effect posture.
pub proof fn law_effect_gate(m: EngineModel, x: Seq<char>, v: ValueModel)
    requires
        wf_model(m),
        is_identifier(x),
        x != "_"@,
    ensures
        ({
            let after = allocate_model(set_effect_model(m, x), x, v)->0;
            &&& access_model(EngineModel { mode: Mode::Pure, ..after }, x) == Access::Blocked
            &&& access_model(EngineModel { mode: Mode::Effect, ..after }, x) == Access::Found(v)
        }),
{
    let m1 = set_effect_model(m, x);
    assert(m1.effect.contains(x)) by {
        if !m.effect.contains(x) {
            assert(m1.effect[m.effect.len() as int] == x);
        }
    }
    lemma_put_lookup(m1.scope, x, v);
}

impl Engine {
    pub open spec fn wf(&self) -> bool {
        wf_model(self@)
    }

    /// A new context: pure, top-level, not lazy, with `stdlib`, `eval`,
    /// `type` and `alphaConvert` bound and `eval` needing the effect posture.
    pub fn new() -> (r: Engine)
        ensures
            r.wf(),
            r@ == (EngineModel {
                scope: initial_scope(),
                effect: seq!["eval"@],
                is_toplevel: true,
                is_lazy: false,
                mode: Mode::Pure,
            }),
    {
        let mut scope: Vec<(String, Value)> = Vec::new();
        let v0 = Value::Str(String::from_str(STDLIB_URL));
        let f1 = Func::BuiltIn(Builtin::Eval);
        let f2 = Func::BuiltIn(Builtin::TypeOf);
        let f3 = Func::BuiltIn(Builtin::AlphaConvert);
        assert(f1@ == FuncModel::BuiltIn(Builtin::Eval));
        assert(f2@ == FuncModel::BuiltIn(Builtin::TypeOf));
        assert(f3@ == FuncModel::BuiltIn(Builtin::AlphaConvert));
        let v1 = Value::Func(f1);
        let v2 = Value::Func(f2);
        let v3 = Value::Func(f3);
        assert(v1@ == ValueModel::Func(f1@));
        assert(v2@ == ValueModel::Func(f2@));
        assert(v3@ == ValueModel::Func(f3@));
        assert(v0@ == ValueModel::Str(STDLIB_URL@));
        assert(v1@ == ValueModel::Func(FuncModel::BuiltIn(Builtin::Eval)));
        assert(v2@ == ValueModel::Func(FuncModel::BuiltIn(Builtin::TypeOf)));
        assert(v3@ == ValueModel::Func(FuncModel::BuiltIn(Builtin::AlphaConvert)));
        scope.push((String::from_str("stdlib"), v0));
        scope.push((String::from_str("eval"), v1));
        scope.push((String::from_str("type"), v2));
        scope.push((String::from_str("alphaConvert"), v3));
        let mut effect: Vec<String> = Vec::new();
        effect.push(String::from_str("eval"));
        let r = Engine { scope, effect, is_toplevel: true, is_lazy: false, mode: Mode::Pure };
        proof {
            reveal_strlit("stdlib");
            reveal_strlit("eval");
            reveal_strlit("type");
            reveal_strlit("alphaConvert");
            reveal_strlit("_");
            assert(r@.scope =~= initial_scope());
            assert(r@.effect =~= seq!["eval"@]);
            let s = initial_scope();
            assert(s[1].0[0] != s[2].0[0]);
            assert(s[0].0.len() == 6 && s[3].0.len() == 12);
            assert(s[0].0 != s[1].0 && s[0].0 != s[2].0 && s[0].0 != s[3].0);
            assert(s[1].0 != s[2].0 && s[1].0 != s[3].0 && s[2].0 != s[3].0);
            assert(keys_distinct(s));
        }
        r
    }

    /// Binds `value` to `name`; `_` binds nothing.
    pub fn allocate(&mut self, name: &String, value: &Value) -> (r: Result<(), Fault>)
        requires
            old(self).wf(),
        ensures
            final(self).wf(),
            match allocate_model(old(self)@, name@, value@) {
                None => (r matches Err(Fault::Syntax)) && final(self)@ == old(self)@,
                Some(m) => r is Ok && final(self)@ == m,
            },
    {
        proof {
            reveal_strlit("_");
        }
        if !identifier(name.as_str()) {
            return Err(Fault::Syntax);
        }
        if same(name.as_str(), "_") {
            return Ok(());
        }
        let ghost m = self@;
        let mut i: usize = 0;
        while i < self.scope.len()
            invariant
                m == self@,
                m == old(self)@,
                is_identifier(name@),
                name@ != "_"@,
                wf_model(m),
                i <= self.scope.len(),
                forall|j: int| 0 <= j < i ==> m.scope[j].0 != name@,
            decreases self.scope.len() - i,
        {
            if same(self.scope[i].0.as_str(), name.as_str()) {
                assert(m.scope[i as int].0 == name@);
                proof {
                    lemma_position(m.scope, name@, i as int);
                }
                self.scope.set(i, (name.clone(), copy_value(value)));
                assert(self@.scope =~= put(m.scope, name@, value@));
                assert(wf_model(self@)) by {
                    assert forall|a: int, b: int|
                        0 <= a < self@.scope.len() && 0 <= b < self@.scope.len() && a != b implies #[trigger] self@.scope[a].0
                            != #[trigger] self@.scope[b].0 by {
                        assert(self@.scope[a].0 == m.scope[a].0);
                        assert(self@.scope[b].0 == m.scope[b].0);
                    }
                    assert forall|a: int| 0 <= a < self@.scope.len() implies #[trigger] self@.scope[a].0 != "_"@ by {
                        assert(self@.scope[a].0 == m.scope[a].0);
                    }
                }
                return Ok(());
            }
            i = i + 1;
        }
        assert(!bound(m.scope, name@));
        self.scope.push((name.clone(), copy_value(value)));
        assert(self@.scope =~= put(m.scope, name@, value@));
        assert(wf_model(self@)) by {
            assert forall|a: int, b: int|
                0 <= a < self@.scope.len() && 0 <= b < self@.scope.len() && a != b implies #[trigger] self@.scope[a].0
                    != #[trigger] self@.scope[b].0 by {
                if a < m.scope.len() && b < m.scope.len() {
                    assert(self@.scope[a].0 == m.scope[a].0);
                    assert(self@.scope[b].0 == m.scope[b].0);
                } else if a < m.scope.len() {
                    assert(self@.scope[a].0 == m.scope[a].0);
                } else {
                    assert(self@.scope[b].0 == m.scope[b].0);
                }
            }
            assert forall|a: int| 0 <= a < self@.scope.len() implies #[trigger] self@.scope[a].0 != "_"@ by {
                if a < m.scope.len() {
                    assert(self@.scope[a].0 == m.scope[a].0);
                }
            }
        }
        Ok(())
    }

    /// The value bound to `name`; fails with `Pure` where `name` needs the
    /// effect posture and the context is pure, with `Refer` where it is unbound.
    pub fn access(&mut self, name: &str) -> (r: Result<Value, Fault>)
        requires
            old(self).wf(),
        ensures
            *final(self) == *old(self),
            match access_model(old(self)@, name@) {
                Access::Found(v) => (r matches Ok(x) && x@ == v),
                Access::Unbound => (r matches Err(Fault::Refer(n)) && n@ == name@),
                Access::Blocked => (r matches Err(Fault::Pure(n)) && n@ == name@),
            },
    {
        if let Mode::Pure = self.mode {
            if self.is_effective(name) {
                return Err(Fault::Pure(name.to_owned()));
            }
        }
        let ghost m = self@;
        let mut i: usize = 0;
        while i < self.scope.len()
            invariant
                m == self@,
                m == old(self)@,
                *self == *old(self),
                !(m.mode == Mode::Pure && m.effect.contains(name@)),
                wf_model(m),
                i <= self.scope.len(),
                forall|j: int| 0 <= j < i ==> m.scope[j].0 != name@,
            decreases self.scope.len() - i,
        {
            if same(self.scope[i].0.as_str(), name) {
                assert(m.scope[i as int].0 == name@);
                proof {
                    lemma_position(m.scope, name@, i as int);
                }
                assert(lookup(m.scope, name@) == Some(m.scope[i as int].1));
                assert(access_model(m, name@) == Access::Found(m.scope[i as int].1));
                let v = copy_value(&self.scope[i].1);
                assert(v@ == m.scope[i as int].1);
                return Ok(v);
            }
            i = i + 1;
        }
        Err(Fault::Refer(name.to_owned()))
    }

    /// Registers `name` for the effect capability.
    pub fn set_effect(&mut self, name: &str)
        requires
            old(self).wf(),
        ensures
            final(self).wf(),
            final(self)@ == set_effect_model(old(self)@, name@),
    {
        if !self.is_effective(name) {
            let ghost m = self@;
            self.effect.push(name.to_owned());
            assert(self@.effect =~= m.effect.push(name@));
        }
    }

    /// Withdraws the effect capability from `name`.
    pub fn unset_effect(&mut self, name: &str)
        requires
            old(self).wf(),
        ensures
            final(self).wf(),
            final(self)@ == unset_effect_model(old(self)@, name@),
    {
        let ghost m = self@;
        let mut i: usize = 0;
        while i < self.effect.len()
            invariant
                m == self@,
                m == old(self)@,
                wf_model(m),
                i <= self.effect.len(),
                forall|j: int| 0 <= j < i ==> m.effect[j] != name@,
            decreases self.effect.len() - i,
        {
            if same(self.effect[i].as_str(), name) {
                assert(m.effect[i as int] == name@);
                proof {
                    lemma_index_of(m.effect, name@, i as int);
                }
                self.effect.remove(i);
                assert(self@.effect =~= m.effect.remove(i as int));
                assert(forall|a: int|
                    0 <= a < self@.effect.len() ==> #[trigger] self@.effect[a] == m.effect[if a < i {
                        a
                    } else {
                        a + 1
                    }]);
                assert(wf_model(self@)) by {
                    assert forall|a: int, b: int|
                        0 <= a < self@.effect.len() && 0 <= b < self@.effect.len() && a != b implies #[trigger] self@.effect[a]
                            != #[trigger] self@.effect[b] by {
                        let a1 = if a < i { a } else { a + 1 };
                        let b1 = if b < i { b } else { b + 1 };
                        assert(m.effect[a1] != m.effect[b1]);
                    }
                }
                return;
            }
            i = i + 1;
        }
        assert(!m.effect.contains(name@));
    }

    /// Whether `name` is registered for the effect capability.
    pub fn is_effective(&self, name: &str) -> (r: bool)
        ensures
            r == self@.effect.contains(name@),
    {
        let mut i: usize = 0;
        while i < self.effect.len()
            invariant
                i <= self.effect.len(),
                forall|j: int| 0 <= j < i ==> self@.effect[j] != name@,
            decreases self.effect.len() - i,
        {
            if same(self.effect[i].as_str(), name) {
                assert(self@.effect[i as int] == name@);
                return true;
            }
            i = i + 1;
        }
        false
    }
}

} // verus!
