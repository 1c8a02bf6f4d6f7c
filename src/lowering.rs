//! The lowering context: definitions, scopes, fresh names, diagnostics, the
//! recursion budget, flattening of operator chains and lowering of type
//! expressions.
use vstd::prelude::*;
use crate::hir::{fits, lemma_fits_grow, lemma_tys_of, tys_of, Loc, Reference, Substitution, Ty, Type, UnificationError, Variable};
use crate::syntax::{BinOp, Syntax, TypeExpr};

verus! {

broadcast use vstd::string::group_string_axioms;

/// A binding site: its name, where it was introduced, and where it is used.
#[derive(Debug)]
pub struct Definition {
    pub name: String,
    pub loc: Loc,
    pub references: Vec<Loc>,
}

#[derive(Debug, Clone, Copy, PartialEq, Eq, Structural)]
pub struct UnresolvedVariableError;

#[derive(Debug, Clone, Copy, PartialEq, Eq, Structural)]
pub struct UnresolvedConstructorError;

#[derive(Debug, Clone, Copy, PartialEq, Eq, Structural)]
pub struct UnresolvedTypeError;

#[derive(Debug, Clone, Copy, PartialEq, Eq, Structural)]
pub struct IncompatiblePatternTypeError;

#[derive(Debug, Clone, Copy, PartialEq, Eq, Structural)]
pub struct ApplicationPatternInConstructorError;

/// Which lookup of a symbol failed.
#[derive(Debug, Clone, Copy, PartialEq, Eq, Structural)]
pub enum UnresolvedSymbolError {
    UnresolvedConstructorError(UnresolvedConstructorError),
    UnresolvedVariableError(UnresolvedVariableError),
}

/// A diagnostic recorded while lowering.
#[derive(Debug)]
pub enum Diagnostic {
    UnresolvedVariable(UnresolvedVariableError),
    UnresolvedConstructor(UnresolvedConstructorError),
    UnresolvedType(UnresolvedTypeError),
    UnresolvedSymbol(UnresolvedSymbolError),
    IncompatiblePatternType(IncompatiblePatternTypeError),
    ApplicationPatternInConstructor(ApplicationPatternInConstructorError),
    Unification(UnificationError),
    /// The recursion budget of the lowering pass is spent.
    RecursionBudget,
}

/// The binding that the last entry named `name` points to.
pub open spec fn resolve(entries: Seq<(String, usize)>, name: Seq<char>) -> Option<usize>
    decreases entries.len(),
{
    if entries.len() == 0 {
        None
    } else if entries.last().0@ == name {
        Some(entries.last().1)
    } else {
        resolve(entries.drop_last(), name)
    }
}

/// A name-to-binding scope. A later entry of the same name shadows earlier
/// ones. The scope is a list searched from its end rather than a hash map:
/// a list keyed by `String` is what the contracts can speak of exactly.
pub struct Scope {
    pub entries: Vec<(String, usize)>,
}

impl Scope {
    pub open spec fn get(&self, name: Seq<char>) -> Option<usize> {
        resolve(self.entries@, name)
    }

    pub fn new() -> (r: Scope)
        ensures
            forall|n: Seq<char>| r.get(n) is None,
    {
        Scope { entries: Vec::new() }
    }

    /// Binds `name` to `def`, shadowing any earlier binding of the name.
    pub fn insert(&mut self, name: String, def: usize)
        ensures
            final(self).get(name@) == Some(def),
            forall|n: Seq<char>| n != name@ ==> final(self).get(n) == old(self).get(n),
    {
        self.entries.push((name, def));
        assert(self.entries@.drop_last() =~= old(self).entries@);
    }

    /// The binding of `name`, if any.
    pub fn find(&self, name: &String) -> (r: Option<usize>)
        ensures
            r == self.get(name@),
    {
        let mut j: usize = self.entries.len();
        assert(self.entries@.subrange(0, j as int) =~= self.entries@);
        while j > 0
            invariant
                j <= self.entries@.len(),
                self.get(name@) == resolve(self.entries@.subrange(0, j as int), name@),
            decreases j,
        {
            assert(self.entries@.subrange(0, j as int).drop_last() =~= self.entries@.subrange(0, j - 1));
            assert(self.entries@.subrange(0, j as int).last() == self.entries@[j - 1]);
            if self.entries[j - 1].0 == *name {
                return Some(self.entries[j - 1].1);
            }
            j = j - 1;
        }
        None
    }
}

/// The decimal digit `d`.
pub open spec fn digit(d: nat) -> char {
    seq!['0', '1', '2', '3', '4', '5', '6', '7', '8', '9'][d as int]
}

/// The decimal notation of `n`, without sign or leading zeros.
pub open spec fn decimal(n: nat) -> Seq<char>
    decreases n,
{
    if n < 10 {
        seq![digit(n)]
    } else {
        decimal(n / 10).push(digit(n % 10))
    }
}

/// The name of the `n`-th synthesized variable.
pub open spec fn fresh_name(n: nat) -> Seq<char> {
    seq!['_'] + decimal(n)
}

/// Relies on `String::push`: appends one character.
#[verifier::external_body]
fn push_char(s: &mut String, c: char)
    ensures
        final(s)@ == old(s)@.push(c),
{
    s.push(c)
}

/// The character of the decimal digit `d`.
fn digit_char(d: usize) -> (c: char)
    requires
        d < 10,
    ensures
        c == digit(d as nat),
{
    let digits: [char; 10] = ['0', '1', '2', '3', '4', '5', '6', '7', '8', '9'];
    assert(digits@ =~= seq!['0', '1', '2', '3', '4', '5', '6', '7', '8', '9']);
    digits[d]
}

/// Appends the decimal notation of `n` to `s`.
fn push_decimal(s: &mut String, n: usize)
    ensures
        final(s)@ == old(s)@ + decimal(n as nat),
    decreases n,
{
    if n < 10 {
        push_char(s, digit_char(n));
        assert(old(s)@.push(digit(n as nat)) =~= old(s)@ + seq![digit(n as nat)]);
    } else {
        push_decimal(s, n / 10);
        push_char(s, digit_char(n % 10));
        assert(old(s)@ + decimal((n / 10) as nat).push(digit((n % 10) as nat)) =~= (old(s)@ + decimal((n / 10) as nat)).push(digit((n % 10) as nat)));
    }
}

/// The name of the `n`-th synthesized variable: `_` and the digits of `n`.
fn fresh_name_of(n: usize) -> (r: String)
    ensures
        r@ == fresh_name(n as nat),
{
    let mut s = String::new();
    push_char(&mut s, '_');
    push_decimal(&mut s, n);
    assert(Seq::<char>::empty().push('_') =~= seq!['_']);
    s
}

/// `t` without one outer source-position wrapper.
pub open spec fn strip_pos(t: Syntax) -> Syntax {
    match t {
        Syntax::SrcPos(inner, _) => *inner,
        _ => t,
    }
}

/// The left operands peeled off the right spine of `t` while its operator is
/// `desired`.
pub open spec fn operands(desired: BinOp, t: Syntax) -> Seq<Syntax>
    decreases t,
{
    match t {
        Syntax::BinOp(l, op, r) => {
            if op == desired {
                seq![*l] + operands(desired, *r)
            } else {
                Seq::empty()
            }
        },
        _ => Seq::empty(),
    }
}

/// Lowering of the type expression `t`. `vars` binds the names of type
/// variables met so far to cells; `next` is the next cell to allocate. Each
/// anonymous hole and each newly met name gets the next cell; a name met
/// again gets its cell. The result holds the type, the bindings and the next
/// free cell afterwards.
pub open spec fn surface_spec(t: TypeExpr, vars: Seq<(String, usize)>, next: nat) -> (Ty, Seq<(String, usize)>, nat)
    decreases t,
{
    match t {
        TypeExpr::SrcPos(inner, _) => surface_spec(*inner, vars, next),
        TypeExpr::Pair(v) => {
            let (w, vars1, next1) = surface_all(v@, vars, next);
            (Ty::Pair(w), vars1, next1)
        },
        TypeExpr::Tuple(v) => {
            let (w, vars1, next1) = surface_all(v@, vars, next);
            (Ty::Tuple(w), vars1, next1)
        },
        TypeExpr::Fun(a, b) => {
            let (x, vars1, next1) = surface_spec(*a, vars, next);
            let (y, vars2, next2) = surface_spec(*b, vars1, next1);
            (Ty::Fun(Box::new(x), Box::new(y)), vars2, next2)
        },
        TypeExpr::App(n, a) => {
            let (x, vars1, next1) = surface_spec(*a, vars, next);
            (Ty::App(n, Box::new(x)), vars1, next1)
        },
        TypeExpr::Local(a) => {
            let (x, vars1, next1) = surface_spec(*a, vars, next);
            (Ty::Local(Box::new(x)), vars1, next1)
        },
        TypeExpr::Meta(name) => match resolve(vars, name@) {
            Some(h) => (Ty::Hole(h), vars, next),
            None => (Ty::Hole(next as usize), vars.push((name, next as usize)), next + 1),
        },
        TypeExpr::Constructor(c) => (Ty::Constructor(c), vars, next),
        TypeExpr::Hole => (Ty::Hole(next as usize), vars, next + 1),
    }
}

/// Lowers the elements of `v` from left to right.
pub open spec fn surface_all(v: Seq<TypeExpr>, vars: Seq<(String, usize)>, next: nat) -> (Seq<Ty>, Seq<(String, usize)>, nat)
    decreases v,
{
    if v.len() == 0 {
        (Seq::empty(), vars, next)
    } else {
        let (x, vars1, next1) = surface_spec(v[0], vars, next);
        let (rest, vars2, next2) = surface_all(v.drop_first(), vars1, next1);
        (seq![x] + rest, vars2, next2)
    }
}

/// The store `t` is `s` with `k` unbound cells appended.
pub open spec fn appends_unbound(s: Seq<Option<Ty>>, t: Seq<Option<Ty>>) -> bool {
    &&& t.len() >= s.len()
    &&& t.subrange(0, s.len() as int) == s
    &&& forall|i: int| s.len() <= i < t.len() ==> (#[trigger] t[i]) is None
}

/// The bindings of `vars` name cells below `n`.
pub open spec fn vars_below(vars: Seq<(String, usize)>, n: nat) -> bool {
    forall|i: int| 0 <= i < vars.len() ==> (#[trigger] vars[i]).1 < n
}

proof fn lemma_resolve_below(vars: Seq<(String, usize)>, name: Seq<char>, n: nat)
    requires
        vars_below(vars, n),
    ensures
        resolve(vars, name) is Some ==> resolve(vars, name)->Some_0 < n,
    decreases vars.len(),
{
    if vars.len() > 0 {
        assert forall|i: int| 0 <= i < vars.drop_last().len() implies (#[trigger] vars.drop_last()[i]).1 < n by {
            assert(vars.drop_last()[i] == vars[i]);
        }
        lemma_resolve_below(vars.drop_last(), name, n);
    }
}

proof fn lemma_appends_trans(a: Seq<Option<Ty>>, b: Seq<Option<Ty>>, c: Seq<Option<Ty>>)
    requires
        appends_unbound(a, b),
        appends_unbound(b, c),
    ensures
        appends_unbound(a, c),
{
    assert(c.subrange(0, a.len() as int) =~= b.subrange(0, a.len() as int));
    assert forall|i: int| a.len() <= i < c.len() implies (#[trigger] c[i]) is None by {
        if i < b.len() {
            assert(c[i] == b[i]);
        }
    }
}

fn lower_at(t: &TypeExpr, vars: &mut Vec<(String, usize)>, subst: &mut Substitution) -> (r: Type)
    requires
        old(subst).wf(),
        old(subst)@.len() + type_size(*t) < usize::MAX,
        vars_below(old(vars)@, old(subst)@.len()),
    ensures
        final(subst).wf(),
        appends_unbound(old(subst)@, final(subst)@),
        (r@, final(vars)@, final(subst)@.len()) == surface_spec(*t, old(vars)@, old(subst)@.len()),
        final(subst)@.len() <= old(subst)@.len() + type_size(*t),
        fits(r@, final(subst)@.len()),
        vars_below(final(vars)@, final(subst)@.len()),
    decreases t,
{
    proof {
        lemma_type_size_pos(*t);
    }
    match t {
        TypeExpr::SrcPos(inner, _) => lower_at(inner, vars, subst),
        TypeExpr::Pair(v) => {
            let w = lower_each(v, vars, subst);
            proof {
                let p = Ty::Pair(tys_of(w@));
                assert(p->Pair_0 == tys_of(w@));
            }
            Type::Pair(w)
        },
        TypeExpr::Tuple(v) => {
            let w = lower_each(v, vars, subst);
            proof {
                let p = Ty::Tuple(tys_of(w@));
                assert(p->Tuple_0 == tys_of(w@));
            }
            Type::Tuple(w)
        },
        TypeExpr::Fun(a, b) => {
            let ghost s0 = subst@;
            let x = lower_at(a, vars, subst);
            let ghost s1 = subst@;
            let y = lower_at(b, vars, subst);
            proof {
                lemma_appends_trans(s0, s1, subst@);
                lemma_fits_grow(x@, s1.len(), subst@.len());
            }
            Type::Fun(Box::new(x), Box::new(y))
        },
        TypeExpr::App(n, a) => Type::App(*n, Box::new(lower_at(a, vars, subst))),
        TypeExpr::Local(a) => Type::Local(Box::new(lower_at(a, vars, subst))),
        TypeExpr::Meta(name) => {
            let mut j: usize = vars.len();
            assert(vars@.subrange(0, j as int) =~= vars@);
            proof {
                lemma_resolve_below(vars@, name@, subst@.len());
            }
            while j > 0
                invariant
                    j <= vars@.len(),
                    vars@ == old(vars)@,
                    subst@ == old(subst)@,
                    subst.wf(),
                    *t == TypeExpr::Meta(*name),
                    vars_below(vars@, subst@.len()),
                    resolve(vars@, name@) is Some ==> resolve(vars@, name@)->Some_0 < subst@.len(),
                    resolve(vars@, name@) == resolve(vars@.subrange(0, j as int), name@),
                decreases j,
            {
                assert(vars@.subrange(0, j as int).drop_last() =~= vars@.subrange(0, j - 1));
                assert(vars@.subrange(0, j as int).last() == vars@[j - 1]);
                if vars[j - 1].0 == *name {
                    let h = vars[j - 1].1;
                    proof {
                        assert(subst@.subrange(0, subst@.len() as int) =~= subst@);
                    }
                    return Type::Hole(Variable { id: h });
                }
                j = j - 1;
            }
            let v = subst.fresh();
            vars.push((name.clone(), v.id));
            proof {
                assert(subst@.subrange(0, old(subst)@.len() as int) =~= old(subst)@);
            }
            Type::Hole(v)
        },
        TypeExpr::Constructor(c) => {
            proof {
                assert(subst@.subrange(0, subst@.len() as int) =~= subst@);
            }
            Type::Constructor(*c)
        },
        TypeExpr::Hole => {
            let v = subst.fresh();
            proof {
                assert(subst@.subrange(0, old(subst)@.len() as int) =~= old(subst)@);
            }
            Type::Hole(v)
        },
    }
}

/// Number of nodes of a type expression.
pub open spec fn type_size(t: TypeExpr) -> nat
    decreases t,
{
    match t {
        TypeExpr::SrcPos(inner, _) => 1 + type_size(*inner),
        TypeExpr::Pair(v) => 1 + sizes(v@),
        TypeExpr::Tuple(v) => 1 + sizes(v@),
        TypeExpr::Fun(a, b) => 1 + type_size(*a) + type_size(*b),
        TypeExpr::App(_, a) => 1 + type_size(*a),
        TypeExpr::Local(a) => 1 + type_size(*a),
        _ => 1,
    }
}

pub open spec fn sizes(v: Seq<TypeExpr>) -> nat
    decreases v,
{
    if v.len() == 0 {
        0
    } else {
        type_size(v[0]) + sizes(v.drop_first())
    }
}

proof fn lemma_type_size_pos(t: TypeExpr)
    ensures
        type_size(t) >= 1,
{
}

fn lower_each(v: &Vec<TypeExpr>, vars: &mut Vec<(String, usize)>, subst: &mut Substitution) -> (w: Vec<Type>)
    requires
        old(subst).wf(),
        old(subst)@.len() + sizes(v@) < usize::MAX,
        vars_below(old(vars)@, old(subst)@.len()),
    ensures
        final(subst).wf(),
        appends_unbound(old(subst)@, final(subst)@),
        (tys_of(w@), final(vars)@, final(subst)@.len()) == surface_all(v@, old(vars)@, old(subst)@.len()),
        final(subst)@.len() <= old(subst)@.len() + sizes(v@),
        forall|j: int| 0 <= j < tys_of(w@).len() ==> fits(#[trigger] tys_of(w@)[j], final(subst)@.len()),
        vars_below(final(vars)@, final(subst)@.len()),
    decreases v,
{
    let ghost s0 = subst@;
    let ghost vars0 = vars@;
    let mut w: Vec<Type> = Vec::new();
    let mut i: usize = 0;
    proof {
        assert(v@.subrange(0, v@.len() as int) =~= v@);
        assert(s0.subrange(0, s0.len() as int) =~= s0);
        lemma_tys_of(w@);
        let x = surface_all(v@, vars0, s0.len());
        assert(Seq::<Ty>::empty() + x.0 =~= x.0);
    }
    while i < v.len()
        invariant
            i <= v@.len(),
            subst.wf(),
            s0 == old(subst)@,
            vars0 == old(vars)@,
            appends_unbound(s0, subst@),
            vars_below(vars@, subst@.len()),
            subst@.len() + sizes(v@.subrange(i as int, v@.len() as int)) <= s0.len() + sizes(v@),
            s0.len() + sizes(v@) < usize::MAX,
            forall|j: int| 0 <= j < tys_of(w@).len() ==> fits(#[trigger] tys_of(w@)[j], subst@.len()),
            surface_all(v@, vars0, s0.len()) == ({
                let x = surface_all(v@.subrange(i as int, v@.len() as int), vars@, subst@.len());
                (tys_of(w@) + x.0, x.1, x.2)
            }),
        decreases v.len() - i,
    {
        assert(decreases_to!(v => v[i as int]));
        let ghost rest = v@.subrange(i as int, v@.len() as int);
        assert(rest[0] == v@[i as int]);
        assert(rest.drop_first() =~= v@.subrange(i + 1, v@.len() as int));
        let ghost s1 = subst@;
        let x = lower_at(&v[i], vars, subst);
        proof {
            lemma_appends_trans(s0, s1, subst@);
        }
        let ghost w0 = w@;
        w.push(x);
        proof {
            assert(w@.drop_last() =~= w0);
            lemma_tys_of(w0);
            lemma_tys_of(w@);
            assert forall|j: int| 0 <= j < tys_of(w@).len() implies fits(#[trigger] tys_of(w@)[j], subst@.len()) by {
                if j < w0.len() {
                    assert(tys_of(w@)[j] == tys_of(w0)[j]);
                    lemma_fits_grow(tys_of(w0)[j], s1.len(), subst@.len());
                }
            }
            let tail = surface_all(v@.subrange(i + 1, v@.len() as int), vars@, subst@.len());
            assert(tys_of(w0) + (seq![x@] + tail.0) =~= tys_of(w@) + tail.0);
        }
        i = i + 1;
    }
    proof {
        assert(v@.subrange(i as int, v@.len() as int) =~= Seq::<TypeExpr>::empty());
        assert(tys_of(w@) + Seq::<Ty>::empty() =~= tys_of(w@));
    }
    w
}

impl Type {
    /// Lowers a type expression. Each anonymous hole becomes a new cell of
    /// `subst`; all occurrences of one type-variable name within this call
    /// share one new cell, and names carry nothing over from other calls.
    pub fn from_surface(t: TypeExpr, subst: &mut Substitution) -> (r: Type)
        requires
            old(subst).wf(),
            old(subst)@.len() + type_size(t) < usize::MAX,
        ensures
            final(subst).wf(),
            appends_unbound(old(subst)@, final(subst)@),
            r@ == surface_spec(t, Seq::empty(), old(subst)@.len()).0,
            final(subst)@.len() == surface_spec(t, Seq::empty(), old(subst)@.len()).2,
            fits(r@, final(subst)@.len()),
    {
        let mut vars: Vec<(String, usize)> = Vec::new();
        lower_at(&t, &mut vars, subst)
    }
}

/// How many guarded steps one lowering pass may take.
pub const GAS: usize = 10000;

/// State of one lowering pass: the current source position, the arena of
/// definitions (a [Reference] is an index into it), three scopes, the
/// diagnostics, the fresh-name counter and the recursion budget spent.
///
/// One context owns its diagnostics and counter; the pass threads it by
/// `&mut` instead of cloning it with shared cells, so a nested scope is
/// entered by introducing names and left by the caller restoring the
/// scopes it saved. Fresh names stay unique because the single counter
/// only grows.
pub struct LoweringCtx {
    pub src_pos: Loc,
    pub definitions: Vec<Definition>,
    pub variables: Scope,
    pub constructors: Scope,
    pub types: Scope,
    pub errors: Vec<Diagnostic>,
    pub counter: usize,
    pub gas: usize,
}

impl Default for LoweringCtx {
    fn default() -> (r: LoweringCtx)
        ensures
            r.wf(),
            r.src_pos == (Loc { start: 0, end: 0 }),
            r.definitions@.len() == 4,
            forall|i: int| 0 <= i < 4 ==> (#[trigger] r.definitions@[i]).name@ == builtin_types()[i],
            forall|i: int| 0 <= i < 4 ==> r.types.get(#[trigger] builtin_types()[i]) == Some(i as usize),
            forall|n: Seq<char>| !builtin_types().contains(n) ==> #[trigger] r.types.get(n) is None,
            forall|n: Seq<char>| #[trigger] r.variables.get(n) is None,
            forall|n: Seq<char>| #[trigger] r.constructors.get(n) is None,
            r.errors@.len() == 0,
            r.counter == 0,
            r.gas == 0,
    {
        LoweringCtx::new()
    }
}

/// The built-in type names, in the order they are defined.
pub open spec fn builtin_types() -> Seq<Seq<char>> {
    seq![seq!['i', 'n', 't'], seq!['s', 't', 'r', 'i', 'n', 'g'], seq!['u', 'n', 'i', 't'], seq!['l', 'o', 'c', 'a', 'l']]
}

impl LoweringCtx {
    /// Every binding of a scope is a definition of the arena.
    pub open spec fn wf(&self) -> bool {
        &&& forall|n: Seq<char>| #[trigger] self.variables.get(n) is Some ==> self.variables.get(n)->Some_0 < self.definitions.len()
        &&& forall|n: Seq<char>| #[trigger] self.constructors.get(n) is Some ==> self.constructors.get(n)->Some_0 < self.definitions.len()
        &&& forall|n: Seq<char>| #[trigger] self.types.get(n) is Some ==> self.types.get(n)->Some_0 < self.definitions.len()
    }

    /// A context with empty variable and constructor scopes and the type
    /// scope holding the built-in types `int`, `string`, `unit` and `local`,
    /// defined in that order.
    pub fn new() -> (r: LoweringCtx)
        ensures
            r.wf(),
            r.src_pos == (Loc { start: 0, end: 0 }),
            r.definitions@.len() == 4,
            forall|i: int| 0 <= i < 4 ==> (#[trigger] r.definitions@[i]).name@ == builtin_types()[i],
            forall|i: int| 0 <= i < 4 ==> r.types.get(#[trigger] builtin_types()[i]) == Some(i as usize),
            forall|n: Seq<char>| !builtin_types().contains(n) ==> #[trigger] r.types.get(n) is None,
            forall|n: Seq<char>| #[trigger] r.variables.get(n) is None,
            forall|n: Seq<char>| #[trigger] r.constructors.get(n) is None,
            r.errors@.len() == 0,
            r.counter == 0,
            r.gas == 0,
    {
        let mut ctx = LoweringCtx {
            src_pos: Loc { start: 0, end: 0 },
            definitions: Vec::new(),
            variables: Scope::new(),
            constructors: Scope::new(),
            types: Scope::new(),
            errors: Vec::new(),
            counter: 0,
            gas: 0,
        };
        proof {
            reveal_strlit("int");
            reveal_strlit("string");
            reveal_strlit("unit");
            reveal_strlit("local");
        }
        let int_ty = ctx.define("int".to_string());
        let int_name = "int".to_string();
        assert(int_name@ == builtin_types()[0]);
        ctx.types.insert(int_name, int_ty.def);
        let string_ty = ctx.define("string".to_string());
        let string_name = "string".to_string();
        assert(string_name@ == builtin_types()[1]);
        ctx.types.insert(string_name, string_ty.def);
        let unit_ty = ctx.define("unit".to_string());
        let unit_name = "unit".to_string();
        assert(unit_name@ == builtin_types()[2]);
        ctx.types.insert(unit_name, unit_ty.def);
        let local_ty = ctx.define("local".to_string());
        let local_name = "local".to_string();
        assert(local_name@ == builtin_types()[3]);
        ctx.types.insert(local_name, local_ty.def);
        assert forall|n: Seq<char>| !builtin_types().contains(n) implies #[trigger] ctx.types.get(n) is None by {
            assert(n != builtin_types()[0]) by {
                if n == builtin_types()[0] {
                    assert(builtin_types().contains(n));
                }
            }
            assert(n != builtin_types()[1]) by {
                if n == builtin_types()[1] {
                    assert(builtin_types().contains(n));
                }
            }
            assert(n != builtin_types()[2]) by {
                if n == builtin_types()[2] {
                    assert(builtin_types().contains(n));
                }
            }
            assert(n != builtin_types()[3]) by {
                if n == builtin_types()[3] {
                    assert(builtin_types().contains(n));
                }
            }
        }
        ctx
    }

    /// `self` is `prev` with one definition `r` named `name` added at the
    /// current position; scopes, diagnostics and counters are left alone.
    pub open spec fn adds_definition(&self, prev: &LoweringCtx, name: Seq<char>, r: Reference) -> bool {
        &&& r.def == prev.definitions.len()
        &&& self.definitions@.len() == prev.definitions@.len() + 1
        &&& self.definitions@.subrange(0, prev.definitions@.len() as int) == prev.definitions@
        &&& self.definitions@.last().name@ == name
        &&& self.definitions@.last().loc == prev.src_pos
        &&& self.definitions@.last().references@.len() == 0
        &&& self.src_pos == prev.src_pos
        &&& self.errors == prev.errors
        &&& self.gas == prev.gas
    }

    /// Introduces a synthesized variable named `_<n>`, `n` being the counter
    /// after it is increased.
    pub fn new_fresh_variable(&mut self) -> (r: Reference)
        requires
            old(self).wf(),
            old(self).counter < usize::MAX,
            old(self).definitions.len() < usize::MAX,
        ensures
            final(self).wf(),
            final(self).counter == old(self).counter + 1,
            final(self).adds_definition(old(self), fresh_name(final(self).counter as nat), r),
            final(self).variables.get(fresh_name(final(self).counter as nat)) == Some(r.def),
            forall|n: Seq<char>| n != fresh_name(final(self).counter as nat) ==> #[trigger] final(self).variables.get(n) == old(self).variables.get(n),
            final(self).constructors == old(self).constructors,
            final(self).types == old(self).types,
    {
        self.counter = self.counter + 1;
        let name = fresh_name_of(self.counter);
        let key = fresh_name_of(self.counter);
        let r = self.define(name);
        self.variables.insert(key, r.def);
        assert(self.definitions@.subrange(0, old(self).definitions@.len() as int) =~= old(self).definitions@);
        r
    }

    /// Introduces a constructor named `name`, shadowing any earlier one.
    pub fn new_constructor(&mut self, name: String) -> (r: Reference)
        requires
            old(self).wf(),
            old(self).definitions.len() < usize::MAX,
        ensures
            final(self).wf(),
            final(self).adds_definition(old(self), name@, r),
            final(self).constructors.get(name@) == Some(r.def),
            forall|n: Seq<char>| n != name@ ==> #[trigger] final(self).constructors.get(n) == old(self).constructors.get(n),
            final(self).variables == old(self).variables,
            final(self).types == old(self).types,
            final(self).counter == old(self).counter,
    {
        let key = name.clone();
        let r = self.define(name);
        self.constructors.insert(key, r.def);
        assert(self.definitions@.subrange(0, old(self).definitions@.len() as int) =~= old(self).definitions@);
        r
    }

    /// Introduces a type named `name`, shadowing any earlier one.
    pub fn new_type(&mut self, name: String) -> (r: Reference)
        requires
            old(self).wf(),
            old(self).definitions.len() < usize::MAX,
        ensures
            final(self).wf(),
            final(self).adds_definition(old(self), name@, r),
            final(self).types.get(name@) == Some(r.def),
            forall|n: Seq<char>| n != name@ ==> #[trigger] final(self).types.get(n) == old(self).types.get(n),
            final(self).variables == old(self).variables,
            final(self).constructors == old(self).constructors,
            final(self).counter == old(self).counter,
    {
        let key = name.clone();
        let r = self.define(name);
        self.types.insert(key, r.def);
        assert(self.definitions@.subrange(0, old(self).definitions@.len() as int) =~= old(self).definitions@);
        r
    }

    /// Introduces a variable named `name`, shadowing any earlier one.
    pub fn new_variable(&mut self, name: String) -> (r: Reference)
        requires
            old(self).wf(),
            old(self).definitions.len() < usize::MAX,
        ensures
            final(self).wf(),
            final(self).adds_definition(old(self), name@, r),
            final(self).variables.get(name@) == Some(r.def),
            forall|n: Seq<char>| n != name@ ==> #[trigger] final(self).variables.get(n) == old(self).variables.get(n),
            final(self).constructors == old(self).constructors,
            final(self).types == old(self).types,
            final(self).counter == old(self).counter,
    {
        let key = name.clone();
        let r = self.define(name);
        self.variables.insert(key, r.def);
        assert(self.definitions@.subrange(0, old(self).definitions@.len() as int) =~= old(self).definitions@);
        r
    }

    /// Records a diagnostic; lowering goes on.
    pub fn report_error(&mut self, error: Diagnostic)
        ensures
            final(self).errors@ == old(self).errors@.push(error),
            final(self).definitions == old(self).definitions,
            final(self).variables == old(self).variables,
            final(self).constructors == old(self).constructors,
            final(self).types == old(self).types,
            final(self).counter == old(self).counter,
            final(self).gas == old(self).gas,
            final(self).src_pos == old(self).src_pos,
    {
        self.errors.push(error);
    }

    pub fn lookup_variable(&self, name: &String) -> (r: Result<Reference, UnresolvedVariableError>)
        ensures
            r == (match self.variables.get(name@) {
                Some(d) => Ok(Reference { def: d }),
                None => Err(UnresolvedVariableError),
            }),
    {
        match self.variables.find(name) {
            Some(d) => Ok(Reference { def: d }),
            None => Err(UnresolvedVariableError),
        }
    }

    pub fn lookup_type(&self, name: &String) -> (r: Result<Reference, UnresolvedTypeError>)
        ensures
            r == (match self.types.get(name@) {
                Some(d) => Ok(Reference { def: d }),
                None => Err(UnresolvedTypeError),
            }),
    {
        match self.types.find(name) {
            Some(d) => Ok(Reference { def: d }),
            None => Err(UnresolvedTypeError),
        }
    }

    pub fn lookup_constructor(&self, name: &String) -> (r: Result<Reference, UnresolvedConstructorError>)
        ensures
            r == (match self.constructors.get(name@) {
                Some(d) => Ok(Reference { def: d }),
                None => Err(UnresolvedConstructorError),
            }),
    {
        match self.constructors.find(name) {
            Some(d) => Ok(Reference { def: d }),
            None => Err(UnresolvedConstructorError),
        }
    }

    /// A constructor of that name if there is one, else a variable; when
    /// both lookups fail, the error names the variable lookup, the last tried.
    pub fn lookup(&self, name: &String) -> (r: Result<Reference, UnresolvedSymbolError>)
        ensures
            r == (match self.constructors.get(name@) {
                Some(d) => Ok(Reference { def: d }),
                None => match self.variables.get(name@) {
                    Some(d) => Ok(Reference { def: d }),
                    None => Err(UnresolvedSymbolError::UnresolvedVariableError(UnresolvedVariableError)),
                },
            }),
    {
        match self.lookup_constructor(name) {
            Ok(d) => Ok(d),
            Err(_) => match self.lookup_variable(name) {
                Ok(d) => Ok(d),
                Err(e) => Err(UnresolvedSymbolError::UnresolvedVariableError(e)),
            },
        }
    }

    /// The value of `term`, or `None` after recording its diagnostic.
    pub fn or_none<T>(&mut self, term: Result<T, Diagnostic>) -> (r: Option<T>)
        ensures
            match term {
                Ok(t) => r == Some(t) && final(self).errors == old(self).errors,
                Err(e) => r is None && final(self).errors@ == old(self).errors@.push(e),
            },
            final(self).definitions == old(self).definitions,
            final(self).variables == old(self).variables,
            final(self).constructors == old(self).constructors,
            final(self).types == old(self).types,
            final(self).counter == old(self).counter,
            final(self).gas == old(self).gas,
    {
        match term {
            Ok(t) => Some(t),
            Err(e) => {
                self.report_error(e);
                None
            },
        }
    }

    /// Spends one step of the recursion budget, failing once it is spent.
    fn burn(&mut self) -> (r: Result<(), Diagnostic>)
        ensures
            old(self).gas < GAS ==> r is Ok && final(self).gas == old(self).gas + 1,
            old(self).gas >= GAS ==> (r matches Err(Diagnostic::RecursionBudget)) && final(self).gas == old(self).gas,
            final(self).definitions == old(self).definitions,
            final(self).variables == old(self).variables,
            final(self).constructors == old(self).constructors,
            final(self).types == old(self).types,
            final(self).counter == old(self).counter,
            final(self).errors == old(self).errors,
            final(self).src_pos == old(self).src_pos,
    {
        if self.gas >= GAS {
            return Err(Diagnostic::RecursionBudget);
        }
        self.gas = self.gas + 1;
        Ok(())
    }

    /// Flattens a chain of `desired` operators: strips one outer source
    /// position, then peels left operands off the right spine while the
    /// operator is `desired`, in order. Spends one step of the budget.
    pub fn sep_by(&mut self, desired: BinOp, acc: Syntax) -> (r: Result<Vec<Syntax>, Diagnostic>)
        ensures
            old(self).gas < GAS ==> r is Ok && r->Ok_0@ == operands(desired, strip_pos(acc)),
            old(self).gas >= GAS ==> (r matches Err(Diagnostic::RecursionBudget)),
            old(self).gas < GAS ==> final(self).gas == old(self).gas + 1,
            old(self).gas >= GAS ==> final(self).gas == old(self).gas,
            final(self).src_pos == old(self).src_pos,
            final(self).definitions == old(self).definitions,
            final(self).variables == old(self).variables,
            final(self).constructors == old(self).constructors,
            final(self).types == old(self).types,
            final(self).counter == old(self).counter,
            final(self).errors == old(self).errors,
    {
        let spent = self.burn();
        if spent.is_err() {
            return Err(Diagnostic::RecursionBudget);
        }
        let ghost start = strip_pos(acc);
        let mut cur = match acc {
            Syntax::SrcPos(inner, _) => *inner,
            other => other,
        };
        let mut terms: Vec<Syntax> = Vec::new();
        loop
            invariant
                operands(desired, start) == terms@ + operands(desired, cur),
            ensures
                operands(desired, start) == terms@,
            decreases cur,
        {
            match cur {
                Syntax::BinOp(l, op, r) => {
                    if op == desired {
                        let ghost w = terms@;
                        terms.push(*l);
                        assert(w + (seq![*l] + operands(desired, *r)) =~= terms@ + operands(desired, *r));
                        cur = *r;
                    } else {
                        assert(terms@ + Seq::<Syntax>::empty() =~= terms@);
                        break;
                    }
                },
                other => {
                    assert(operands(desired, other) == Seq::<Syntax>::empty());
                    assert(terms@ + Seq::<Syntax>::empty() =~= terms@);
                    break;
                },
            }
        }
        Ok(terms)
    }

    /// Adds a definition named `name` at the current position.
    fn define(&mut self, name: String) -> (r: Reference)
        requires
            old(self).definitions.len() < usize::MAX,
        ensures
            r.def == old(self).definitions.len(),
            final(self).definitions@ == old(self).definitions@.push(final(self).definitions@.last()),
            final(self).definitions@.last().name@ == name@,
            final(self).definitions@.last().loc == old(self).src_pos,
            final(self).definitions@.last().references@.len() == 0,
            final(self).src_pos == old(self).src_pos,
            final(self).variables == old(self).variables,
            final(self).constructors == old(self).constructors,
            final(self).types == old(self).types,
            final(self).errors == old(self).errors,
            final(self).counter == old(self).counter,
            final(self).gas == old(self).gas,
    {
        let r = Reference { def: self.definitions.len() };
        self.definitions.push(Definition { name, loc: self.src_pos, references: Vec::new() });
        r
    }
}

} // verus!
