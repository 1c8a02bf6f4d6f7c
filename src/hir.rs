//! The typed intermediate representation: terms, case trees and types, the
//! store of unification cells, unification, generalization and instantiation.
use vstd::prelude::*;
use crate::laws::{distinct_cells, lemma_gen_closed, lemma_gen_distinct, monomorphic, store_monomorphic};

verus! {

broadcast use vstd::std_specs::vec::group_vec_axioms, vstd::seq::group_seq_axioms;

/// A span of source text.
#[derive(Debug, Clone, Copy, PartialEq, Eq, Structural, Hash, Default)]
pub struct Loc {
    pub start: usize,
    pub end: usize,
}

/// A handle to a binding site; two references are the same binding exactly
/// when their handles are equal.
#[derive(Debug, Clone, Copy, PartialEq, Eq, Structural, Hash)]
pub struct Reference {
    pub def: usize,
}

/// A unification cell, named by its index in a [Substitution]. Every
/// `Type::Hole` holding the same index shares the cell.
#[derive(Debug, Clone, Copy, PartialEq, Eq, Structural, Hash)]
pub struct Variable {
    pub id: usize,
}

/// Monomorphic type.
#[derive(Debug, PartialEq, Eq, Hash)]
pub enum Type {
    Any,
    Pair(Vec<Type>),
    Tuple(Vec<Type>),
    Fun(Box<Type>, Box<Type>),
    App(Reference, Box<Type>),
    Local(Box<Type>),
    Constructor(Reference),
    Meta(usize),
    Hole(Variable),
}

/// The mathematical form of a [Type].
pub enum Ty {
    Any,
    Pair(Seq<Ty>),
    Tuple(Seq<Ty>),
    Fun(Box<Ty>, Box<Ty>),
    App(Reference, Box<Ty>),
    Local(Box<Ty>),
    Constructor(Reference),
    Meta(usize),
    Hole(usize),
}

pub open spec fn ty_of(t: Type) -> Ty
    decreases t, 0nat,
{
    match t {
        Type::Any => Ty::Any,
        Type::Pair(v) => Ty::Pair(tys_of(v@)),
        Type::Tuple(v) => Ty::Tuple(tys_of(v@)),
        Type::Fun(a, b) => Ty::Fun(Box::new(ty_of(*a)), Box::new(ty_of(*b))),
        Type::App(n, a) => Ty::App(n, Box::new(ty_of(*a))),
        Type::Local(a) => Ty::Local(Box::new(ty_of(*a))),
        Type::Constructor(c) => Ty::Constructor(c),
        Type::Meta(m) => Ty::Meta(m),
        Type::Hole(h) => Ty::Hole(h.id),
    }
}

pub open spec fn tys_of(s: Seq<Type>) -> Seq<Ty>
    decreases s, s.len(),
{
    if s.len() == 0 {
        Seq::empty()
    } else {
        tys_of(s.drop_last()).push(ty_of(s.last()))
    }
}

/// `tys_of` views a sequence of types element by element.
pub proof fn lemma_tys_of(s: Seq<Type>)
    ensures
        tys_of(s).len() == s.len(),
        forall|i: int| 0 <= i < s.len() ==> #[trigger] tys_of(s)[i] == ty_of(s[i]),
    decreases s.len(),
{
    if s.len() > 0 {
        lemma_tys_of(s.drop_last());
    }
}

/// The elements of a pair or tuple that fits fit too.
pub proof fn lemma_fits_items(x: Seq<Ty>, n: nat)
    requires
        fits(Ty::Pair(x), n) || fits(Ty::Tuple(x), n),
    ensures
        forall|j: int| 0 <= j < x.len() ==> fits(#[trigger] x[j], n),
{
    let p = Ty::Pair(x);
    let q = Ty::Tuple(x);
    assert(p->Pair_0 == x);
    assert(q->Tuple_0 == x);
}

/// A type that fits a store fits every larger one.
pub proof fn lemma_fits_grow(t: Ty, n: nat, m: nat)
    requires
        fits(t, n),
        n <= m,
    ensures
        fits(t, m),
    decreases t,
{
    match t {
        Ty::Pair(v) => {
            lemma_fits_items(v, n);
            assert forall|i: int| 0 <= i < v.len() implies fits(#[trigger] v[i], m) by {
                lemma_fits_grow(v[i], n, m);
            }
            assert(t->Pair_0 == v);
        },
        Ty::Tuple(v) => {
            lemma_fits_items(v, n);
            assert forall|i: int| 0 <= i < v.len() implies fits(#[trigger] v[i], m) by {
                lemma_fits_grow(v[i], n, m);
            }
            assert(t->Tuple_0 == v);
        },
        Ty::Fun(a, b) => {
            lemma_fits_grow(*a, n, m);
            lemma_fits_grow(*b, n, m);
        },
        Ty::App(_, a) => lemma_fits_grow(*a, n, m),
        Ty::Local(a) => lemma_fits_grow(*a, n, m),
        _ => {},
    }
}

impl View for Type {
    type V = Ty;

    open spec fn view(&self) -> Ty {
        ty_of(*self)
    }
}

/// A node of the typed intermediate representation: what it is, where it
/// comes from, and its type (a hole at first, refined by unification).
#[derive(Debug)]
pub struct Term {
    pub value: TermKind,
    pub src_pos: Loc,
    pub type_repr: Type,
}

/// The kinds of terms. Binders (`Fun`, `Let`) hold the handle of the
/// definition they introduce.
#[derive(Debug)]
pub enum TermKind {
    List(Vec<Term>),
    Pair(Vec<Term>),
    Fun(Reference, Box<Term>),
    Match(CaseTree),
    Ascription(Box<Term>, Scheme),
    App(Box<Term>, Box<Term>),
    Var(Reference),
    Int(i64),
    Text(String),
    If(Box<Term>, Box<Term>, Box<Term>),
    Let(Reference, Box<Term>, Box<Term>),
}

/// Where, relative to the scrutinee, a case tree tests.
#[derive(Debug)]
pub enum Occurrence {
    Term(Box<Term>),
    Variable(Reference),
    Index(usize),
    Tuple(usize, usize),
}

/// What a case tree tests at an occurrence.
#[derive(Debug, Clone, Copy, PartialEq, Eq, Structural)]
pub enum Condition {
    /// Is an instance of the constructor, optionally projecting a field.
    Constructor(Reference, Option<usize>),
    /// Is a tuple of that arity.
    Tuple(usize),
}

/// A decision tree for pattern matching: cases are tried in order, and
/// `default` is taken when none matches.
#[derive(Debug)]
pub enum CaseTree {
    /// Placeholder for a match that could not be built.
    Failure,
    Leaf(Box<Term>),
    Branch { occurence: Occurrence, cases: Vec<(Condition, CaseTree)>, default: Option<Box<CaseTree>> },
}

/// Every hole of `t` names a cell below `n`.
pub open spec fn fits(t: Ty, n: nat) -> bool
    decreases t,
{
    match t {
        Ty::Pair(v) => forall|i: int| 0 <= i < v.len() ==> fits(#[trigger] v[i], n),
        Ty::Tuple(v) => forall|i: int| 0 <= i < v.len() ==> fits(#[trigger] v[i], n),
        Ty::Fun(a, b) => fits(*a, n) && fits(*b, n),
        Ty::App(_, a) => fits(*a, n),
        Ty::Local(a) => fits(*a, n),
        Ty::Hole(h) => h < n,
        _ => true,
    }
}

/// The store of unification cells: `None` is an unbound hole, `Some(t)` a
/// hole bound to `t`.
pub struct Substitution {
    pub cells: Vec<Option<Type>>,
}

pub open spec fn cell_of(c: Option<Type>) -> Option<Ty> {
    match c {
        Some(t) => Some(t@),
        None => None,
    }
}

impl View for Substitution {
    type V = Seq<Option<Ty>>;

    open spec fn view(&self) -> Seq<Option<Ty>> {
        self.cells@.map_values(|c: Option<Type>| cell_of(c))
    }
}

/// Every bound cell of `s` holds a type whose holes are cells of `s`.
pub open spec fn store_wf(s: Seq<Option<Ty>>) -> bool {
    forall|i: int| 0 <= i < s.len() && (#[trigger] s[i]) is Some ==> fits(s[i]->Some_0, s.len())
}

impl Substitution {
    pub open spec fn wf(&self) -> bool {
        store_wf(self@)
    }

    pub fn new() -> (r: Substitution)
        ensures
            r@ == Seq::<Option<Ty>>::empty(),
            r.wf(),
    {
        let r = Substitution { cells: Vec::new() };
        assert(r@ =~= Seq::<Option<Ty>>::empty());
        r
    }
}

impl Substitution {
    /// Adds an unbound cell and returns it.
    pub fn fresh(&mut self) -> (v: Variable)
        requires
            old(self).wf(),
            old(self)@.len() < usize::MAX,
        ensures
            final(self).wf(),
            v.id == old(self)@.len(),
            final(self)@ == old(self)@.push(None),
    {
        let v = Variable { id: self.cells.len() };
        self.cells.push(None);
        proof {
            assert(self@ =~= old(self)@.push(None));
            let s = self@;
            assert forall|i: int| 0 <= i < s.len() && (#[trigger] s[i]) is Some implies fits(
                s[i]->Some_0,
                s.len(),
            ) by {
                lemma_fits_grow(s[i]->Some_0, old(self)@.len(), s.len());
            }
        }
        v
    }
}

impl Variable {
    /// The current contents of the cell.
    pub fn value(&self, subst: &Substitution) -> (r: Option<Type>)
        requires
            self.id < subst@.len(),
        ensures
            cell_of(r) == subst@[self.id as int],
    {
        match &subst.cells[self.id] {
            Some(t) => Some(t.duplicate()),
            None => None,
        }
    }

    /// Binds the cell to `value`.
    pub fn update(&self, subst: &mut Substitution, value: Type)
        requires
            self.id < old(subst)@.len(),
        ensures
            final(subst)@ == old(subst)@.update(self.id as int, Some(value@)),
    {
        subst.cells.set(self.id, Some(value));
        assert(subst@ =~= old(subst)@.update(self.id as int, Some(value@)));
    }
}

impl Clone for Type {
    fn clone(&self) -> (r: Type)
        ensures
            r@ == self@,
    {
        self.duplicate()
    }
}

impl Clone for Scheme {
    fn clone(&self) -> (r: Scheme)
        ensures
            r.args == self.args,
            r.mono@ == self.mono@,
    {
        Scheme { args: self.args, mono: self.mono.duplicate() }
    }
}

impl Type {
    /// A deep copy of the type.
    pub fn duplicate(&self) -> (r: Type)
        ensures
            r@ == self@,
        decreases self,
    {
        match self {
            Type::Any => Type::Any,
            Type::Pair(v) => {
                let w = duplicate_all(v);
                proof {
                    lemma_tys_of(v@);
                    lemma_tys_of(w@);
                    assert(tys_of(w@) =~= tys_of(v@));
                }
                Type::Pair(w)
            },
            Type::Tuple(v) => {
                let w = duplicate_all(v);
                proof {
                    lemma_tys_of(v@);
                    lemma_tys_of(w@);
                    assert(tys_of(w@) =~= tys_of(v@));
                }
                Type::Tuple(w)
            },
            Type::Fun(a, b) => Type::Fun(Box::new(a.duplicate()), Box::new(b.duplicate())),
            Type::App(n, a) => Type::App(*n, Box::new(a.duplicate())),
            Type::Local(a) => Type::Local(Box::new(a.duplicate())),
            Type::Constructor(c) => Type::Constructor(*c),
            Type::Meta(m) => Type::Meta(*m),
            Type::Hole(h) => Type::Hole(*h),
        }
    }
}

fn duplicate_all(v: &Vec<Type>) -> (r: Vec<Type>)
    ensures
        r@.len() == v@.len(),
        forall|i: int| 0 <= i < v@.len() ==> (#[trigger] r@[i])@ == v@[i]@,
    decreases v,
{
    let mut out: Vec<Type> = Vec::new();
    let mut i: usize = 0;
    while i < v.len()
        invariant
            i <= v.len(),
            out@.len() == i,
            forall|j: int| 0 <= j < i ==> (#[trigger] out@[j])@ == v@[j]@,
        decreases v.len() - i,
    {
        assert(decreases_to!(v => v[i as int]));
        out.push(v[i].duplicate());
        i = i + 1;
    }
    out
}

/// Why two types failed to unify.
#[derive(Debug)]
pub enum UnificationError {
    IncompatibleTypes(Type, Type),
    IncompatibleConstructors(Reference, Reference),
    /// Binding a hole would make it part of its own contents.
    OccursCheck,
    /// The types are nested deeper than the unifier's recursion budget.
    TooDeep,
}

/// The mathematical form of a [UnificationError].
pub enum Mismatch {
    Types(Ty, Ty),
    Constructors(Reference, Reference),
    Occurs,
    TooDeep,
}

impl View for UnificationError {
    type V = Mismatch;

    open spec fn view(&self) -> Mismatch {
        match self {
            UnificationError::IncompatibleTypes(a, b) => Mismatch::Types(a@, b@),
            UnificationError::IncompatibleConstructors(l, r) => Mismatch::Constructors(*l, *r),
            UnificationError::OccursCheck => Mismatch::Occurs,
            UnificationError::TooDeep => Mismatch::TooDeep,
        }
    }
}

pub open spec fn outcome(r: Result<(), UnificationError>) -> Result<(), Mismatch> {
    match r {
        Ok(()) => Ok(()),
        Err(e) => Err(e@),
    }
}

/// Recursion budget of unification: how deeply nested two types may be.
pub const UNIFY_DEPTH: usize = 1000;

/// Hole `h` of `s` is bound.
pub open spec fn bound(s: Seq<Option<Ty>>, h: usize) -> bool {
    h < s.len() && s[h as int] is Some
}

/// `t` reaches hole `h`, directly or through bound holes, within `fuel`
/// levels of nesting.
pub open spec fn mentions(s: Seq<Option<Ty>>, h: usize, t: Ty, fuel: nat) -> bool
    decreases fuel,
{
    if fuel == 0 {
        false
    } else {
        let f = (fuel - 1) as nat;
        match t {
            Ty::Pair(v) => exists|i: int| 0 <= i < v.len() && mentions(s, h, #[trigger] v[i], f),
            Ty::Tuple(v) => exists|i: int| 0 <= i < v.len() && mentions(s, h, #[trigger] v[i], f),
            Ty::Fun(a, b) => mentions(s, h, *a, f) || mentions(s, h, *b, f),
            Ty::App(_, a) => mentions(s, h, *a, f),
            Ty::Local(a) => mentions(s, h, *a, f),
            Ty::Hole(k) => k == h || (bound(s, k) && mentions(s, h, s[k as int]->Some_0, f)),
            _ => false,
        }
    }
}

/// Unification of `a` with `b` in store `s`: the store afterwards and the
/// outcome. The cases are tried in order; `fuel` bounds the nesting depth.
pub open spec fn unify_spec(s: Seq<Option<Ty>>, a: Ty, b: Ty, fuel: nat) -> (Seq<Option<Ty>>, Result<(), Mismatch>)
    decreases fuel, 0nat, 0nat,
{
    if a is Any || b is Any {
        (s, Ok(()))
    } else if fuel == 0 {
        (s, Err(Mismatch::TooDeep))
    } else {
        let f = (fuel - 1) as nat;
        if a is Local && b is Local {
            unify_spec(s, *a->Local_0, *b->Local_0, f)
        } else if a is Constructor && b is Constructor {
            if a->Constructor_0 == b->Constructor_0 {
                (s, Ok(()))
            } else {
                (s, Err(Mismatch::Constructors(a->Constructor_0, b->Constructor_0)))
            }
        } else if a is App && b is App {
            if a->App_0 == b->App_0 {
                unify_spec(s, *a->App_1, *b->App_1, f)
            } else {
                (s, Err(Mismatch::Constructors(a->App_0, b->App_0)))
            }
        } else if a is Fun && b is Fun {
            let (s1, r1) = unify_spec(s, *a->Fun_0, *b->Fun_0, f);
            if r1 is Err {
                (s1, r1)
            } else {
                unify_spec(s1, *a->Fun_1, *b->Fun_1, f)
            }
        } else if a is Pair && b is Pair {
            unify_each(s, a->Pair_0, b->Pair_0, 0, f)
        } else if a is Tuple && b is Tuple {
            unify_each(s, a->Tuple_0, b->Tuple_0, 0, f)
        } else if a is Hole {
            unify_hole_spec(s, a->Hole_0, b, f)
        } else if b is Hole {
            unify_hole_spec(s, b->Hole_0, a, f)
        } else {
            (s, Err(Mismatch::Types(a, b)))
        }
    }
}

/// Unifies `la[j]` with `lb[j]` for `j` from `i` up to the shorter length,
/// stopping at the first failure.
pub open spec fn unify_each(s: Seq<Option<Ty>>, la: Seq<Ty>, lb: Seq<Ty>, i: nat, fuel: nat) -> (Seq<Option<Ty>>, Result<(), Mismatch>)
    decreases fuel, 2nat, la.len() - i,
{
    if i >= la.len() || i >= lb.len() {
        (s, Ok(()))
    } else {
        let (s1, r1) = unify_spec(s, la[i as int], lb[i as int], fuel);
        if r1 is Err {
            (s1, r1)
        } else {
            unify_each(s1, la, lb, i + 1, fuel)
        }
    }
}

/// Walking `t` through bound holes ends within `fuel` levels of nesting.
pub open spec fn within(s: Seq<Option<Ty>>, t: Ty, fuel: nat) -> bool
    decreases fuel,
{
    if fuel == 0 {
        false
    } else {
        let f = (fuel - 1) as nat;
        match t {
            Ty::Pair(v) => forall|i: int| 0 <= i < v.len() ==> within(s, #[trigger] v[i], f),
            Ty::Tuple(v) => forall|i: int| 0 <= i < v.len() ==> within(s, #[trigger] v[i], f),
            Ty::Fun(a, b) => within(s, *a, f) && within(s, *b, f),
            Ty::App(_, a) => within(s, *a, f),
            Ty::Local(a) => within(s, *a, f),
            Ty::Hole(k) => !bound(s, k) || within(s, s[k as int]->Some_0, f),
            _ => true,
        }
    }
}

/// `t` is hole `h` itself, or a hole bound, through a chain of bound holes,
/// to hole `h`.
pub open spec fn resolves_to(s: Seq<Option<Ty>>, t: Ty, h: usize, fuel: nat) -> bool
    decreases fuel,
{
    t is Hole && (t->Hole_0 == h || (fuel > 0 && bound(s, t->Hole_0) && resolves_to(
        s,
        s[t->Hole_0 as int]->Some_0,
        h,
        (fuel - 1) as nat,
    )))
}

/// Unifies hole `h` with `v`: through its contents if bound, else by
/// binding it to `v`. When `v` reaches `h`, this succeeds without a binding
/// if `v` is `h` under another name, and fails the occurs check otherwise.
pub open spec fn unify_hole_spec(s: Seq<Option<Ty>>, h: usize, v: Ty, fuel: nat) -> (Seq<Option<Ty>>, Result<(), Mismatch>)
    decreases fuel, 1nat, 0nat,
{
    if bound(s, h) {
        unify_spec(s, s[h as int]->Some_0, v, fuel)
    } else if !within(s, v, fuel) {
        (s, Err(Mismatch::TooDeep))
    } else if mentions(s, h, v, fuel) {
        if resolves_to(s, v, h, fuel) {
            (s, Ok(()))
        } else {
            (s, Err(Mismatch::Occurs))
        }
    } else {
        (s.update(h as int, Some(v)), Ok(()))
    }
}

/// Cells bound in `s` keep their contents in `t`.
pub open spec fn keeps_bindings(s: Seq<Option<Ty>>, t: Seq<Option<Ty>>) -> bool {
    &&& t.len() == s.len()
    &&& forall|i: int| 0 <= i < s.len() && (#[trigger] s[i]) is Some ==> t[i] == s[i]
}

impl Type {
    /// Unifies `self` with `rhs`, binding holes of `subst` as needed. Holes
    /// bound beforehand keep their contents, also when unification fails.
    pub fn unify(self, rhs: Type, subst: &mut Substitution) -> (r: Result<(), UnificationError>)
        requires
            old(subst).wf(),
            fits(self@, old(subst)@.len()),
            fits(rhs@, old(subst)@.len()),
        ensures
            final(subst).wf(),
            keeps_bindings(old(subst)@, final(subst)@),
            (final(subst)@, outcome(r)) == unify_spec(old(subst)@, self@, rhs@, UNIFY_DEPTH as nat),
    {
        unify_at(&self, &rhs, subst, UNIFY_DEPTH)
    }
}

/// `t` holds no hole, and only quantified slots below `k`.
pub open spec fn closed_under(t: Ty, k: nat) -> bool
    decreases t,
{
    match t {
        Ty::Pair(v) => forall|i: int| 0 <= i < v.len() ==> closed_under(#[trigger] v[i], k),
        Ty::Tuple(v) => forall|i: int| 0 <= i < v.len() ==> closed_under(#[trigger] v[i], k),
        Ty::Fun(a, b) => closed_under(*a, k) && closed_under(*b, k),
        Ty::App(_, a) => closed_under(*a, k),
        Ty::Local(a) => closed_under(*a, k),
        Ty::Meta(m) => m < k,
        Ty::Hole(_) => false,
        _ => true,
    }
}

/// The elements of a closed pair or tuple are closed.
pub proof fn lemma_closed_items(x: Seq<Ty>, k: nat)
    requires
        closed_under(Ty::Pair(x), k) || closed_under(Ty::Tuple(x), k),
    ensures
        forall|j: int| 0 <= j < x.len() ==> closed_under(#[trigger] x[j], k),
{
    let p = Ty::Pair(x);
    let q = Ty::Tuple(x);
    assert(p->Pair_0 == x);
    assert(q->Tuple_0 == x);
}

/// `t` with each quantified slot `Meta(i)` replaced by the hole `base + i`.
pub open spec fn open_metas(t: Ty, base: nat) -> Ty
    decreases t, 0nat,
{
    match t {
        Ty::Pair(v) => Ty::Pair(open_all(v, base)),
        Ty::Tuple(v) => Ty::Tuple(open_all(v, base)),
        Ty::Fun(a, b) => Ty::Fun(Box::new(open_metas(*a, base)), Box::new(open_metas(*b, base))),
        Ty::App(n, a) => Ty::App(n, Box::new(open_metas(*a, base))),
        Ty::Local(a) => Ty::Local(Box::new(open_metas(*a, base))),
        Ty::Meta(m) => Ty::Hole((base + m) as usize),
        _ => t,
    }
}

pub open spec fn open_all(s: Seq<Ty>, base: nat) -> Seq<Ty>
    decreases s, s.len(),
{
    if s.len() == 0 {
        Seq::empty()
    } else {
        open_all(s.drop_last(), base).push(open_metas(s.last(), base))
    }
}

/// `open_all` opens a sequence element by element.
pub proof fn lemma_open_all(s: Seq<Ty>, base: nat)
    ensures
        open_all(s, base).len() == s.len(),
        forall|i: int| 0 <= i < s.len() ==> #[trigger] open_all(s, base)[i] == open_metas(s[i], base),
    decreases s.len(),
{
    if s.len() > 0 {
        lemma_open_all(s.drop_last(), base);
    }
}

/// Type scheme: `mono` with `args` universally quantified slots, written
/// `Meta(0)` to `Meta(args - 1)`.
#[derive(Debug)]
pub struct Scheme {
    pub args: usize,
    pub mono: Type,
}

impl Scheme {
    /// The scheme holds no hole and no slot beyond `args`.
    pub open spec fn wf(&self) -> bool {
        closed_under(self.mono@, self.args as nat)
    }

    /// A scheme with no quantified slot.
    pub fn new(value: Type) -> (r: Scheme)
        ensures
            r.args == 0,
            r.mono@ == value@,
    {
        Scheme { args: 0, mono: value }
    }

    /// A fresh monomorphic type: one new unbound hole of `subst` for each
    /// quantified slot, in order.
    pub fn instantiate(&self, subst: &mut Substitution) -> (r: Type)
        requires
            self.wf(),
            old(subst).wf(),
            old(subst)@.len() + self.args < usize::MAX,
        ensures
            final(subst).wf(),
            final(subst)@ == old(subst)@ + Seq::new(self.args as nat, |i: int| None::<Ty>),
            r@ == open_metas(self.mono@, old(subst)@.len()),
            fits(r@, final(subst)@.len()),
    {
        let base = subst.cells.len();
        let mut i: usize = 0;
        while i < self.args
            invariant
                i <= self.args,
                base == old(subst)@.len(),
                base + self.args < usize::MAX,
                subst.wf(),
                subst@ == old(subst)@ + Seq::new(i as nat, |j: int| None::<Ty>),
            decreases self.args - i,
        {
            subst.fresh();
            i = i + 1;
            assert(subst@ =~= old(subst)@ + Seq::new(i as nat, |j: int| None::<Ty>));
        }
        open_at(&self.mono, base, self.args)
    }
}

fn open_at(t: &Type, base: usize, k: usize) -> (r: Type)
    requires
        closed_under(t@, k as nat),
        base + k < usize::MAX,
    ensures
        r@ == open_metas(t@, base as nat),
        fits(r@, (base + k) as nat),
    decreases t,
{
    match t {
        Type::Pair(v) => {
            proof {
                lemma_tys_of(v@);
                lemma_closed_items(tys_of(v@), k as nat);
                let p = Ty::Pair(tys_of(v@));
                assert(p->Pair_0 == tys_of(v@));
            }
            let w = open_each(v, base, k);
            proof {
                lemma_tys_of(w@);
                let p = Ty::Pair(tys_of(w@));
                assert(p->Pair_0 == tys_of(w@));
            }
            Type::Pair(w)
        },
        Type::Tuple(v) => {
            proof {
                lemma_tys_of(v@);
                lemma_closed_items(tys_of(v@), k as nat);
                let p = Ty::Tuple(tys_of(v@));
                assert(p->Tuple_0 == tys_of(v@));
            }
            let w = open_each(v, base, k);
            proof {
                lemma_tys_of(w@);
                let p = Ty::Tuple(tys_of(w@));
                assert(p->Tuple_0 == tys_of(w@));
            }
            Type::Tuple(w)
        },
        Type::Fun(a, b) => Type::Fun(Box::new(open_at(a, base, k)), Box::new(open_at(b, base, k))),
        Type::App(n, a) => Type::App(*n, Box::new(open_at(a, base, k))),
        Type::Local(a) => Type::Local(Box::new(open_at(a, base, k))),
        Type::Meta(m) => Type::Hole(Variable { id: base + *m }),
        Type::Any => Type::Any,
        Type::Constructor(c) => Type::Constructor(*c),
        Type::Hole(h) => Type::Hole(*h),
    }
}

fn open_each(v: &Vec<Type>, base: usize, k: usize) -> (w: Vec<Type>)
    requires
        forall|j: int| 0 <= j < v@.len() ==> closed_under(#[trigger] tys_of(v@)[j], k as nat),
        base + k < usize::MAX,
    ensures
        tys_of(w@) == open_all(tys_of(v@), base as nat),
        forall|j: int| 0 <= j < w@.len() ==> fits(#[trigger] tys_of(w@)[j], (base + k) as nat),
    decreases v,
{
    proof {
        lemma_tys_of(v@);
        lemma_open_all(tys_of(v@), base as nat);
    }
    let mut w: Vec<Type> = Vec::new();
    let mut i: usize = 0;
    while i < v.len()
        invariant
            i <= v@.len(),
            base + k < usize::MAX,
            w@.len() == i,
            tys_of(v@).len() == v@.len(),
            forall|j: int| 0 <= j < v@.len() ==> #[trigger] tys_of(v@)[j] == v@[j]@,
            forall|j: int| 0 <= j < v@.len() ==> closed_under(#[trigger] tys_of(v@)[j], k as nat),
            forall|j: int| 0 <= j < i ==> (#[trigger] w@[j])@ == open_metas(v@[j]@, base as nat),
            forall|j: int| 0 <= j < i ==> fits((#[trigger] w@[j])@, (base + k) as nat),
        decreases v.len() - i,
    {
        assert(decreases_to!(v => v[i as int]));
        assert(closed_under(tys_of(v@)[i as int], k as nat));
        w.push(open_at(&v[i], base, k));
        i = i + 1;
    }
    proof {
        lemma_tys_of(w@);
        assert(tys_of(w@) =~= open_all(tys_of(v@), base as nat));
    }
    w
}

/// Index of the last occurrence of `h` in `seen`, or -1.
pub open spec fn position(seen: Seq<usize>, h: usize) -> int
    decreases seen.len(),
{
    if seen.len() == 0 {
        -1
    } else if seen.last() == h {
        seen.len() - 1
    } else {
        position(seen.drop_last(), h)
    }
}

/// Generalization of `t` in store `s`. Bound holes are looked through
/// (within `fuel` levels); every other hole becomes the quantified slot of its
/// cell, slots being numbered in order of first encounter. `seen` lists the
/// cells met so far; the result holds the new type and the extended list.
pub open spec fn gen_spec(s: Seq<Option<Ty>>, t: Ty, seen: Seq<usize>, fuel: nat) -> (Ty, Seq<usize>)
    decreases fuel, t,
{
    match t {
        Ty::Pair(v) => {
            let (w, seen1) = gen_all(s, v, seen, fuel);
            (Ty::Pair(w), seen1)
        },
        Ty::Tuple(v) => {
            let (w, seen1) = gen_all(s, v, seen, fuel);
            (Ty::Tuple(w), seen1)
        },
        Ty::Fun(a, b) => {
            let (x, seen1) = gen_spec(s, *a, seen, fuel);
            let (y, seen2) = gen_spec(s, *b, seen1, fuel);
            (Ty::Fun(Box::new(x), Box::new(y)), seen2)
        },
        Ty::App(n, a) => {
            let (x, seen1) = gen_spec(s, *a, seen, fuel);
            (Ty::App(n, Box::new(x)), seen1)
        },
        Ty::Local(a) => {
            let (x, seen1) = gen_spec(s, *a, seen, fuel);
            (Ty::Local(Box::new(x)), seen1)
        },
        Ty::Hole(h) => {
            if fuel > 0 && bound(s, h) {
                gen_spec(s, s[h as int]->Some_0, seen, (fuel - 1) as nat)
            } else if position(seen, h) >= 0 {
                (Ty::Meta(position(seen, h) as usize), seen)
            } else {
                (Ty::Meta(seen.len() as usize), seen.push(h))
            }
        },
        _ => (t, seen),
    }
}

/// Generalizes the elements of `v` from left to right.
pub open spec fn gen_all(s: Seq<Option<Ty>>, v: Seq<Ty>, seen: Seq<usize>, fuel: nat) -> (Seq<Ty>, Seq<usize>)
    decreases fuel, v,
{
    if v.len() == 0 {
        (Seq::empty(), seen)
    } else {
        let (x, seen1) = gen_spec(s, v[0], seen, fuel);
        let (rest, seen2) = gen_all(s, v.drop_first(), seen1, fuel);
        (seq![x] + rest, seen2)
    }
}

fn gen_at(t: &Type, subst: &Substitution, seen: &mut Vec<usize>, fuel: usize) -> (r: Type)
    requires
        subst.wf(),
        fits(t@, subst@.len()),
    ensures
        (r@, final(seen)@) == gen_spec(subst@, t@, old(seen)@, fuel as nat),
    decreases fuel, t,
{
    match t {
        Type::Pair(v) => {
            proof {
                lemma_tys_of(v@);
                lemma_fits_items(tys_of(v@), subst@.len());
                let p = Ty::Pair(tys_of(v@));
                assert(p->Pair_0 == tys_of(v@));
            }
            let w = gen_each(v, subst, seen, fuel);
            Type::Pair(w)
        },
        Type::Tuple(v) => {
            proof {
                lemma_tys_of(v@);
                lemma_fits_items(tys_of(v@), subst@.len());
                let p = Ty::Tuple(tys_of(v@));
                assert(p->Tuple_0 == tys_of(v@));
            }
            let w = gen_each(v, subst, seen, fuel);
            Type::Tuple(w)
        },
        Type::Fun(a, b) => {
            let x = gen_at(a, subst, seen, fuel);
            let y = gen_at(b, subst, seen, fuel);
            Type::Fun(Box::new(x), Box::new(y))
        },
        Type::App(n, a) => Type::App(*n, Box::new(gen_at(a, subst, seen, fuel))),
        Type::Local(a) => Type::Local(Box::new(gen_at(a, subst, seen, fuel))),
        Type::Hole(h) => {
            if fuel > 0 {
                if let Some(c) = h.value(subst) {
                    return gen_at(&c, subst, seen, fuel - 1);
                }
            }
            assert(!(fuel > 0 && bound(subst@, h.id)));
            assert(t@ == Ty::Hole(h.id));
            let mut j: usize = seen.len();
            assert(seen@.subrange(0, j as int) =~= seen@);
            while j > 0
                invariant
                    j <= seen@.len(),
                    seen@ == old(seen)@,
                    t@ == Ty::Hole(h.id),
                    !(fuel > 0 && bound(subst@, h.id)),
                    position(seen@, h.id) == position(seen@.subrange(0, j as int), h.id),
                decreases j,
            {
                assert(seen@.subrange(0, j as int).drop_last() =~= seen@.subrange(0, j - 1));
                if seen[j - 1] == h.id {
                    assert(seen@.subrange(0, j as int).last() == seen@[j - 1]);
                    assert(position(seen@, h.id) == j - 1);
                    return Type::Meta(j - 1);
                }
                j = j - 1;
            }
            assert(seen@.subrange(0, 0) =~= Seq::<usize>::empty());
            let m = seen.len();
            seen.push(h.id);
            Type::Meta(m)
        },
        Type::Any => Type::Any,
        Type::Constructor(c) => Type::Constructor(*c),
        Type::Meta(m) => Type::Meta(*m),
    }
}

fn gen_each(v: &Vec<Type>, subst: &Substitution, seen: &mut Vec<usize>, fuel: usize) -> (w: Vec<Type>)
    requires
        subst.wf(),
        forall|j: int| 0 <= j < v@.len() ==> fits(#[trigger] tys_of(v@)[j], subst@.len()),
    ensures
        (tys_of(w@), final(seen)@) == gen_all(subst@, tys_of(v@), old(seen)@, fuel as nat),
    decreases fuel, v,
{
    proof {
        lemma_tys_of(v@);
    }
    let ghost items = tys_of(v@);
    let mut w: Vec<Type> = Vec::new();
    let mut i: usize = 0;
    proof {
        assert(items.subrange(0, items.len() as int) =~= items);
        assert(tys_of(w@) =~= Seq::<Ty>::empty());
        let x = gen_all(subst@, items, seen@, fuel as nat);
        assert(Seq::<Ty>::empty() + x.0 =~= x.0);
    }
    while i < v.len()
        invariant
            i <= v@.len(),
            subst.wf(),
            items == tys_of(v@),
            items.len() == v@.len(),
            forall|j: int| 0 <= j < v@.len() ==> #[trigger] items[j] == v@[j]@,
            forall|j: int| 0 <= j < v@.len() ==> fits(#[trigger] items[j], subst@.len()),
            gen_all(subst@, items, old(seen)@, fuel as nat) == ({
                let x = gen_all(subst@, items.subrange(i as int, items.len() as int), seen@, fuel as nat);
                (tys_of(w@) + x.0, x.1)
            }),
        decreases v.len() - i,
    {
        assert(decreases_to!(v => v[i as int]));
        let ghost before = seen@;
        let ghost rest = items.subrange(i as int, items.len() as int);
        assert(rest[0] == items[i as int]);
        assert(rest.drop_first() =~= items.subrange(i + 1, items.len() as int));
        let x = gen_at(&v[i], subst, seen, fuel);
        let ghost w0 = w@;
        w.push(x);
        proof {
            assert(w@.drop_last() =~= w0);
            let tail = gen_all(subst@, items.subrange(i + 1, items.len() as int), seen@, fuel as nat);
            assert(tys_of(w0) + (seq![x@] + tail.0) =~= tys_of(w@) + tail.0);
        }
        i = i + 1;
    }
    proof {
        assert(items.subrange(i as int, items.len() as int) =~= Seq::<Ty>::empty());
        assert(tys_of(w@) + Seq::<Ty>::empty() =~= tys_of(w@));
    }
    w
}

impl Type {
    /// Closes the type into a scheme: bound holes are replaced by their
    /// contents, and each distinct unbound hole by a quantified slot,
    /// numbered from 0 in order of first occurrence.
    pub fn generalize(self, subst: &Substitution) -> (r: Scheme)
        requires
            subst.wf(),
            fits(self@, subst@.len()),
        ensures
            r.mono@ == gen_spec(subst@, self@, Seq::empty(), UNIFY_DEPTH as nat).0,
            r.args == gen_spec(subst@, self@, Seq::empty(), UNIFY_DEPTH as nat).1.len(),
            monomorphic(self@) && store_monomorphic(subst@) ==> r.wf(),
            distinct_cells(gen_spec(subst@, self@, Seq::empty(), UNIFY_DEPTH as nat).1),
    {
        let mut seen: Vec<usize> = Vec::new();
        let mono = gen_at(&self, subst, &mut seen, UNIFY_DEPTH);
        proof {
            lemma_gen_distinct(subst@, self@, Seq::empty(), UNIFY_DEPTH as nat);
            if monomorphic(self@) && store_monomorphic(subst@) {
                lemma_gen_closed(subst@, self@, Seq::empty(), UNIFY_DEPTH as nat);
            }
        }
        Scheme { args: seen.len(), mono }
    }
}

/// Whether `t` reaches hole `h` within `fuel` levels.
fn occurs(h: usize, t: &Type, subst: &Substitution, fuel: usize) -> (r: bool)
    requires
        subst.wf(),
        fits(t@, subst@.len()),
    ensures
        r == mentions(subst@, h, t@, fuel as nat),
    decreases fuel, 0nat,
{
    if fuel == 0 {
        return false;
    }
    match t {
        Type::Pair(v) => {
            assert(t@ == Ty::Pair(tys_of(v@)));
            proof {
                lemma_tys_of(v@);
                lemma_fits_items(tys_of(v@), subst@.len());
                let p = Ty::Pair(tys_of(v@));
                assert(p->Pair_0 == tys_of(v@));
            }
            occurs_each(h, v, subst, fuel - 1)
        },
        Type::Tuple(v) => {
            assert(t@ == Ty::Tuple(tys_of(v@)));
            proof {
                lemma_tys_of(v@);
                lemma_fits_items(tys_of(v@), subst@.len());
                let p = Ty::Tuple(tys_of(v@));
                assert(p->Tuple_0 == tys_of(v@));
            }
            occurs_each(h, v, subst, fuel - 1)
        },
        Type::Fun(a, b) => occurs(h, a, subst, fuel - 1) || occurs(h, b, subst, fuel - 1),
        Type::App(_, a) => occurs(h, a, subst, fuel - 1),
        Type::Local(a) => occurs(h, a, subst, fuel - 1),
        Type::Hole(k) => {
            if k.id == h {
                true
            } else {
                match k.value(subst) {
                    Some(c) => occurs(h, &c, subst, fuel - 1),
                    None => false,
                }
            }
        },
        _ => false,
    }
}

/// Unifies `a` with `b` within `fuel` levels of nesting.
fn unify_at(a: &Type, b: &Type, subst: &mut Substitution, fuel: usize) -> (r: Result<(), UnificationError>)
    requires
        old(subst).wf(),
        fits(a@, old(subst)@.len()),
        fits(b@, old(subst)@.len()),
    ensures
        final(subst).wf(),
        keeps_bindings(old(subst)@, final(subst)@),
        (final(subst)@, outcome(r)) == unify_spec(old(subst)@, a@, b@, fuel as nat),
    decreases fuel, 0nat, 0nat,
{
    if matches!(a, Type::Any) || matches!(b, Type::Any) {
        return Ok(());
    }
    if fuel == 0 {
        return Err(UnificationError::TooDeep);
    }
    match (a, b) {
        (Type::Local(x), Type::Local(y)) => unify_at(x, y, subst, fuel - 1),
        (Type::Constructor(l), Type::Constructor(r)) => {
            if l == r {
                Ok(())
            } else {
                Err(UnificationError::IncompatibleConstructors(*l, *r))
            }
        },
        (Type::App(ln, x), Type::App(rn, y)) => {
            if ln == rn {
                unify_at(x, y, subst, fuel - 1)
            } else {
                Err(UnificationError::IncompatibleConstructors(*ln, *rn))
            }
        },
        (Type::Fun(ld, lc), Type::Fun(rd, rc)) => {
            let first = unify_at(ld, rd, subst, fuel - 1);
            if first.is_err() {
                return first;
            }
            unify_at(lc, rc, subst, fuel - 1)
        },
        (Type::Pair(l), Type::Pair(r)) => {
            proof {
                lemma_tys_of(l@);
                lemma_tys_of(r@);
                lemma_fits_items(tys_of(l@), subst@.len());
                lemma_fits_items(tys_of(r@), subst@.len());
                let p = Ty::Pair(tys_of(l@));
                let q = Ty::Pair(tys_of(r@));
                assert(p->Pair_0 == tys_of(l@));
                assert(q->Pair_0 == tys_of(r@));
            }
            unify_all(l, r, subst, fuel - 1)
        },
        (Type::Tuple(l), Type::Tuple(r)) => {
            proof {
                lemma_tys_of(l@);
                lemma_tys_of(r@);
                lemma_fits_items(tys_of(l@), subst@.len());
                lemma_fits_items(tys_of(r@), subst@.len());
                let p = Ty::Tuple(tys_of(l@));
                let q = Ty::Tuple(tys_of(r@));
                assert(p->Tuple_0 == tys_of(l@));
                assert(q->Tuple_0 == tys_of(r@));
            }
            unify_all(l, r, subst, fuel - 1)
        },
        (Type::Hole(h), _) => unify_hole(*h, b, subst, fuel - 1),
        (_, Type::Hole(h)) => unify_hole(*h, a, subst, fuel - 1),
        _ => Err(UnificationError::IncompatibleTypes(a.duplicate(), b.duplicate())),
    }
}

/// Unifies the elements of `l` and `r` pairwise, up to the shorter length.
fn unify_all(l: &Vec<Type>, r: &Vec<Type>, subst: &mut Substitution, fuel: usize) -> (res: Result<(), UnificationError>)
    requires
        old(subst).wf(),
        forall|j: int| 0 <= j < l@.len() ==> fits(#[trigger] tys_of(l@)[j], old(subst)@.len()),
        forall|j: int| 0 <= j < r@.len() ==> fits(#[trigger] tys_of(r@)[j], old(subst)@.len()),
    ensures
        final(subst).wf(),
        keeps_bindings(old(subst)@, final(subst)@),
        (final(subst)@, outcome(res)) == unify_each(old(subst)@, tys_of(l@), tys_of(r@), 0, fuel as nat),
    decreases fuel, 2nat, 0nat,
{
    proof {
        lemma_tys_of(l@);
        lemma_tys_of(r@);
    }
    let ghost s0 = subst@;
    let mut i: usize = 0;
    while i < l.len() && i < r.len()
        invariant
            i <= l@.len(),
            i <= r@.len(),
            subst.wf(),
            s0 == old(subst)@,
            subst@.len() == s0.len(),
            keeps_bindings(s0, subst@),
            tys_of(l@).len() == l@.len(),
            tys_of(r@).len() == r@.len(),
            forall|j: int| 0 <= j < l@.len() ==> #[trigger] tys_of(l@)[j] == l@[j]@,
            forall|j: int| 0 <= j < r@.len() ==> #[trigger] tys_of(r@)[j] == r@[j]@,
            forall|j: int| 0 <= j < l@.len() ==> fits(#[trigger] tys_of(l@)[j], s0.len()),
            forall|j: int| 0 <= j < r@.len() ==> fits(#[trigger] tys_of(r@)[j], s0.len()),
            unify_each(s0, tys_of(l@), tys_of(r@), 0, fuel as nat) == unify_each(
                subst@,
                tys_of(l@),
                tys_of(r@),
                i as nat,
                fuel as nat,
            ),
        decreases l.len() - i,
    {
        assert(fits(tys_of(l@)[i as int], s0.len()));
        assert(fits(tys_of(r@)[i as int], s0.len()));
        let step = unify_at(&l[i], &r[i], subst, fuel);
        if step.is_err() {
            return step;
        }
        i = i + 1;
    }
    Ok(())
}

/// Unifies hole `h` with `v`.
fn unify_hole(h: Variable, v: &Type, subst: &mut Substitution, fuel: usize) -> (r: Result<(), UnificationError>)
    requires
        old(subst).wf(),
        h.id < old(subst)@.len(),
        fits(v@, old(subst)@.len()),
    ensures
        final(subst).wf(),
        keeps_bindings(old(subst)@, final(subst)@),
        (final(subst)@, outcome(r)) == unify_hole_spec(old(subst)@, h.id, v@, fuel as nat),
    decreases fuel, 1nat, 0nat,
{
    match h.value(subst) {
        Some(c) => unify_at(&c, v, subst, fuel),
        None => {
            if !within_depth(v, subst, fuel) {
                return Err(UnificationError::TooDeep);
            }
            if occurs(h.id, v, subst, fuel) {
                if is_alias(v, h.id, subst, fuel) {
                    Ok(())
                } else {
                    Err(UnificationError::OccursCheck)
                }
            } else {
                h.update(subst, v.duplicate());
                Ok(())
            }
        },
    }
}

/// Whether `t` is hole `h`, directly or through a chain of bound holes.
fn is_alias(t: &Type, h: usize, subst: &Substitution, fuel: usize) -> (r: bool)
    requires
        subst.wf(),
        fits(t@, subst@.len()),
    ensures
        r == resolves_to(subst@, t@, h, fuel as nat),
    decreases fuel,
{
    match t {
        Type::Hole(k) => {
            if k.id == h {
                true
            } else if fuel == 0 {
                false
            } else {
                match k.value(subst) {
                    Some(c) => is_alias(&c, h, subst, fuel - 1),
                    None => false,
                }
            }
        },
        _ => false,
    }
}

/// Whether walking `t` through bound holes ends within `fuel` levels.
fn within_depth(t: &Type, subst: &Substitution, fuel: usize) -> (r: bool)
    requires
        subst.wf(),
        fits(t@, subst@.len()),
    ensures
        r == within(subst@, t@, fuel as nat),
    decreases fuel, 0nat,
{
    if fuel == 0 {
        return false;
    }
    match t {
        Type::Pair(v) => {
            assert(t@ == Ty::Pair(tys_of(v@)));
            proof {
                lemma_tys_of(v@);
                lemma_fits_items(tys_of(v@), subst@.len());
                let p = Ty::Pair(tys_of(v@));
                assert(p->Pair_0 == tys_of(v@));
            }
            within_each(v, subst, fuel - 1)
        },
        Type::Tuple(v) => {
            assert(t@ == Ty::Tuple(tys_of(v@)));
            proof {
                lemma_tys_of(v@);
                lemma_fits_items(tys_of(v@), subst@.len());
                let p = Ty::Tuple(tys_of(v@));
                assert(p->Tuple_0 == tys_of(v@));
            }
            within_each(v, subst, fuel - 1)
        },
        Type::Fun(a, b) => within_depth(a, subst, fuel - 1) && within_depth(b, subst, fuel - 1),
        Type::App(_, a) => within_depth(a, subst, fuel - 1),
        Type::Local(a) => within_depth(a, subst, fuel - 1),
        Type::Hole(k) => match k.value(subst) {
            Some(c) => within_depth(&c, subst, fuel - 1),
            None => true,
        },
        _ => true,
    }
}

/// Whether every element of `v` ends within `fuel` levels.
fn within_each(v: &Vec<Type>, subst: &Substitution, fuel: usize) -> (r: bool)
    requires
        subst.wf(),
        forall|j: int| 0 <= j < v@.len() ==> fits(#[trigger] tys_of(v@)[j], subst@.len()),
    ensures
        r == forall|j: int| 0 <= j < tys_of(v@).len() ==> within(subst@, #[trigger] tys_of(v@)[j], fuel as nat),
    decreases fuel, 1nat,
{
    proof {
        lemma_tys_of(v@);
    }
    let mut i: usize = 0;
    while i < v.len()
        invariant
            i <= v.len(),
            subst.wf(),
            forall|j: int| 0 <= j < v@.len() ==> fits(#[trigger] tys_of(v@)[j], subst@.len()),
            tys_of(v@).len() == v@.len(),
            forall|j: int| 0 <= j < v@.len() ==> #[trigger] tys_of(v@)[j] == v@[j]@,
            forall|j: int| 0 <= j < i ==> within(subst@, #[trigger] tys_of(v@)[j], fuel as nat),
        decreases v.len() - i,
    {
        assert(fits(tys_of(v@)[i as int], subst@.len()));
        if !within_depth(&v[i], subst, fuel) {
            assert(!within(subst@, tys_of(v@)[i as int], fuel as nat));
            return false;
        }
        i = i + 1;
    }
    true
}

/// Whether some element of `v` reaches hole `h` within `fuel` levels.
fn occurs_each(h: usize, v: &Vec<Type>, subst: &Substitution, fuel: usize) -> (r: bool)
    requires
        subst.wf(),
        forall|j: int| 0 <= j < v@.len() ==> fits(#[trigger] tys_of(v@)[j], subst@.len()),
    ensures
        r == exists|j: int| 0 <= j < tys_of(v@).len() && mentions(subst@, h, #[trigger] tys_of(v@)[j], fuel as nat),
    decreases fuel, 1nat,
{
    proof {
        lemma_tys_of(v@);
    }
    let mut i: usize = 0;
    while i < v.len()
        invariant
            i <= v.len(),
            subst.wf(),
            forall|j: int| 0 <= j < v@.len() ==> fits(#[trigger] tys_of(v@)[j], subst@.len()),
            tys_of(v@).len() == v@.len(),
            forall|j: int| 0 <= j < v@.len() ==> #[trigger] tys_of(v@)[j] == v@[j]@,
            forall|j: int| 0 <= j < i ==> !mentions(subst@, h, #[trigger] tys_of(v@)[j], fuel as nat),
        decreases v.len() - i,
    {
        assert(fits(tys_of(v@)[i as int], subst@.len()));
        if occurs(h, &v[i], subst, fuel) {
            assert(mentions(subst@, h, tys_of(v@)[i as int], fuel as nat));
            return true;
        }
        i = i + 1;
    }
    false
}

} // verus!
