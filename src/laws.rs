//! Properties of unification, generalization, instantiation and fresh names,
//! proved over their specifications.
use vstd::prelude::*;
use crate::hir::{bound, closed_under, gen_all, gen_spec, position, lemma_closed_items, lemma_open_all, open_all, open_metas, unify_each, unify_hole_spec, unify_spec, Mismatch, Ty};
use crate::lowering::{decimal, digit, fresh_name};

verus! {

broadcast use vstd::seq::group_seq_axioms;

/// `Any` unifies with every type, on either side, and binds nothing.
pub proof fn lemma_any_unifies(s: Seq<Option<Ty>>, t: Ty, fuel: nat)
    ensures
        unify_spec(s, Ty::Any, t, fuel) == (s, Ok::<(), Mismatch>(())),
        unify_spec(s, t, Ty::Any, fuel) == (s, Ok::<(), Mismatch>(())),
{
}

/// `a` and `b` are built by different type formers that unification does not
/// relate: neither is `Any` or a hole, and they are not both `Local`, `Fun`,
/// `App`, `Pair`, `Tuple` or `Constructor`.
pub open spec fn clash(a: Ty, b: Ty) -> bool {
    &&& !(a is Any) && !(b is Any)
    &&& !(a is Hole) && !(b is Hole)
    &&& !(a is Local && b is Local)
    &&& !(a is Constructor && b is Constructor)
    &&& !(a is App && b is App)
    &&& !(a is Fun && b is Fun)
    &&& !(a is Pair && b is Pair)
    &&& !(a is Tuple && b is Tuple)
}

/// Types of clashing formers fail to unify with `IncompatibleTypes` and leave
/// the store alone.
pub proof fn lemma_clash_fails(s: Seq<Option<Ty>>, a: Ty, b: Ty, fuel: nat)
    requires
        clash(a, b),
        fuel > 0,
    ensures
        unify_spec(s, a, b, fuel) == (s, Err::<(), Mismatch>(Mismatch::Types(a, b))),
{
}

/// A hole bound to `c`, unified with a type `d` that clashes with `c`, fails
/// with `IncompatibleTypes(c, d)` and the store, its binding included, stays
/// as it was.
pub proof fn lemma_bound_hole_keeps_binding(s: Seq<Option<Ty>>, h: usize, d: Ty, fuel: nat)
    requires
        bound(s, h),
        clash(s[h as int]->Some_0, d),
        fuel >= 2,
    ensures
        unify_spec(s, Ty::Hole(h), d, fuel) == (s, Err::<(), Mismatch>(Mismatch::Types(s[h as int]->Some_0, d))),
{
    let c = s[h as int]->Some_0;
    let f = (fuel - 1) as nat;
    assert(unify_spec(s, Ty::Hole(h), d, fuel) == unify_hole_spec(s, h, d, f));
    assert(unify_hole_spec(s, h, d, f) == unify_spec(s, c, d, f));
    lemma_clash_fails(s, c, d, f);
}

/// Unifying element-wise from `i` ignores what lies beyond the shorter
/// sequence.
proof fn lemma_each_ignores_tail(s: Seq<Option<Ty>>, la: Seq<Ty>, lb: Seq<Ty>, i: nat, fuel: nat)
    requires
        la.len() <= lb.len(),
        i <= la.len(),
    ensures
        unify_each(s, la, lb, i, fuel) == unify_each(s, la, lb.subrange(0, la.len() as int), i, fuel),
    decreases la.len() - i,
{
    if i < la.len() {
        let (s1, r1) = unify_spec(s, la[i as int], lb[i as int], fuel);
        lemma_each_ignores_tail(s1, la, lb, i + 1, fuel);
    }
}

/// Pairs and tuples of different lengths unify as if the longer one were cut
/// to the length of the shorter: the extra elements are ignored.
pub proof fn lemma_shorter_length_decides(s: Seq<Option<Ty>>, la: Seq<Ty>, lb: Seq<Ty>, fuel: nat)
    requires
        la.len() <= lb.len(),
        fuel > 0,
    ensures
        unify_spec(s, Ty::Pair(la), Ty::Pair(lb), fuel) == unify_spec(s, Ty::Pair(la), Ty::Pair(lb.subrange(0, la.len() as int)), fuel),
        unify_spec(s, Ty::Tuple(la), Ty::Tuple(lb), fuel) == unify_spec(s, Ty::Tuple(la), Ty::Tuple(lb.subrange(0, la.len() as int)), fuel),
        unify_spec(s, Ty::Pair(lb), Ty::Pair(la), fuel) == unify_spec(s, Ty::Pair(lb.subrange(0, la.len() as int)), Ty::Pair(la), fuel),
        unify_spec(s, Ty::Tuple(lb), Ty::Tuple(la), fuel) == unify_spec(s, Ty::Tuple(lb.subrange(0, la.len() as int)), Ty::Tuple(la), fuel),
{
    lemma_each_ignores_tail(s, la, lb, 0, (fuel - 1) as nat);
    lemma_each_ignores_tail_left(s, lb, la, 0, (fuel - 1) as nat);
}

proof fn lemma_each_ignores_tail_left(s: Seq<Option<Ty>>, la: Seq<Ty>, lb: Seq<Ty>, i: nat, fuel: nat)
    requires
        lb.len() <= la.len(),
        i <= lb.len(),
    ensures
        unify_each(s, la, lb, i, fuel) == unify_each(s, la.subrange(0, lb.len() as int), lb, i, fuel),
    decreases lb.len() - i,
{
    if i < lb.len() {
        let (s1, r1) = unify_spec(s, la[i as int], lb[i as int], fuel);
        lemma_each_ignores_tail_left(s1, la, lb, i + 1, fuel);
    }
}

/// Every hole of `t` is a cell in `lo..hi`.
pub open spec fn holes_within(t: Ty, lo: nat, hi: nat) -> bool
    decreases t,
{
    match t {
        Ty::Pair(v) => forall|i: int| 0 <= i < v.len() ==> holes_within(#[trigger] v[i], lo, hi),
        Ty::Tuple(v) => forall|i: int| 0 <= i < v.len() ==> holes_within(#[trigger] v[i], lo, hi),
        Ty::Fun(a, b) => holes_within(*a, lo, hi) && holes_within(*b, lo, hi),
        Ty::App(_, a) => holes_within(*a, lo, hi),
        Ty::Local(a) => holes_within(*a, lo, hi),
        Ty::Hole(h) => lo <= h < hi,
        _ => true,
    }
}

/// Opening a closed type at `base` yields holes in `base..base + k` only.
pub proof fn lemma_open_holes(t: Ty, k: nat, base: nat)
    requires
        closed_under(t, k),
        base + k <= usize::MAX,
    ensures
        holes_within(open_metas(t, base), base, base + k),
    decreases t,
{
    match t {
        Ty::Pair(v) => {
            lemma_closed_items(v, k);
            lemma_open_all(v, base);
            let w = open_all(v, base);
            assert forall|i: int| 0 <= i < w.len() implies holes_within(#[trigger] w[i], base, base + k) by {
                lemma_open_holes(v[i], k, base);
            }
            let p = Ty::Pair(w);
            assert(p->Pair_0 == w);
        },
        Ty::Tuple(v) => {
            lemma_closed_items(v, k);
            lemma_open_all(v, base);
            let w = open_all(v, base);
            assert forall|i: int| 0 <= i < w.len() implies holes_within(#[trigger] w[i], base, base + k) by {
                lemma_open_holes(v[i], k, base);
            }
            let p = Ty::Tuple(w);
            assert(p->Tuple_0 == w);
        },
        Ty::Fun(a, b) => {
            lemma_open_holes(*a, k, base);
            lemma_open_holes(*b, k, base);
        },
        Ty::App(_, a) => lemma_open_holes(*a, k, base),
        Ty::Local(a) => lemma_open_holes(*a, k, base),
        _ => {},
    }
}

/// Two successive instantiations of a scheme with `k` slots, from a store of
/// `n` cells, use disjoint sets of holes: the first only cells `n..n + k`, the
/// second only cells `n + k..n + 2k`. Binding the holes of one leaves the
/// other untouched.
pub proof fn lemma_instantiations_disjoint(mono: Ty, k: nat, n: nat)
    requires
        closed_under(mono, k),
        n + 2 * k <= usize::MAX,
    ensures
        holes_within(open_metas(mono, n), n, n + k),
        holes_within(open_metas(mono, n + k), n + k, n + 2 * k),
{
    lemma_open_holes(mono, k, n);
    lemma_open_holes(mono, k, n + k);
}

/// `t` holds no quantified slot: it is an in-flight monomorphic type.
pub open spec fn monomorphic(t: Ty) -> bool
    decreases t,
{
    match t {
        Ty::Pair(v) => forall|i: int| 0 <= i < v.len() ==> monomorphic(#[trigger] v[i]),
        Ty::Tuple(v) => forall|i: int| 0 <= i < v.len() ==> monomorphic(#[trigger] v[i]),
        Ty::Fun(a, b) => monomorphic(*a) && monomorphic(*b),
        Ty::App(_, a) => monomorphic(*a),
        Ty::Local(a) => monomorphic(*a),
        Ty::Meta(_) => false,
        _ => true,
    }
}

/// Every bound cell of `s` holds a monomorphic type.
pub open spec fn store_monomorphic(s: Seq<Option<Ty>>) -> bool {
    forall|i: int| 0 <= i < s.len() && (#[trigger] s[i]) is Some ==> monomorphic(s[i]->Some_0)
}

proof fn lemma_mono_items(x: Seq<Ty>)
    requires
        monomorphic(Ty::Pair(x)) || monomorphic(Ty::Tuple(x)),
    ensures
        forall|j: int| 0 <= j < x.len() ==> monomorphic(#[trigger] x[j]),
{
    let p = Ty::Pair(x);
    let q = Ty::Tuple(x);
    assert(p->Pair_0 == x);
    assert(q->Tuple_0 == x);
}

/// A type closed under `k` slots is closed under more.
pub proof fn lemma_closed_grow(t: Ty, k: nat, m: nat)
    requires
        closed_under(t, k),
        k <= m,
    ensures
        closed_under(t, m),
    decreases t,
{
    match t {
        Ty::Pair(v) => {
            lemma_closed_items(v, k);
            assert forall|i: int| 0 <= i < v.len() implies closed_under(#[trigger] v[i], m) by {
                lemma_closed_grow(v[i], k, m);
            }
            assert(t->Pair_0 == v);
        },
        Ty::Tuple(v) => {
            lemma_closed_items(v, k);
            assert forall|i: int| 0 <= i < v.len() implies closed_under(#[trigger] v[i], m) by {
                lemma_closed_grow(v[i], k, m);
            }
            assert(t->Tuple_0 == v);
        },
        Ty::Fun(a, b) => {
            lemma_closed_grow(*a, k, m);
            lemma_closed_grow(*b, k, m);
        },
        Ty::App(_, a) => lemma_closed_grow(*a, k, m),
        Ty::Local(a) => lemma_closed_grow(*a, k, m),
        _ => {},
    }
}

proof fn lemma_position_bound(seen: Seq<usize>, h: usize)
    ensures
        -1 <= position(seen, h) < seen.len(),
    decreases seen.len(),
{
    if seen.len() > 0 {
        lemma_position_bound(seen.drop_last(), h);
    }
}

/// Generalizing a monomorphic type yields a type closed under the number of
/// cells listed afterwards, and only extends the list.
pub proof fn lemma_gen_closed(s: Seq<Option<Ty>>, t: Ty, seen: Seq<usize>, fuel: nat)
    requires
        monomorphic(t),
        store_monomorphic(s),
    ensures
        closed_under(gen_spec(s, t, seen, fuel).0, gen_spec(s, t, seen, fuel).1.len()),
        gen_spec(s, t, seen, fuel).1.len() >= seen.len(),
    decreases fuel, t,
{
    match t {
        Ty::Pair(v) => {
            lemma_mono_items(v);
            lemma_gen_all_closed(s, v, seen, fuel);
            let w = gen_all(s, v, seen, fuel).0;
            let p = Ty::Pair(w);
            assert(p->Pair_0 == w);
        },
        Ty::Tuple(v) => {
            lemma_mono_items(v);
            lemma_gen_all_closed(s, v, seen, fuel);
            let w = gen_all(s, v, seen, fuel).0;
            let p = Ty::Tuple(w);
            assert(p->Tuple_0 == w);
        },
        Ty::Fun(a, b) => {
            lemma_gen_closed(s, *a, seen, fuel);
            let (x, seen1) = gen_spec(s, *a, seen, fuel);
            lemma_gen_closed(s, *b, seen1, fuel);
            let (y, seen2) = gen_spec(s, *b, seen1, fuel);
            lemma_closed_grow(x, seen1.len(), seen2.len());
        },
        Ty::App(_, a) => lemma_gen_closed(s, *a, seen, fuel),
        Ty::Local(a) => lemma_gen_closed(s, *a, seen, fuel),
        Ty::Hole(h) => {
            if fuel > 0 && bound(s, h) {
                lemma_gen_closed(s, s[h as int]->Some_0, seen, (fuel - 1) as nat);
            } else {
                lemma_position_bound(seen, h);
            }
        },
        _ => {},
    }
}

proof fn lemma_gen_all_closed(s: Seq<Option<Ty>>, v: Seq<Ty>, seen: Seq<usize>, fuel: nat)
    requires
        forall|j: int| 0 <= j < v.len() ==> monomorphic(#[trigger] v[j]),
        store_monomorphic(s),
    ensures
        forall|j: int| 0 <= j < gen_all(s, v, seen, fuel).0.len() ==> closed_under(#[trigger] gen_all(s, v, seen, fuel).0[j], gen_all(s, v, seen, fuel).1.len()),
        gen_all(s, v, seen, fuel).1.len() >= seen.len(),
    decreases fuel, v,
{
    if v.len() > 0 {
        lemma_gen_closed(s, v[0], seen, fuel);
        let (x, seen1) = gen_spec(s, v[0], seen, fuel);
        let tail = v.drop_first();
        assert forall|j: int| 0 <= j < tail.len() implies monomorphic(#[trigger] tail[j]) by {
            assert(tail[j] == v[j + 1]);
        }
        lemma_gen_all_closed(s, tail, seen1, fuel);
        let (rest, seen2) = gen_all(s, tail, seen1, fuel);
        lemma_closed_grow(x, seen1.len(), seen2.len());
        let w = seq![x] + rest;
        assert forall|j: int| 0 <= j < w.len() implies closed_under(#[trigger] w[j], seen2.len()) by {
            if j > 0 {
                assert(w[j] == rest[j - 1]);
            }
        }
    }
}

/// `t` with bound holes of `s` looked through (within `fuel` levels) and
/// every other hole `h` renamed to the hole `n + position(seen, h)`.
pub open spec fn rename_holes(s: Seq<Option<Ty>>, t: Ty, seen: Seq<usize>, n: nat, fuel: nat) -> Ty
    decreases fuel, t,
{
    match t {
        Ty::Pair(v) => Ty::Pair(rename_all(s, v, seen, n, fuel)),
        Ty::Tuple(v) => Ty::Tuple(rename_all(s, v, seen, n, fuel)),
        Ty::Fun(a, b) => Ty::Fun(Box::new(rename_holes(s, *a, seen, n, fuel)), Box::new(rename_holes(s, *b, seen, n, fuel))),
        Ty::App(c, a) => Ty::App(c, Box::new(rename_holes(s, *a, seen, n, fuel))),
        Ty::Local(a) => Ty::Local(Box::new(rename_holes(s, *a, seen, n, fuel))),
        Ty::Hole(h) => {
            if fuel > 0 && bound(s, h) {
                rename_holes(s, s[h as int]->Some_0, seen, n, (fuel - 1) as nat)
            } else {
                Ty::Hole((n + position(seen, h)) as usize)
            }
        },
        _ => t,
    }
}

pub open spec fn rename_all(s: Seq<Option<Ty>>, v: Seq<Ty>, seen: Seq<usize>, n: nat, fuel: nat) -> Seq<Ty>
    decreases fuel, v,
{
    if v.len() == 0 {
        Seq::empty()
    } else {
        seq![rename_holes(s, v[0], seen, n, fuel)] + rename_all(s, v.drop_first(), seen, n, fuel)
    }
}

/// `fin` is `base` followed by cells that `base` does not list.
pub open spec fn fresh_extension(base: Seq<usize>, fin: Seq<usize>) -> bool {
    &&& fin.len() >= base.len()
    &&& fin.subrange(0, base.len() as int) == base
    &&& forall|j: int| base.len() <= j < fin.len() ==> position(base, #[trigger] fin[j]) < 0
}

proof fn lemma_position_append(a: Seq<usize>, b: Seq<usize>, x: usize)
    ensures
        position(a + b, x) == if position(b, x) >= 0 {
            a.len() + position(b, x)
        } else {
            position(a, x)
        },
    decreases b.len(),
{
    if b.len() == 0 {
        assert(a + b =~= a);
    } else {
        assert((a + b).drop_last() =~= a + b.drop_last());
        assert((a + b).last() == b.last());
        lemma_position_append(a, b.drop_last(), x);
    }
}

proof fn lemma_position_hit(seen: Seq<usize>, x: usize)
    ensures
        position(seen, x) >= 0 ==> position(seen, x) < seen.len() && seen[position(seen, x)] == x,
    decreases seen.len(),
{
    if seen.len() > 0 {
        lemma_position_hit(seen.drop_last(), x);
    }
}

proof fn lemma_fresh_extension_split(base: Seq<usize>, fin: Seq<usize>)
    requires
        fresh_extension(base, fin),
    ensures
        fin == base + fin.subrange(base.len() as int, fin.len() as int),
{
    assert(fin =~= base + fin.subrange(base.len() as int, fin.len() as int));
}

proof fn lemma_fresh_extension_stable(base: Seq<usize>, fin: Seq<usize>, x: usize)
    requires
        fresh_extension(base, fin),
        position(base, x) >= 0,
    ensures
        position(fin, x) == position(base, x),
{
    let extra = fin.subrange(base.len() as int, fin.len() as int);
    lemma_fresh_extension_split(base, fin);
    lemma_position_append(base, extra, x);
    lemma_position_hit(extra, x);
    if position(extra, x) >= 0 {
        let k = position(extra, x);
        assert(fin[base.len() + k] == extra[k]);
    }
}

proof fn lemma_fresh_extension_trans(a: Seq<usize>, b: Seq<usize>, c: Seq<usize>)
    requires
        fresh_extension(a, b),
        fresh_extension(b, c),
    ensures
        fresh_extension(a, c),
{
    assert(c.subrange(0, a.len() as int) =~= b.subrange(0, a.len() as int));
    assert forall|j: int| a.len() <= j < c.len() implies position(a, #[trigger] c[j]) < 0 by {
        if j < b.len() {
            assert(c[j] == b[j]);
        } else {
            let extra = b.subrange(a.len() as int, b.len() as int);
            lemma_fresh_extension_split(a, b);
            lemma_position_append(a, extra, c[j]);
        }
    }
}

proof fn lemma_fresh_extension_refl(a: Seq<usize>)
    ensures
        fresh_extension(a, a),
{
    assert(a.subrange(0, a.len() as int) =~= a);
}

/// Generalization only appends cells it had not listed.
pub proof fn lemma_gen_extends(s: Seq<Option<Ty>>, t: Ty, seen: Seq<usize>, fuel: nat)
    ensures
        fresh_extension(seen, gen_spec(s, t, seen, fuel).1),
    decreases fuel, t,
{
    match t {
        Ty::Pair(v) => lemma_gen_all_extends(s, v, seen, fuel),
        Ty::Tuple(v) => lemma_gen_all_extends(s, v, seen, fuel),
        Ty::Fun(a, b) => {
            lemma_gen_extends(s, *a, seen, fuel);
            let seen1 = gen_spec(s, *a, seen, fuel).1;
            lemma_gen_extends(s, *b, seen1, fuel);
            lemma_fresh_extension_trans(seen, seen1, gen_spec(s, *b, seen1, fuel).1);
        },
        Ty::App(_, a) => lemma_gen_extends(s, *a, seen, fuel),
        Ty::Local(a) => lemma_gen_extends(s, *a, seen, fuel),
        Ty::Hole(h) => {
            if fuel > 0 && bound(s, h) {
                lemma_gen_extends(s, s[h as int]->Some_0, seen, (fuel - 1) as nat);
            } else if position(seen, h) >= 0 {
                lemma_fresh_extension_refl(seen);
            } else {
                assert(seen.push(h).subrange(0, seen.len() as int) =~= seen);
            }
        },
        _ => lemma_fresh_extension_refl(seen),
    }
}

proof fn lemma_gen_all_extends(s: Seq<Option<Ty>>, v: Seq<Ty>, seen: Seq<usize>, fuel: nat)
    ensures
        fresh_extension(seen, gen_all(s, v, seen, fuel).1),
    decreases fuel, v,
{
    if v.len() == 0 {
        lemma_fresh_extension_refl(seen);
    } else {
        lemma_gen_extends(s, v[0], seen, fuel);
        let seen1 = gen_spec(s, v[0], seen, fuel).1;
        lemma_gen_all_extends(s, v.drop_first(), seen1, fuel);
        lemma_fresh_extension_trans(seen, seen1, gen_all(s, v.drop_first(), seen1, fuel).1);
    }
}

/// Opening the generalization of a monomorphic `t` at `n` gives `t` with
/// bound holes resolved and each other hole renamed by its position in any
/// list `fin` that extends the generalization's list with new cells.
pub proof fn lemma_open_gen(s: Seq<Option<Ty>>, t: Ty, seen: Seq<usize>, fin: Seq<usize>, n: nat, fuel: nat)
    requires
        monomorphic(t),
        store_monomorphic(s),
        fresh_extension(gen_spec(s, t, seen, fuel).1, fin),
        fin.len() < usize::MAX,
    ensures
        open_metas(gen_spec(s, t, seen, fuel).0, n) == rename_holes(s, t, fin, n, fuel),
    decreases fuel, t,
{
    match t {
        Ty::Pair(v) => {
            lemma_mono_items(v);
            lemma_open_gen_all(s, v, seen, fin, n, fuel);
            let w = gen_all(s, v, seen, fuel).0;
            let p = Ty::Pair(w);
            assert(p->Pair_0 == w);
            assert(gen_spec(s, t, seen, fuel).0 == p);
            assert(open_metas(p, n) == Ty::Pair(open_all(w, n)));
            assert(rename_holes(s, t, fin, n, fuel) == Ty::Pair(rename_all(s, v, fin, n, fuel)));
        },
        Ty::Tuple(v) => {
            lemma_mono_items(v);
            lemma_open_gen_all(s, v, seen, fin, n, fuel);
            let w = gen_all(s, v, seen, fuel).0;
            let p = Ty::Tuple(w);
            assert(p->Tuple_0 == w);
            assert(gen_spec(s, t, seen, fuel).0 == p);
            assert(open_metas(p, n) == Ty::Tuple(open_all(w, n)));
            assert(rename_holes(s, t, fin, n, fuel) == Ty::Tuple(rename_all(s, v, fin, n, fuel)));
        },
        Ty::Fun(a, b) => {
            let seen1 = gen_spec(s, *a, seen, fuel).1;
            let seen2 = gen_spec(s, *b, seen1, fuel).1;
            lemma_gen_extends(s, *b, seen1, fuel);
            lemma_fresh_extension_trans(seen1, seen2, fin);
            lemma_open_gen(s, *a, seen, fin, n, fuel);
            lemma_open_gen(s, *b, seen1, fin, n, fuel);
        },
        Ty::App(_, a) => lemma_open_gen(s, *a, seen, fin, n, fuel),
        Ty::Local(a) => lemma_open_gen(s, *a, seen, fin, n, fuel),
        Ty::Hole(h) => {
            if fuel > 0 && bound(s, h) {
                lemma_open_gen(s, s[h as int]->Some_0, seen, fin, n, (fuel - 1) as nat);
            } else if position(seen, h) >= 0 {
                lemma_position_bound(seen, h);
                lemma_fresh_extension_stable(seen, fin, h);
            } else {
                let seen2 = seen.push(h);
                assert(seen2.last() == h);
                assert(position(seen2, h) == seen.len());
                lemma_fresh_extension_stable(seen2, fin, h);
            }
        },
        _ => {},
    }
}

proof fn lemma_open_gen_all(s: Seq<Option<Ty>>, v: Seq<Ty>, seen: Seq<usize>, fin: Seq<usize>, n: nat, fuel: nat)
    requires
        forall|j: int| 0 <= j < v.len() ==> monomorphic(#[trigger] v[j]),
        store_monomorphic(s),
        fresh_extension(gen_all(s, v, seen, fuel).1, fin),
        fin.len() < usize::MAX,
    ensures
        open_all(gen_all(s, v, seen, fuel).0, n) == rename_all(s, v, fin, n, fuel),
    decreases fuel, v,
{
    if v.len() == 0 {
        assert(open_all(Seq::<Ty>::empty(), n) =~= Seq::<Ty>::empty());
    } else {
        let (x, seen1) = gen_spec(s, v[0], seen, fuel);
        let tail = v.drop_first();
        let (rest, seen2) = gen_all(s, tail, seen1, fuel);
        assert forall|j: int| 0 <= j < tail.len() implies monomorphic(#[trigger] tail[j]) by {
            assert(tail[j] == v[j + 1]);
        }
        lemma_gen_all_extends(s, tail, seen1, fuel);
        lemma_fresh_extension_trans(seen1, seen2, fin);
        lemma_open_gen(s, v[0], seen, fin, n, fuel);
        lemma_open_gen_all(s, tail, seen1, fin, n, fuel);
        let w = seq![x] + rest;
        lemma_open_all(w, n);
        lemma_open_all(rest, n);
        assert(open_all(w, n) =~= seq![open_metas(x, n)] + open_all(rest, n)) by {
            assert forall|j: int| 0 <= j < w.len() implies open_all(w, n)[j] == (seq![open_metas(x, n)] + open_all(rest, n))[j] by {
                if j > 0 {
                    assert(w[j] == rest[j - 1]);
                }
            }
        }
    }
}

/// Generalizing a monomorphic type and instantiating the scheme from a store
/// of `n` cells gives back the type with its bound holes resolved and each
/// distinct unbound hole replaced by its own new hole: the `i`-th distinct
/// hole met becomes cell `n + i`. Distinct holes stay distinct and equal
/// holes stay equal, so the two types agree up to renaming of holes.
pub proof fn lemma_instantiate_generalize(s: Seq<Option<Ty>>, t: Ty, fuel: nat, n: nat)
    requires
        monomorphic(t),
        store_monomorphic(s),
        gen_spec(s, t, Seq::empty(), fuel).1.len() < usize::MAX,
    ensures
        open_metas(gen_spec(s, t, Seq::empty(), fuel).0, n) == rename_holes(s, t, gen_spec(s, t, Seq::empty(), fuel).1, n, fuel),
        forall|h1: usize, h2: usize|
            #![trigger position(gen_spec(s, t, Seq::empty(), fuel).1, h1), position(gen_spec(s, t, Seq::empty(), fuel).1, h2)]
            position(gen_spec(s, t, Seq::empty(), fuel).1, h1) >= 0 && h1 != h2 ==> position(gen_spec(s, t, Seq::empty(), fuel).1, h1) != position(gen_spec(s, t, Seq::empty(), fuel).1, h2),
{
    let fin = gen_spec(s, t, Seq::empty(), fuel).1;
    lemma_fresh_extension_refl(fin);
    lemma_open_gen(s, t, Seq::empty(), fin, n, fuel);
    assert forall|h1: usize, h2: usize|
        position(fin, h1) >= 0 && h1 != h2 implies #[trigger] position(fin, h1) != #[trigger] position(fin, h2) by {
        lemma_position_hit(fin, h1);
        lemma_position_hit(fin, h2);
    }
}

/// `t` holds no hole.
pub open spec fn hole_free(t: Ty) -> bool
    decreases t,
{
    match t {
        Ty::Pair(v) => forall|i: int| 0 <= i < v.len() ==> hole_free(#[trigger] v[i]),
        Ty::Tuple(v) => forall|i: int| 0 <= i < v.len() ==> hole_free(#[trigger] v[i]),
        Ty::Fun(a, b) => hole_free(*a) && hole_free(*b),
        Ty::App(_, a) => hole_free(*a),
        Ty::Local(a) => hole_free(*a),
        Ty::Hole(_) => false,
        _ => true,
    }
}

proof fn lemma_hole_free_items(x: Seq<Ty>)
    requires
        hole_free(Ty::Pair(x)) || hole_free(Ty::Tuple(x)),
    ensures
        forall|j: int| 0 <= j < x.len() ==> hole_free(#[trigger] x[j]),
{
    let p = Ty::Pair(x);
    let q = Ty::Tuple(x);
    assert(p->Pair_0 == x);
    assert(q->Tuple_0 == x);
}

/// Unifying two hole-free types leaves the store as it is, and succeeds in
/// one order exactly when it succeeds in the other.
pub proof fn lemma_unify_symmetric_hole_free(s: Seq<Option<Ty>>, a: Ty, b: Ty, fuel: nat)
    requires
        hole_free(a),
        hole_free(b),
    ensures
        unify_spec(s, a, b, fuel).0 == s,
        unify_spec(s, b, a, fuel).0 == s,
        unify_spec(s, a, b, fuel).1 is Ok <==> unify_spec(s, b, a, fuel).1 is Ok,
    decreases fuel, 0nat, 0nat,
{
    if a is Any || b is Any || fuel == 0 {
    } else {
        let f = (fuel - 1) as nat;
        match (a, b) {
            (Ty::Local(x), Ty::Local(y)) => lemma_unify_symmetric_hole_free(s, *x, *y, f),
            (Ty::App(m, x), Ty::App(k, y)) => {
                if m == k {
                    lemma_unify_symmetric_hole_free(s, *x, *y, f);
                }
            },
            (Ty::Fun(x1, x2), Ty::Fun(y1, y2)) => {
                lemma_unify_symmetric_hole_free(s, *x1, *y1, f);
                lemma_unify_symmetric_hole_free(s, *x2, *y2, f);
            },
            (Ty::Pair(la), Ty::Pair(lb)) => {
                lemma_hole_free_items(la);
                lemma_hole_free_items(lb);
                lemma_each_symmetric_hole_free(s, la, lb, 0, f);
            },
            (Ty::Tuple(la), Ty::Tuple(lb)) => {
                lemma_hole_free_items(la);
                lemma_hole_free_items(lb);
                lemma_each_symmetric_hole_free(s, la, lb, 0, f);
            },
            _ => {},
        }
    }
}

proof fn lemma_each_symmetric_hole_free(s: Seq<Option<Ty>>, la: Seq<Ty>, lb: Seq<Ty>, i: nat, fuel: nat)
    requires
        forall|j: int| 0 <= j < la.len() ==> hole_free(#[trigger] la[j]),
        forall|j: int| 0 <= j < lb.len() ==> hole_free(#[trigger] lb[j]),
    ensures
        unify_each(s, la, lb, i, fuel).0 == s,
        unify_each(s, lb, la, i, fuel).0 == s,
        unify_each(s, la, lb, i, fuel).1 is Ok <==> unify_each(s, lb, la, i, fuel).1 is Ok,
    decreases fuel, 2nat, la.len() - i,
{
    if i < la.len() && i < lb.len() {
        lemma_unify_symmetric_hole_free(s, la[i as int], lb[i as int], fuel);
        lemma_each_symmetric_hole_free(s, la, lb, i + 1, fuel);
    }
}

/// No cell is listed twice.
pub open spec fn distinct_cells(seen: Seq<usize>) -> bool {
    forall|i: int, j: int| 0 <= i < j < seen.len() ==> seen[i] != seen[j]
}

proof fn lemma_position_miss(seen: Seq<usize>, h: usize)
    requires
        position(seen, h) < 0,
    ensures
        forall|i: int| 0 <= i < seen.len() ==> seen[i] != h,
    decreases seen.len(),
{
    if seen.len() > 0 {
        lemma_position_miss(seen.drop_last(), h);
        assert forall|i: int| 0 <= i < seen.len() implies seen[i] != h by {
            if i < seen.len() - 1 {
                assert(seen[i] == seen.drop_last()[i]);
            }
        }
    }
}

/// Generalization lists each cell at most once, so the number of slots of
/// the scheme is the number of distinct unbound holes met.
pub proof fn lemma_gen_distinct(s: Seq<Option<Ty>>, t: Ty, seen: Seq<usize>, fuel: nat)
    requires
        distinct_cells(seen),
    ensures
        distinct_cells(gen_spec(s, t, seen, fuel).1),
    decreases fuel, t,
{
    match t {
        Ty::Pair(v) => lemma_gen_all_distinct(s, v, seen, fuel),
        Ty::Tuple(v) => lemma_gen_all_distinct(s, v, seen, fuel),
        Ty::Fun(a, b) => {
            lemma_gen_distinct(s, *a, seen, fuel);
            lemma_gen_distinct(s, *b, gen_spec(s, *a, seen, fuel).1, fuel);
        },
        Ty::App(_, a) => lemma_gen_distinct(s, *a, seen, fuel),
        Ty::Local(a) => lemma_gen_distinct(s, *a, seen, fuel),
        Ty::Hole(h) => {
            if fuel > 0 && bound(s, h) {
                lemma_gen_distinct(s, s[h as int]->Some_0, seen, (fuel - 1) as nat);
            } else if position(seen, h) < 0 {
                lemma_position_miss(seen, h);
                let seen2 = seen.push(h);
                assert forall|i: int, j: int| 0 <= i < j < seen2.len() implies seen2[i] != seen2[j] by {
                    if j < seen.len() {
                        assert(seen2[i] == seen[i] && seen2[j] == seen[j]);
                    } else {
                        assert(seen2[i] == seen[i]);
                    }
                }
            }
        },
        _ => {},
    }
}

proof fn lemma_gen_all_distinct(s: Seq<Option<Ty>>, v: Seq<Ty>, seen: Seq<usize>, fuel: nat)
    requires
        distinct_cells(seen),
    ensures
        distinct_cells(gen_all(s, v, seen, fuel).1),
    decreases fuel, v,
{
    if v.len() > 0 {
        lemma_gen_distinct(s, v[0], seen, fuel);
        lemma_gen_all_distinct(s, v.drop_first(), gen_spec(s, v[0], seen, fuel).1, fuel);
    }
}

proof fn lemma_decimal_nonempty(n: nat)
    ensures
        decimal(n).len() >= 1,
        n >= 10 ==> decimal(n).len() >= 2,
    decreases n,
{
    if n >= 10 {
        lemma_decimal_nonempty(n / 10);
    }
}

proof fn lemma_digit_injective(a: nat, b: nat)
    requires
        a < 10,
        b < 10,
        digit(a) == digit(b),
    ensures
        a == b,
{
}

/// Distinct numbers have distinct decimal notations.
pub proof fn lemma_decimal_injective(a: nat, b: nat)
    requires
        decimal(a) == decimal(b),
    ensures
        a == b,
    decreases a,
{
    lemma_decimal_nonempty(a);
    lemma_decimal_nonempty(b);
    if a < 10 && b < 10 {
        assert(decimal(a) == seq![digit(a)]);
        assert(decimal(b) == seq![digit(b)]);
        assert(seq![digit(a)][0] == digit(a));
        assert(seq![digit(b)][0] == digit(b));
        lemma_digit_injective(a, b);
    } else if a >= 10 && b >= 10 {
        let da = decimal(a / 10);
        let db = decimal(b / 10);
        assert(decimal(a).drop_last() =~= da);
        assert(decimal(b).drop_last() =~= db);
        assert(decimal(a) == da.push(digit(a % 10)));
        assert(decimal(b) == db.push(digit(b % 10)));
        assert(decimal(a).last() == digit(a % 10));
        assert(decimal(b).last() == digit(b % 10));
        lemma_decimal_injective(a / 10, b / 10);
        lemma_digit_injective(a % 10, b % 10);
    }
}

/// Synthesized variable names are distinct for distinct counter values; as
/// the counter only grows, a context never synthesizes one name twice.
pub proof fn lemma_fresh_names_distinct(a: nat, b: nat)
    requires
        a != b,
    ensures
        fresh_name(a) != fresh_name(b),
{
    if fresh_name(a) == fresh_name(b) {
        assert(fresh_name(a).drop_first() =~= decimal(a));
        assert(fresh_name(b).drop_first() =~= decimal(b));
        lemma_decimal_injective(a, b);
    }
}

} // verus!
