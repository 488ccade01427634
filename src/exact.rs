use vstd::prelude::*;

use crate::algebra::{is_overlay_trace, is_scaled_sum, layers_aligned, overlay_cell};
use crate::raster::Raster;

verus! {

/// A result of `times` on `w` and `x`.
pub open spec fn product_of<T, W, S: Fn(W, T) -> T>(times: S, w: W, x: T) -> T {
    choose|r: T| times.ensures((w, x), r)
}

/// A result of `plus` on `a` and `b`.
pub open spec fn sum_of<T, A: Fn(T, T) -> T>(plus: A, a: T, b: T) -> T {
    choose|r: T| plus.ensures((a, b), r)
}

/// Whether `times` gives exactly one result for every weight and cell.
pub open spec fn scales_exactly<T, W, S: Fn(W, T) -> T>(times: S) -> bool {
    &&& forall|w: W, x: T| times.ensures((w, x), #[trigger] product_of(times, w, x))
    &&& forall|w: W, x: T, r: T, s: T|
        #[trigger] times.ensures((w, x), r) && #[trigger] times.ensures((w, x), s) ==> r == s
}

/// Whether `plus` gives exactly one result for every pair of cells, and is
/// commutative and associative.
pub open spec fn adds_exactly<T, A: Fn(T, T) -> T>(plus: A) -> bool {
    &&& forall|a: T, b: T| plus.ensures((a, b), #[trigger] sum_of(plus, a, b))
    &&& forall|a: T, b: T, r: T, s: T|
        #[trigger] plus.ensures((a, b), r) && #[trigger] plus.ensures((a, b), s) ==> r == s
    &&& forall|a: T, b: T, r: T| #[trigger] plus.ensures((a, b), r) ==> plus.ensures((b, a), r)
    &&& forall|a: T, b: T, c: T, ab: T, bc: T, r: T, s: T|
        #[trigger] plus.ensures((a, b), ab) && #[trigger] plus.ensures((ab, c), r)
            && #[trigger] plus.ensures((b, c), bc) && #[trigger] plus.ensures((a, bc), s) ==> r
            == s
}

/// The cells at position `k` of `layers`, each scaled by its layer's weight.
pub open spec fn products<T, W, S: Fn(W, T) -> T>(times: S, layers: Seq<(Raster<T>, W)>, k: int) -> Seq<T> {
    Seq::new(layers.len(), |i: int| product_of(times, layers[i].1, layers[i].0.cells()[k]))
}

/// The left-to-right sum of `s` under `plus`.
pub open spec fn fold_sum<T, A: Fn(T, T) -> T>(plus: A, s: Seq<T>) -> T
    decreases s.len(),
{
    if s.len() <= 1 {
        s[0]
    } else {
        sum_of(plus, fold_sum(plus, s.drop_last()), s.last())
    }
}

proof fn lemma_sum_of<T, A: Fn(T, T) -> T>(plus: A, a: T, b: T)
    requires
        adds_exactly(plus),
    ensures
        plus.ensures((a, b), sum_of(plus, a, b)),
        sum_of(plus, a, b) == sum_of(plus, b, a),
{
    let r = sum_of(plus, a, b);
    assert(plus.ensures((a, b), r));
    assert(plus.ensures((b, a), r));
    let s = sum_of(plus, b, a);
    assert(plus.ensures((b, a), s));
}

proof fn lemma_trace_prefix<T, W, S: Fn(W, T) -> T, A: Fn(T, T) -> T>(
    times: S,
    plus: A,
    layers: Seq<(Raster<T>, W)>,
    k: int,
    acc: Seq<T>,
    i: int,
)
    requires
        scales_exactly(times),
        adds_exactly(plus),
        is_overlay_trace(times, plus, layers, k, acc),
        0 <= i < layers.len(),
    ensures
        acc[i] == fold_sum(plus, products(times, layers, k).take(i + 1)),
    decreases i,
{
    let ps = products(times, layers, k);
    let w = layers[i].1;
    let x = layers[i].0.cells()[k];
    assert(times.ensures((w, x), product_of(times, w, x)));
    if i == 0 {
        assert(times.ensures((w, x), acc[0]));
    } else {
        lemma_trace_prefix(times, plus, layers, k, acc, i - 1);
        assert(ps.take(i + 1).drop_last() =~= ps.take(i));
        assert(is_scaled_sum(times, plus, acc[i - 1], w, x, acc[i]));
        let p = choose|p: T| times.ensures((w, x), p) && #[trigger] plus.ensures((acc[i - 1], p), acc[i]);
        lemma_sum_of(plus, acc[i - 1], p);
    }
}

proof fn lemma_fold_prepend<T, A: Fn(T, T) -> T>(plus: A, x: T, t: Seq<T>)
    requires
        adds_exactly(plus),
        t.len() > 0,
    ensures
        fold_sum(plus, seq![x] + t) == sum_of(plus, x, fold_sum(plus, t)),
    decreases t.len(),
{
    let xt = seq![x] + t;
    assert(xt.last() == t.last());
    assert(fold_sum(plus, xt) == sum_of(plus, fold_sum(plus, xt.drop_last()), xt.last()));
    if t.len() == 1 {
        assert(xt.drop_last() =~= seq![x]);
        assert(fold_sum(plus, seq![x]) == x);
        assert(fold_sum(plus, t) == t[0]);
    } else {
        let u = t.drop_last();
        let y = t.last();
        lemma_fold_prepend(plus, x, u);
        assert(xt.drop_last() =~= seq![x] + u);
        let fu = fold_sum(plus, u);
        let xu = sum_of(plus, x, fu);
        let uy = sum_of(plus, fu, y);
        lemma_sum_of(plus, x, fu);
        lemma_sum_of(plus, xu, y);
        lemma_sum_of(plus, fu, y);
        lemma_sum_of(plus, x, uy);
        assert(plus.ensures((x, fu), xu));
        assert(plus.ensures((xu, y), sum_of(plus, xu, y)));
        assert(plus.ensures((fu, y), uy));
        assert(plus.ensures((x, uy), sum_of(plus, x, uy)));
        assert(sum_of(plus, xu, y) == sum_of(plus, x, uy));
        assert(fold_sum(plus, t) == uy);
    }
}

proof fn lemma_fold_reverse<T, A: Fn(T, T) -> T>(plus: A, s: Seq<T>)
    requires
        adds_exactly(plus),
        s.len() > 0,
    ensures
        fold_sum(plus, s.reverse()) == fold_sum(plus, s),
    decreases s.len(),
{
    if s.len() == 1 {
        assert(s.reverse() =~= s);
    } else {
        let u = s.drop_last();
        let y = s.last();
        lemma_fold_reverse(plus, u);
        assert(s.reverse() =~= seq![y] + u.reverse());
        lemma_fold_prepend(plus, y, u.reverse());
        lemma_sum_of(plus, y, fold_sum(plus, u));
    }
}

/// Whether an overlay succeeds, and the shape it then has, do not depend on
/// which layer seeds it: reversing the layers, which makes the last one the
/// seed, keeps both.
pub proof fn lemma_overlay_shape_seed_free<T, W>(layers: Seq<(Raster<T>, W)>)
    requires
        layers.len() > 0,
    ensures
        layers_aligned(layers) <==> layers_aligned(layers.reverse()),
        layers_aligned(layers) ==> layers.reverse()[0].0.same_shape(layers[0].0),
{
    let rev = layers.reverse();
    let n = layers.len();
    assert(rev[0] == layers[n - 1]);
    if layers_aligned(layers) {
        assert forall|i: int| 0 <= i < rev.len() implies #[trigger] rev[i].0.same_shape(
            rev[0].0,
        ) by {
            assert(rev[i] == layers[n - 1 - i]);
            assert(layers[n - 1 - i].0.same_shape(layers[0].0));
            assert(layers[n - 1].0.same_shape(layers[0].0));
        }
    }
    if layers_aligned(rev) {
        assert forall|i: int| 0 <= i < layers.len() implies #[trigger] layers[i].0.same_shape(
            layers[0].0,
        ) by {
            assert(layers[i] == rev[n - 1 - i]);
            assert(rev[n - 1 - i].0.same_shape(rev[0].0));
            assert(layers[0] == rev[n - 1]);
            assert(rev[n - 1].0.same_shape(rev[0].0));
        }
    }
}

/// With exact arithmetic, the overlay's value at cell `k` is the weighted
/// sum of the layers' cells at `k`: the sum of each cell times its weight.
pub proof fn lemma_overlay_is_weighted_sum<T, W, S: Fn(W, T) -> T, A: Fn(T, T) -> T>(
    times: S,
    plus: A,
    layers: Seq<(Raster<T>, W)>,
    k: int,
    v: T,
)
    requires
        scales_exactly(times),
        adds_exactly(plus),
        overlay_cell(times, plus, layers, k, v),
    ensures
        v == fold_sum(plus, products(times, layers, k)),
{
    let n = layers.len() as int;
    let acc = choose|acc: Seq<T>| #[trigger] is_overlay_trace(times, plus, layers, k, acc) && acc.last() == v;
    lemma_trace_prefix(times, plus, layers, k, acc, n - 1);
    assert(products(times, layers, k).take(n) =~= products(times, layers, k));
}

/// With exact arithmetic (`times` and `plus` give one result each, and `plus`
/// is commutative and associative), the overlay's value at each cell does
/// not depend on which layer seeds it: reversing the layers, which makes the
/// last one the seed, gives the same value.
pub proof fn lemma_overlay_value_seed_free<T, W, S: Fn(W, T) -> T, A: Fn(T, T) -> T>(
    times: S,
    plus: A,
    layers: Seq<(Raster<T>, W)>,
    k: int,
    v: T,
    u: T,
)
    requires
        scales_exactly(times),
        adds_exactly(plus),
        overlay_cell(times, plus, layers, k, v),
        overlay_cell(times, plus, layers.reverse(), k, u),
    ensures
        u == v,
{
    let rev = layers.reverse();
    lemma_overlay_is_weighted_sum(times, plus, layers, k, v);
    lemma_overlay_is_weighted_sum(times, plus, rev, k, u);
    let ps = products(times, layers, k);
    assert(products(times, rev, k) =~= ps.reverse());
    lemma_fold_reverse(plus, ps);
}

} // verus!
