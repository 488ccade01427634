use vstd::prelude::*;

use crate::raster::{Raster, ShapeMismatch};

verus! {

/// Whether every layer has the shape of the first one.
pub open spec fn layers_aligned<T, W>(layers: Seq<(Raster<T>, W)>) -> bool {
    forall|i: int| 0 <= i < layers.len() ==> #[trigger] layers[i].0.same_shape(layers[0].0)
}

/// Whether `v` is `x` plus `y` scaled by `weight`.
pub open spec fn is_scaled_sum<T, W, S: Fn(W, T) -> T, A: Fn(T, T) -> T>(
    times: S,
    plus: A,
    x: T,
    weight: W,
    y: T,
    v: T,
) -> bool {
    exists|p: T| times.ensures((weight, y), p) && #[trigger] plus.ensures((x, p), v)
}

/// Whether `acc` lists, for cell `k`, the running values of the overlay of
/// `layers`: the first layer's cell scaled by its weight, then, layer after
/// layer, the previous running value plus that layer's cell scaled by its
/// weight.
pub open spec fn is_overlay_trace<T, W, S: Fn(W, T) -> T, A: Fn(T, T) -> T>(
    times: S,
    plus: A,
    layers: Seq<(Raster<T>, W)>,
    k: int,
    acc: Seq<T>,
) -> bool {
    &&& layers.len() > 0
    &&& acc.len() == layers.len()
    &&& times.ensures((layers[0].1, layers[0].0.cells()[k]), acc[0])
    &&& forall|i: int|
        1 <= i < layers.len() ==> is_scaled_sum(
            times,
            plus,
            acc[i - 1],
            layers[i].1,
            layers[i].0.cells()[k],
            #[trigger] acc[i],
        )
}

/// Whether `v` is a value that the overlay of `layers` can hold at cell `k`:
/// the last running value of a trace.
pub open spec fn overlay_cell<T, W, S: Fn(W, T) -> T, A: Fn(T, T) -> T>(
    times: S,
    plus: A,
    layers: Seq<(Raster<T>, W)>,
    k: int,
    v: T,
) -> bool {
    exists|acc: Seq<T>| #[trigger] is_overlay_trace(times, plus, layers, k, acc) && acc.last() == v
}

impl<T: Copy> Raster<T> {
    /// Each cell scaled by `weight`.
    pub fn scaled<W: Copy, S: Fn(W, T) -> T>(&self, weight: W, times: &S) -> (r: Raster<T>)
        requires
            forall|w: W, x: T| times.requires((w, x)),
        ensures
            r.same_shape(*self),
            r.cells().len() == self.cells().len(),
            forall|k: int|
                0 <= k < r.cells().len() ==> times.ensures((weight, self.cells()[k]), #[trigger] r.cells()[k]),
    {
        let n = self.len();
        let mut data: Vec<T> = Vec::with_capacity(n);
        let mut i: usize = 0;
        while i < n
            invariant
                n == self.cells().len(),
                i <= n,
                data@.len() == i,
                forall|w: W, x: T| times.requires((w, x)),
                forall|k: int| 0 <= k < i ==> times.ensures((weight, self.cells()[k]), #[trigger] data@[k]),
            decreases n - i,
        {
            let x = self.cell(i);
            data.push(times(weight, x));
            i = i + 1;
        }
        Raster::from_filled(self.rows(), self.cols(), data)
    }

    /// Each cell plus the cell of `layer` at the same position scaled by
    /// `weight`; fails when the two shapes differ.
    pub fn add_scaled<W: Copy, S: Fn(W, T) -> T, A: Fn(T, T) -> T>(
        &self,
        layer: &Raster<T>,
        weight: W,
        times: &S,
        plus: &A,
    ) -> (r: Result<Raster<T>, ShapeMismatch>)
        requires
            forall|w: W, x: T| times.requires((w, x)),
            forall|x: T, y: T| plus.requires((x, y)),
        ensures
            r is Ok <==> self.same_shape(*layer),
            r matches Ok(g) ==> {
                &&& g.same_shape(*self)
                &&& g.cells().len() == self.cells().len()
                &&& layer.cells().len() == self.cells().len()
                &&& forall|k: int|
                    0 <= k < g.cells().len() ==> is_scaled_sum(
                        *times,
                        *plus,
                        self.cells()[k],
                        weight,
                        layer.cells()[k],
                        #[trigger] g.cells()[k],
                    )
            },
    {
        if self.rows() != layer.rows() || self.cols() != layer.cols() {
            return Err(ShapeMismatch);
        }
        let n = self.len();
        let m = layer.len();
        let mut data: Vec<T> = Vec::with_capacity(n);
        let mut i: usize = 0;
        while i < n
            invariant
                n == self.cells().len(),
                m == layer.cells().len(),
                n == m,
                i <= n,
                data@.len() == i,
                forall|w: W, x: T| times.requires((w, x)),
                forall|x: T, y: T| plus.requires((x, y)),
                forall|k: int|
                    0 <= k < i ==> is_scaled_sum(
                        *times,
                        *plus,
                        self.cells()[k],
                        weight,
                        layer.cells()[k],
                        #[trigger] data@[k],
                    ),
            decreases n - i,
        {
            let p = times(weight, layer.cell(i));
            let v = plus(self.cell(i), p);
            let ghost before = data@;
            data.push(v);
            proof {
                assert forall|k: int| 0 <= k < i + 1 implies is_scaled_sum(
                    *times,
                    *plus,
                    self.cells()[k],
                    weight,
                    layer.cells()[k],
                    #[trigger] data@[k],
                ) by {
                    if k < i {
                        assert(data@[k] == before[k]);
                    } else {
                        assert(times.ensures((weight, layer.cells()[k]), p));
                        assert(plus.ensures((self.cells()[k], p), data@[k]));
                    }
                }
            }
            i = i + 1;
        }
        Ok(Raster::from_filled(self.rows(), self.cols(), data))
    }

    /// The weighted overlay of `layers`: the sum over all layers of each
    /// layer's cells scaled by its weight, computed cell by cell with `times`
    /// and `plus`. No layers give the empty raster; layers whose shapes differ
    /// give `ShapeMismatch`.
    pub fn overlay<W: Copy, S: Fn(W, T) -> T, A: Fn(T, T) -> T>(
        layers: &Vec<(Raster<T>, W)>,
        times: S,
        plus: A,
    ) -> (r: Result<Raster<T>, ShapeMismatch>)
        requires
            forall|w: W, x: T| times.requires((w, x)),
            forall|x: T, y: T| plus.requires((x, y)),
        ensures
            layers@.len() == 0 ==> (r matches Ok(g) && g.nrows() == 0 && g.ncols() == 0
                && g.cells().len() == 0),
            layers@.len() > 0 ==> (r is Ok <==> layers_aligned(layers@)),
            r matches Ok(g) ==> layers@.len() == 0 || {
                &&& g.same_shape(layers@[0].0)
                &&& g.cells().len() == layers@[0].0.cells().len()
                &&& forall|k: int|
                    0 <= k < g.cells().len() ==> overlay_cell(
                        times,
                        plus,
                        layers@,
                        k,
                        #[trigger] g.cells()[k],
                    )
            },
    {
        let n = layers.len();
        if n == 0 {
            return Ok(Raster::empty());
        }
        let first = &layers[0];
        let mut acc = first.0.scaled(first.1, &times);
        proof {
            let head = layers@.take(1);
            assert(head.len() == 1 && head[0] == layers@[0]);
            assert forall|k: int| 0 <= k < acc.cells().len() implies overlay_cell(
                times,
                plus,
                head,
                k,
                #[trigger] acc.cells()[k],
            ) by {
                let trace = seq![acc.cells()[k]];
                assert(is_overlay_trace(times, plus, head, k, trace));
            }
        }
        let mut i: usize = 1;
        while i < n
            invariant
                n == layers@.len(),
                1 <= i <= n,
                forall|w: W, x: T| times.requires((w, x)),
                forall|x: T, y: T| plus.requires((x, y)),
                acc.same_shape(layers@[0].0),
                acc.cells().len() == layers@[0].0.cells().len(),
                forall|j: int| 0 <= j < i ==> #[trigger] layers@[j].0.same_shape(layers@[0].0),
                forall|k: int|
                    0 <= k < acc.cells().len() ==> overlay_cell(
                        times,
                        plus,
                        layers@.take(i as int),
                        k,
                        #[trigger] acc.cells()[k],
                    ),
            decreases n - i,
        {
            let layer = &layers[i];
            match acc.add_scaled(&layer.0, layer.1, &times, &plus) {
                Ok(next) => {
                    proof {
                        let upto = layers@.take(i + 1);
                        assert forall|k: int| 0 <= k < next.cells().len() implies overlay_cell(
                            times,
                            plus,
                            upto,
                            k,
                            #[trigger] next.cells()[k],
                        ) by {
                            let before = layers@.take(i as int);
                            assert(overlay_cell(times, plus, before, k, acc.cells()[k]));
                            let trace = choose|t: Seq<T>|
                                #[trigger] is_overlay_trace(times, plus, before, k, t) && t.last()
                                    == acc.cells()[k];
                            let longer = trace.push(next.cells()[k]);
                            assert forall|j: int| 1 <= j < upto.len() implies is_scaled_sum(
                                times,
                                plus,
                                longer[j - 1],
                                upto[j].1,
                                upto[j].0.cells()[k],
                                #[trigger] longer[j],
                            ) by {
                                if j < i {
                                    assert(longer[j] == trace[j]);
                                    assert(upto[j] == before[j]);
                                }
                            }
                            assert(is_overlay_trace(times, plus, upto, k, longer));
                        }
                    }
                    acc = next;
                },
                Err(e) => {
                    proof {
                        assert(!layers@[i as int].0.same_shape(layers@[0].0));
                    }
                    return Err(e);
                },
            }
            i = i + 1;
        }
        proof {
            assert(layers@.take(n as int) =~= layers@);
        }
        Ok(acc)
    }
}

} // verus!
