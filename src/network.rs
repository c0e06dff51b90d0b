use vstd::prelude::*;
use crate::matrix::{
    Matrix, MatrixError, pure_fn1, pure_fn2, has_shape, map_of, zip_of, product_of,
    transpose_of, constant_of, as_column, column,
};

verus! {

/// The arithmetic on matrix entries: an additive identity, addition,
/// subtraction and multiplication.
pub struct Arithmetic<T, A, S, M> {
    pub zero: T,
    pub plus: A,
    pub minus: S,
    pub times: M,
}

impl<T, A: Fn(T, T) -> T, S: Fn(T, T) -> T, M: Fn(T, T) -> T> Arithmetic<T, A, S, M> {
    /// Each operation is defined on all entries and gives one result for each.
    pub open spec fn wf(&self) -> bool {
        &&& pure_fn2(self.plus)
        &&& pure_fn2(self.minus)
        &&& pure_fn2(self.times)
    }
}

/// An activation: the function applied to each neuron, and its derivative.
/// The derivative is taken of the activated value `function(x)`, not of `x`.
pub struct Activation<F, D> {
    pub function: F,
    pub derivative: D,
}

/// Both functions of `act` are defined on all entries and give one result for each.
pub open spec fn activation_wf<T, F: Fn(T) -> T, D: Fn(T) -> T>(act: Activation<F, D>) -> bool {
    &&& pure_fn1::<T, F>(act.function)
    &&& pure_fn1::<T, D>(act.derivative)
}

/// Why a network refused a request.
#[derive(Clone, Copy, Debug, PartialEq, Eq, Structural)]
pub enum NetworkError {
    /// Fewer than two layers were asked for.
    TooFewLayers,
    /// A layer was asked to hold no neurons.
    EmptyLayer,
    /// The input vector does not match the width of the first layer.
    InvalidInputLength,
    /// The target vector does not match the width of the last layer.
    InvalidTargetLength,
    /// The output vector handed back does not match the width of the last layer.
    InvalidOutputLength,
    /// Back-propagation was asked for before any forward pass.
    MissingForwardPass,
    /// The lists of inputs and of targets differ in length.
    SampleCountMismatch,
    /// Parameters handed in do not have the shapes that the layers call for.
    ShapeError,
}

/// One layer transition: `function(w · x + b)`, entry by entry.
pub open spec fn layer_step<T, A: Fn(T, T) -> T, S: Fn(T, T) -> T, M: Fn(T, T) -> T, F: Fn(
    T,
) -> T, D: Fn(T) -> T>(
    w: Seq<Seq<T>>,
    b: Seq<Seq<T>>,
    x: Seq<Seq<T>>,
    arith: Arithmetic<T, A, S, M>,
    act: Activation<F, D>,
) -> Seq<Seq<T>> {
    map_of(
        zip_of(product_of(w, x, 1, arith.zero, arith.plus, arith.times), b, arith.plus),
        act.function,
    )
}

/// The activations of the first `n + 1` layers when `x` is fed to the first one.
pub open spec fn forward_pass<T, A: Fn(T, T) -> T, S: Fn(T, T) -> T, M: Fn(T, T) -> T, F: Fn(
    T,
) -> T, D: Fn(T) -> T>(
    ws: Seq<Seq<Seq<T>>>,
    bs: Seq<Seq<Seq<T>>>,
    x: Seq<Seq<T>>,
    n: nat,
    arith: Arithmetic<T, A, S, M>,
    act: Activation<F, D>,
) -> Seq<Seq<Seq<T>>>
    decreases n,
{
    if n == 0 {
        seq![x]
    } else {
        let c = forward_pass(ws, bs, x, (n - 1) as nat, arith, act);
        c.push(layer_step(ws[n - 1], bs[n - 1], c.last(), arith, act))
    }
}

/// The views of a list of matrices.
pub open spec fn views<T>(ms: Seq<Matrix<T>>) -> Seq<Seq<Seq<T>>> {
    ms.map_values(|m: Matrix<T>| m@)
}

/// The gradient `(grad ⊙ err)` scaled entry by entry by the learning rate.
pub open spec fn scaled_gradient<T, A: Fn(T, T) -> T, S: Fn(T, T) -> T, M: Fn(T, T) -> T>(
    grad: Seq<Seq<T>>,
    err: Seq<Seq<T>>,
    rows: nat,
    lr: T,
    arith: Arithmetic<T, A, S, M>,
) -> Seq<Seq<T>> {
    zip_of(zip_of(grad, err, arith.times), constant_of(rows, 1, lr), arith.times)
}

/// The error and the gradient after the top `steps` transitions have been
/// walked back from `(err, grad)`: each step sends the error back through the
/// transpose of the weights as they were before the update, and takes the
/// gradient from the derivative of the cached activations of the layer below.
pub open spec fn back_signal<T, A: Fn(T, T) -> T, S: Fn(T, T) -> T, M: Fn(T, T) -> T, F: Fn(T) -> T, D: Fn(T) -> T>(
    ws: Seq<Seq<Seq<T>>>,
    cache: Seq<Seq<Seq<T>>>,
    layers: Seq<usize>,
    err: Seq<Seq<T>>,
    grad: Seq<Seq<T>>,
    steps: nat,
    arith: Arithmetic<T, A, S, M>,
    act: Activation<F, D>,
) -> (Seq<Seq<T>>, Seq<Seq<T>>)
    decreases steps,
{
    if steps == 0 {
        (err, grad)
    } else {
        let prev = back_signal(ws, cache, layers, err, grad, (steps - 1) as nat, arith, act);
        let i = layers.len() - 1 - steps;
        (
            product_of(
                transpose_of(ws[i], layers[i + 1] as nat, layers[i] as nat),
                prev.0,
                1,
                arith.zero,
                arith.plus,
                arith.times,
            ),
            map_of(cache[i], act.derivative),
        )
    }
}

/// The scaled gradient at transition `i` of a backward pass that starts from
/// `(err, grad)` at the output layer.
pub open spec fn step_gradient<T, A: Fn(T, T) -> T, S: Fn(T, T) -> T, M: Fn(T, T) -> T, F: Fn(T) -> T, D: Fn(T) -> T>(
    ws: Seq<Seq<Seq<T>>>,
    cache: Seq<Seq<Seq<T>>>,
    layers: Seq<usize>,
    err: Seq<Seq<T>>,
    grad: Seq<Seq<T>>,
    lr: T,
    arith: Arithmetic<T, A, S, M>,
    act: Activation<F, D>,
    i: int,
) -> Seq<Seq<T>> {
    let sig = back_signal(ws, cache, layers, err, grad, (layers.len() - 2 - i) as nat, arith, act);
    scaled_gradient(sig.1, sig.0, layers[i + 1] as nat, lr, arith)
}

/// Weights `i` after the backward pass: the old weights plus the scaled
/// gradient times the transposed input of that transition.
pub open spec fn updated_weight<T, A: Fn(T, T) -> T, S: Fn(T, T) -> T, M: Fn(T, T) -> T, F: Fn(T) -> T, D: Fn(T) -> T>(
    ws: Seq<Seq<Seq<T>>>,
    cache: Seq<Seq<Seq<T>>>,
    layers: Seq<usize>,
    err: Seq<Seq<T>>,
    grad: Seq<Seq<T>>,
    lr: T,
    arith: Arithmetic<T, A, S, M>,
    act: Activation<F, D>,
    i: int,
) -> Seq<Seq<T>> {
    zip_of(
        ws[i],
        product_of(
            step_gradient(ws, cache, layers, err, grad, lr, arith, act, i),
            transpose_of(cache[i], layers[i] as nat, 1),
            layers[i] as nat,
            arith.zero,
            arith.plus,
            arith.times,
        ),
        arith.plus,
    )
}

/// The output error `targets - outputs`, as a column.
pub open spec fn output_error<T, A: Fn(T, T) -> T, S: Fn(T, T) -> T, M: Fn(T, T) -> T>(
    outputs: Seq<T>,
    targets: Seq<T>,
    arith: Arithmetic<T, A, S, M>,
) -> Seq<Seq<T>> {
    zip_of(as_column(targets), as_column(outputs), arith.minus)
}

/// The views of a list of vectors.
pub open spec fn vec_views<T>(vs: Seq<Vec<T>>) -> Seq<Seq<T>> {
    vs.map_values(|v: Vec<T>| v@)
}

/// Weights and biases after one forward pass on `input` and one
/// back-propagation towards `target`.
pub open spec fn sample_step<T, A: Fn(T, T) -> T, S: Fn(T, T) -> T, M: Fn(T, T) -> T, F: Fn(T) -> T, D: Fn(T) -> T>(
    layers: Seq<usize>,
    params: (Seq<Seq<Seq<T>>>, Seq<Seq<Seq<T>>>),
    lr: T,
    input: Seq<T>,
    target: Seq<T>,
    arith: Arithmetic<T, A, S, M>,
    act: Activation<F, D>,
) -> (Seq<Seq<Seq<T>>>, Seq<Seq<Seq<T>>>) {
    let ws = params.0;
    let bs = params.1;
    let cache = forward_pass(ws, bs, as_column(input), (layers.len() - 1) as nat, arith, act);
    let out = column(cache.last(), 0);
    let err = output_error(out, target, arith);
    let grad = map_of(as_column(out), act.derivative);
    (
        Seq::new(ws.len(), |i: int| updated_weight(ws, cache, layers, err, grad, lr, arith, act, i)),
        Seq::new(
            bs.len(),
            |i: int|
                zip_of(bs[i], step_gradient(ws, cache, layers, err, grad, lr, arith, act, i), arith.plus),
        ),
    )
}

/// Weights and biases after a step on each of the first `k` samples, in order.
pub open spec fn run_samples<T, A: Fn(T, T) -> T, S: Fn(T, T) -> T, M: Fn(T, T) -> T, F: Fn(T) -> T, D: Fn(T) -> T>(
    layers: Seq<usize>,
    params: (Seq<Seq<Seq<T>>>, Seq<Seq<Seq<T>>>),
    lr: T,
    inputs: Seq<Seq<T>>,
    targets: Seq<Seq<T>>,
    k: nat,
    arith: Arithmetic<T, A, S, M>,
    act: Activation<F, D>,
) -> (Seq<Seq<Seq<T>>>, Seq<Seq<Seq<T>>>)
    decreases k,
{
    if k == 0 {
        params
    } else {
        sample_step(
            layers,
            run_samples(layers, params, lr, inputs, targets, (k - 1) as nat, arith, act),
            lr,
            inputs[k - 1],
            targets[k - 1],
            arith,
            act,
        )
    }
}

/// Weights and biases after `epochs` passes over all samples.
pub open spec fn run_epochs<T, A: Fn(T, T) -> T, S: Fn(T, T) -> T, M: Fn(T, T) -> T, F: Fn(T) -> T, D: Fn(T) -> T>(
    layers: Seq<usize>,
    params: (Seq<Seq<Seq<T>>>, Seq<Seq<Seq<T>>>),
    lr: T,
    inputs: Seq<Seq<T>>,
    targets: Seq<Seq<T>>,
    epochs: nat,
    arith: Arithmetic<T, A, S, M>,
    act: Activation<F, D>,
) -> (Seq<Seq<Seq<T>>>, Seq<Seq<Seq<T>>>)
    decreases epochs,
{
    if epochs == 0 {
        params
    } else {
        run_samples(
            layers,
            run_epochs(layers, params, lr, inputs, targets, (epochs - 1) as nat, arith, act),
            lr,
            inputs,
            targets,
            inputs.len(),
            arith,
            act,
        )
    }
}

/// A copy of `v`.
fn copy_vec<T: Copy>(v: &Vec<T>) -> (r: Vec<T>)
    ensures
        r@ == v@,
{
    let mut out: Vec<T> = Vec::new();
    let mut i: usize = 0;
    while i < v.len()
        invariant
            0 <= i <= v.len(),
            out@ == v@.take(i as int),
        decreases v.len() - i,
    {
        out.push(v[i]);
        i = i + 1;
        assert(out@ =~= v@.take(i as int));
    }
    assert(out@ =~= v@);
    out
}

/// The views of a list of grids of vectors.
pub open spec fn grid_views<T>(gs: Seq<Vec<Vec<T>>>) -> Seq<Seq<Seq<T>>> {
    gs.map_values(|g: Vec<Vec<T>>| vec_views(g@))
}

/// `ws` and `bs` have the shapes that layers of widths `layers` call for:
/// one weight grid `layers[i + 1]` by `layers[i]` and one bias column of
/// height `layers[i + 1]` per transition.
pub open spec fn parameters_fit<T>(
    layers: Seq<usize>,
    ws: Seq<Seq<Seq<T>>>,
    bs: Seq<Seq<Seq<T>>>,
) -> bool {
    &&& ws.len() == layers.len() - 1
    &&& bs.len() == layers.len() - 1
    &&& forall|i: int|
        0 <= i < layers.len() - 1 ==> has_shape(
            #[trigger] ws[i],
            layers[i + 1] as nat,
            layers[i] as nat,
        )
    &&& forall|i: int| 0 <= i < layers.len() - 1 ==> has_shape(#[trigger] bs[i], layers[i + 1] as nat, 1)
}

/// A copy of the rows of `g`.
fn copy_grid<T: Copy>(g: &Vec<Vec<T>>) -> (r: Vec<Vec<T>>)
    ensures
        vec_views(r@) == vec_views(g@),
{
    let mut out: Vec<Vec<T>> = Vec::new();
    let mut i: usize = 0;
    while i < g.len()
        invariant
            0 <= i <= g.len(),
            out.len() == i,
            forall|k: int| 0 <= k < i ==> (#[trigger] out[k])@ == g[k]@,
        decreases g.len() - i,
    {
        out.push(copy_vec(&g[i]));
        i = i + 1;
    }
    assert(vec_views(out@) =~= vec_views(g@));
    out
}

/// A fully connected feed-forward network: one weight matrix and one bias
/// column per transition between consecutive layers, and the activations of
/// the last forward pass.
pub struct Network<T> {
    layers: Vec<usize>,
    weights: Vec<Matrix<T>>,
    biases: Vec<Matrix<T>>,
    data: Vec<Matrix<T>>,
    learning_rate: T,
}

impl<T: Copy> Network<T> {
    pub closed spec fn spec_layers(&self) -> Seq<usize> {
        self.layers@
    }

    pub closed spec fn spec_weights(&self) -> Seq<Seq<Seq<T>>> {
        views(self.weights@)
    }

    pub closed spec fn spec_biases(&self) -> Seq<Seq<Seq<T>>> {
        views(self.biases@)
    }

    /// The activations of every layer from the last forward pass, or none.
    pub closed spec fn spec_cache(&self) -> Seq<Seq<Seq<T>>> {
        views(self.data@)
    }

    pub closed spec fn spec_learning_rate(&self) -> T {
        self.learning_rate
    }

    /// At least two layers, none empty; weights `i` is `layers[i + 1]` by
    /// `layers[i]` and biases `i` is `layers[i + 1]` by one; the cache is
    /// empty or holds one column per layer.
    pub closed spec fn wf(&self) -> bool {
        let n = self.layers.len();
        &&& n >= 2
        &&& forall|k: int| 0 <= k < n ==> #[trigger] self.layers[k] >= 1
        &&& self.weights.len() == n - 1
        &&& self.biases.len() == n - 1
        &&& forall|i: int|
            0 <= i < n - 1 ==> {
                &&& (#[trigger] self.weights[i]).spec_rows() == self.layers[i + 1]
                &&& self.weights[i].spec_cols() == self.layers[i]
                &&& has_shape(self.weights[i]@, self.layers[i + 1] as nat, self.layers[i] as nat)
            }
        &&& forall|i: int|
            0 <= i < n - 1 ==> {
                &&& (#[trigger] self.biases[i]).spec_rows() == self.layers[i + 1]
                &&& self.biases[i].spec_cols() == 1
                &&& has_shape(self.biases[i]@, self.layers[i + 1] as nat, 1)
            }
        &&& self.data.len() == 0 || self.data.len() == n
        &&& forall|k: int|
            0 <= k < self.data.len() ==> {
                &&& (#[trigger] self.data[k]).spec_rows() == self.layers[k]
                &&& self.data[k].spec_cols() == 1
                &&& has_shape(self.data[k]@, self.layers[k] as nat, 1)
            }
    }

    /// A network with the given layer widths, its weights and biases drawn
    /// from `draw`, one entry at a time.
    pub fn new<R: Fn() -> T>(layers: Vec<usize>, learning_rate: T, draw: &R) -> (r: Result<
        Network<T>,
        NetworkError,
    >)
        requires
            draw.requires(()),
        ensures
            match r {
                Ok(net) => {
                    &&& layers.len() >= 2
                    &&& forall|k: int| 0 <= k < layers.len() ==> #[trigger] layers[k] >= 1
                    &&& net.wf()
                    &&& net.spec_layers() == layers@
                    &&& net.spec_learning_rate() == learning_rate
                    &&& net.spec_cache().len() == 0
                },
                Err(e) => {
                    ||| (e == NetworkError::TooFewLayers && layers.len() < 2)
                    ||| (e == NetworkError::EmptyLayer && layers.len() >= 2 && exists|k: int|
                        0 <= k < layers.len() && #[trigger] layers[k] == 0)
                },
            },
    {
        if layers.len() < 2 {
            return Err(NetworkError::TooFewLayers);
        }
        let mut k: usize = 0;
        while k < layers.len()
            invariant
                layers.len() >= 2,
                0 <= k <= layers.len(),
                forall|q: int| 0 <= q < k ==> #[trigger] layers[q] >= 1,
            decreases layers.len() - k,
        {
            if layers[k] == 0 {
                assert(layers[k as int] == 0);
                return Err(NetworkError::EmptyLayer);
            }
            k = k + 1;
        }
        let mut weights: Vec<Matrix<T>> = Vec::new();
        let mut biases: Vec<Matrix<T>> = Vec::new();
        let mut i: usize = 0;
        while i < layers.len() - 1
            invariant
                draw.requires(()),
                layers.len() >= 2,
                forall|q: int| 0 <= q < layers.len() ==> #[trigger] layers[q] >= 1,
                0 <= i <= layers.len() - 1,
                weights.len() == i,
                biases.len() == i,
                forall|q: int|
                    0 <= q < i ==> {
                        &&& (#[trigger] weights[q]).spec_rows() == layers[q + 1]
                        &&& weights[q].spec_cols() == layers[q]
                        &&& has_shape(weights[q]@, layers[q + 1] as nat, layers[q] as nat)
                    },
                forall|q: int|
                    0 <= q < i ==> {
                        &&& (#[trigger] biases[q]).spec_rows() == layers[q + 1]
                        &&& biases[q].spec_cols() == 1
                        &&& has_shape(biases[q]@, layers[q + 1] as nat, 1)
                    },
            decreases layers.len() - 1 - i,
        {
            let w = match Matrix::from_fn(layers[i + 1], layers[i], draw) {
                Ok(m) => m,
                Err(_) => {
                    return Err(NetworkError::EmptyLayer);
                },
            };
            let b = match Matrix::from_fn(layers[i + 1], 1, draw) {
                Ok(m) => m,
                Err(_) => {
                    return Err(NetworkError::EmptyLayer);
                },
            };
            weights.push(w);
            biases.push(b);
            i = i + 1;
        }
        let net = Network { layers, weights, biases, data: Vec::new(), learning_rate };
        assert(net.spec_cache() =~= Seq::<Seq<Seq<T>>>::empty());
        Ok(net)
    }

    /// Feeds `inputs` to the first layer and returns the activations of the
    /// last one. The activations of every layer are kept for the next
    /// back-propagation.
    pub fn feed_forward<A: Fn(T, T) -> T, S: Fn(T, T) -> T, M: Fn(T, T) -> T, F: Fn(T) -> T, D: Fn(
        T,
    ) -> T>(&mut self, inputs: Vec<T>, arith: &Arithmetic<T, A, S, M>, act: &Activation<F, D>) -> (r:
        Result<Vec<T>, NetworkError>)
        requires
            old(self).wf(),
            arith.wf(),
            activation_wf(*act),
        ensures
            final(self).wf(),
            final(self).spec_layers() == old(self).spec_layers(),
            final(self).spec_weights() == old(self).spec_weights(),
            final(self).spec_biases() == old(self).spec_biases(),
            final(self).spec_learning_rate() == old(self).spec_learning_rate(),
            match r {
                Ok(out) => {
                    &&& inputs.len() == old(self).spec_layers()[0]
                    &&& final(self).spec_cache() == forward_pass(
                        old(self).spec_weights(),
                        old(self).spec_biases(),
                        as_column(inputs@),
                        (old(self).spec_layers().len() - 1) as nat,
                        *arith,
                        *act,
                    )
                    &&& out@ == column(final(self).spec_cache().last(), 0)
                    &&& out.len() == old(self).spec_layers().last()
                },
                Err(e) => {
                    &&& e == NetworkError::InvalidInputLength
                    &&& inputs.len() != old(self).spec_layers()[0]
                    &&& *final(self) == *old(self)
                },
            },
    {
        if inputs.len() != self.layers[0] {
            return Err(NetworkError::InvalidInputLength);
        }
        let n = self.layers.len();
        let ghost iv = inputs@;
        let ghost ws = self.spec_weights();
        let ghost bs = self.spec_biases();
        let mut rows: Vec<Vec<T>> = Vec::new();
        rows.push(inputs);
        assert(rows@.map_values(|v: Vec<T>| v@) =~= seq![iv]);
        let input_row = match Matrix::from(rows) {
            Ok(m) => m,
            Err(_) => {
                return Err(NetworkError::InvalidInputLength);
            },
        };
        let first = input_row.transpose();
        proof {
            assert(input_row@ == seq![iv]);
            assert forall|j: int| 0 <= j < iv.len() implies #[trigger] first@[j] =~= as_column(
                iv,
            )[j] by {}
            assert(first@ =~= as_column(iv));
        }
        let mut cache: Vec<Matrix<T>> = Vec::new();
        cache.push(first);
        assert(views(cache@) =~= forward_pass(ws, bs, as_column(iv), 0, *arith, *act));
        let mut i: usize = 0;
        while i < n - 1
            invariant
                self.wf(),
                arith.wf(),
                activation_wf(*act),
                n == self.layers.len(),
                ws == self.spec_weights(),
                bs == self.spec_biases(),
                0 <= i <= n - 1,
                cache.len() == i + 1,
                views(cache@) == forward_pass(ws, bs, as_column(iv), i as nat, *arith, *act),
                forall|k: int|
                    0 <= k <= i ==> {
                        &&& (#[trigger] cache[k]).spec_rows() == self.layers[k]
                        &&& cache[k].spec_cols() == 1
                        &&& has_shape(cache[k]@, self.layers[k] as nat, 1)
                    },
            decreases n - 1 - i,
        {
            let prod = match self.weights[i].multiply(
                &cache[i],
                arith.zero,
                &arith.plus,
                &arith.times,
            ) {
                Ok(m) => m,
                Err(_) => {
                    return Err(NetworkError::InvalidInputLength);
                },
            };
            let sum = match prod.zip_with(&self.biases[i], &arith.plus) {
                Ok(m) => m,
                Err(_) => {
                    return Err(NetworkError::InvalidInputLength);
                },
            };
            let next = sum.map(&act.function);
            let ghost before = views(cache@);
            cache.push(next);
            proof {
                assert(before.last() == cache[i as int]@);
                assert(views(cache@) =~= before.push(next@));
            }
            i = i + 1;
        }
        self.data = cache;
        let out = self.data[n - 1].column_vec(0);
        proof {
            assert(self.spec_cache().last() == self.data[n - 1]@);
        }
        Ok(out)
    }


    /// Adjusts weights and biases by one step of gradient descent towards
    /// `targets`, from `outputs` and the activations kept by the last forward
    /// pass. Walking back from the output layer, each transition's weights
    /// gain the scaled gradient times its transposed input, its biases gain
    /// the scaled gradient, and the error passes on through the weights as
    /// they were before this step.
    #[verifier::spinoff_prover]
    pub fn back_propagate<A: Fn(T, T) -> T, S: Fn(T, T) -> T, M: Fn(T, T) -> T, F: Fn(T) -> T, D: Fn(
        T,
    ) -> T>(
        &mut self,
        outputs: Vec<T>,
        targets: Vec<T>,
        arith: &Arithmetic<T, A, S, M>,
        act: &Activation<F, D>,
    ) -> (r: Result<(), NetworkError>)
        requires
            old(self).wf(),
            arith.wf(),
            activation_wf(*act),
        ensures
            final(self).wf(),
            final(self).spec_layers() == old(self).spec_layers(),
            final(self).spec_cache() == old(self).spec_cache(),
            final(self).spec_learning_rate() == old(self).spec_learning_rate(),
            match r {
                Ok(()) => {
                    &&& targets.len() == old(self).spec_layers().last()
                    &&& outputs.len() == old(self).spec_layers().last()
                    &&& old(self).spec_cache().len() != 0
                    &&& final(self).spec_weights().len() == old(self).spec_weights().len()
                    &&& final(self).spec_biases().len() == old(self).spec_biases().len()
                    &&& forall|i: int|
                        0 <= i < old(self).spec_weights().len() ==> {
                            &&& #[trigger] final(self).spec_weights()[i] == updated_weight(
                                old(self).spec_weights(),
                                old(self).spec_cache(),
                                old(self).spec_layers(),
                                output_error(outputs@, targets@, *arith),
                                map_of(as_column(outputs@), act.derivative),
                                old(self).spec_learning_rate(),
                                *arith,
                                *act,
                                i,
                            )
                            &&& final(self).spec_biases()[i] == zip_of(
                                old(self).spec_biases()[i],
                                step_gradient(
                                    old(self).spec_weights(),
                                    old(self).spec_cache(),
                                    old(self).spec_layers(),
                                    output_error(outputs@, targets@, *arith),
                                    map_of(as_column(outputs@), act.derivative),
                                    old(self).spec_learning_rate(),
                                    *arith,
                                    *act,
                                    i,
                                ),
                                arith.plus,
                            )
                        }
                },
                Err(e) => {
                    &&& *final(self) == *old(self)
                    &&& if targets.len() != old(self).spec_layers().last() {
                        e == NetworkError::InvalidTargetLength
                    } else if outputs.len() != old(self).spec_layers().last() {
                        e == NetworkError::InvalidOutputLength
                    } else {
                        e == NetworkError::MissingForwardPass && old(self).spec_cache().len() == 0
                    }
                },
            },
    {
        let n = self.layers.len();
        if targets.len() != self.layers[n - 1] {
            return Err(NetworkError::InvalidTargetLength);
        }
        if outputs.len() != self.layers[n - 1] {
            return Err(NetworkError::InvalidOutputLength);
        }
        if self.data.len() == 0 {
            return Err(NetworkError::MissingForwardPass);
        }
        let ghost ws = self.spec_weights();
        let ghost bs = self.spec_biases();
        let ghost cache = self.spec_cache();
        let ghost layers = self.spec_layers();
        let ghost err0 = output_error(outputs@, targets@, *arith);
        let ghost grad0 = map_of(as_column(outputs@), act.derivative);
        let parsed = match Matrix::from_column(outputs) {
            Ok(m) => m,
            Err(_) => {
                return Err(NetworkError::InvalidOutputLength);
            },
        };
        let expected = match Matrix::from_column(targets) {
            Ok(m) => m,
            Err(_) => {
                return Err(NetworkError::InvalidTargetLength);
            },
        };
        let mut errors = match expected.zip_with(&parsed, &arith.minus) {
            Ok(m) => m,
            Err(_) => {
                return Err(NetworkError::InvalidOutputLength);
            },
        };
        let mut gradients = parsed.map(&act.derivative);
        let ghost old_self = *self;
        let mut s: usize = 0;
        while s < n - 1
            invariant
                self.wf(),
                arith.wf(),
                activation_wf(*act),
                n == self.layers.len(),
                old_self.wf(),
                self.layers == old_self.layers,
                self.data == old_self.data,
                self.learning_rate == old_self.learning_rate,
                old_self.data.len() == n,
                ws == old_self.spec_weights(),
                bs == old_self.spec_biases(),
                cache == old_self.spec_cache(),
                layers == old_self.spec_layers(),
                0 <= s <= n - 1,
                self.weights.len() == n - 1,
                self.biases.len() == n - 1,
                (errors@, gradients@) == back_signal(ws, cache, layers, err0, grad0, s as nat, *arith, *act),
                errors.spec_rows() == layers[n - 1 - s],
                errors.spec_cols() == 1,
                has_shape(errors@, layers[n - 1 - s] as nat, 1),
                gradients.spec_rows() == layers[n - 1 - s],
                gradients.spec_cols() == 1,
                has_shape(gradients@, layers[n - 1 - s] as nat, 1),
                forall|k: int|
                    0 <= k < n - 1 - s ==> {
                        &&& #[trigger] self.weights[k] == old_self.weights[k]
                        &&& self.biases[k] == old_self.biases[k]
                    },
                forall|k: int|
                    n - 1 - s <= k < n - 1 ==> {
                        &&& #[trigger] self.weights[k]@ == updated_weight(ws, cache, layers, err0, grad0, self.learning_rate, *arith, *act, k)
                        &&& self.biases[k]@ == zip_of(bs[k], step_gradient(ws, cache, layers, err0, grad0, self.learning_rate, *arith, *act, k), arith.plus)
                    },
            decreases n - 1 - s,
        {
            let i = n - 2 - s;
            let gd = match gradients.zip_with(&errors, &arith.times) {
                Ok(m) => m,
                Err(_) => {
                    return Err(NetworkError::InvalidOutputLength);
                },
            };
            let rate = match Matrix::filled(self.layers[i + 1], 1, self.learning_rate) {
                Ok(m) => m,
                Err(_) => {
                    return Err(NetworkError::InvalidOutputLength);
                },
            };
            let g = match gd.zip_with(&rate, &arith.times) {
                Ok(m) => m,
                Err(_) => {
                    return Err(NetworkError::InvalidOutputLength);
                },
            };
            let input_t = self.data[i].transpose();
            let dw = match g.multiply(&input_t, arith.zero, &arith.plus, &arith.times) {
                Ok(m) => m,
                Err(_) => {
                    return Err(NetworkError::InvalidOutputLength);
                },
            };
            let w2 = match self.weights[i].zip_with(&dw, &arith.plus) {
                Ok(m) => m,
                Err(_) => {
                    return Err(NetworkError::InvalidOutputLength);
                },
            };
            let b2 = match self.biases[i].zip_with(&g, &arith.plus) {
                Ok(m) => m,
                Err(_) => {
                    return Err(NetworkError::InvalidOutputLength);
                },
            };
            let weights_t = self.weights[i].transpose();
            let e2 = match weights_t.multiply(&errors, arith.zero, &arith.plus, &arith.times) {
                Ok(m) => m,
                Err(_) => {
                    return Err(NetworkError::InvalidOutputLength);
                },
            };
            let g2 = self.data[i].map(&act.derivative);
            proof {
                assert(g@ == step_gradient(ws, cache, layers, err0, grad0, self.learning_rate, *arith, *act, i as int));
            }
            let ghost pre_w = self.weights@;
            let ghost pre_b = self.biases@;
            self.weights.set(i, w2);
            self.biases.set(i, b2);
            proof {
                assert(self.weights@ == pre_w.update(i as int, w2));
                assert(self.biases@ == pre_b.update(i as int, b2));
                assert forall|k: int| 0 <= k < n - 1 - (s + 1) implies {
                    &&& #[trigger] self.weights[k] == old_self.weights[k]
                    &&& self.biases[k] == old_self.biases[k]
                } by {
                    assert(self.weights[k] == pre_w[k]);
                    assert(self.biases[k] == pre_b[k]);
                }
            }
            errors = e2;
            gradients = g2;
            s = s + 1;
        }
        proof {
            assert forall|i: int| 0 <= i < n - 1 implies {
                &&& #[trigger] self.spec_weights()[i] == updated_weight(ws, cache, layers, err0, grad0, self.learning_rate, *arith, *act, i)
                &&& self.spec_biases()[i] == zip_of(bs[i], step_gradient(ws, cache, layers, err0, grad0, self.learning_rate, *arith, *act, i), arith.plus)
            } by {
                assert(self.spec_weights()[i] == self.weights[i]@);
                assert(self.spec_biases()[i] == self.biases[i]@);
            }
            assert(self.spec_learning_rate() == old_self.spec_learning_rate());
            assert(ws == old(self).spec_weights());
            assert(bs == old(self).spec_biases());
            assert(cache == old(self).spec_cache());
            assert(layers == old(self).spec_layers());
            assert(self.learning_rate == old(self).spec_learning_rate());
            assert(self.spec_weights().len() == n - 1);
            assert(self.spec_biases().len() == n - 1);
        }
        Ok(())
    }


    /// Trains on every sample in order, `epochs` times over: a forward pass
    /// on the input, then a back-propagation towards the target. All samples
    /// are checked before any training, so a refused request changes nothing.
    #[verifier::spinoff_prover]
    pub fn train<A: Fn(T, T) -> T, S: Fn(T, T) -> T, M: Fn(T, T) -> T, F: Fn(T) -> T, D: Fn(T) -> T>(
        &mut self,
        inputs: Vec<Vec<T>>,
        targets: Vec<Vec<T>>,
        epochs: u16,
        arith: &Arithmetic<T, A, S, M>,
        act: &Activation<F, D>,
    ) -> (r: Result<(), NetworkError>)
        requires
            old(self).wf(),
            arith.wf(),
            activation_wf(*act),
        ensures
            final(self).wf(),
            final(self).spec_layers() == old(self).spec_layers(),
            final(self).spec_learning_rate() == old(self).spec_learning_rate(),
            match r {
                Ok(()) => {
                    &&& inputs.len() == targets.len()
                    &&& forall|j: int|
                        0 <= j < inputs.len() ==> (#[trigger] inputs[j]).len()
                            == old(self).spec_layers()[0]
                    &&& forall|j: int|
                        0 <= j < targets.len() ==> (#[trigger] targets[j]).len()
                            == old(self).spec_layers().last()
                    &&& (final(self).spec_weights(), final(self).spec_biases()) == run_epochs(
                        old(self).spec_layers(),
                        (old(self).spec_weights(), old(self).spec_biases()),
                        old(self).spec_learning_rate(),
                        vec_views(inputs@),
                        vec_views(targets@),
                        epochs as nat,
                        *arith,
                        *act,
                    )
                },
                Err(e) => {
                    &&& *final(self) == *old(self)
                    &&& if inputs.len() != targets.len() {
                        e == NetworkError::SampleCountMismatch
                    } else if exists|j: int|
                        0 <= j < inputs.len() && (#[trigger] inputs[j]).len()
                            != old(self).spec_layers()[0] {
                        e == NetworkError::InvalidInputLength
                    } else {
                        &&& e == NetworkError::InvalidTargetLength
                        &&& exists|j: int|
                            0 <= j < targets.len() && (#[trigger] targets[j]).len()
                                != old(self).spec_layers().last()
                    }
                },
            },
    {
        let n = self.layers.len();
        if inputs.len() != targets.len() {
            return Err(NetworkError::SampleCountMismatch);
        }
        let mut j: usize = 0;
        while j < inputs.len()
            invariant
                self.wf(),
                *self == *old(self),
                n == self.layers.len(),
                inputs.len() == targets.len(),
                0 <= j <= inputs.len(),
                forall|q: int| 0 <= q < j ==> (#[trigger] inputs[q]).len() == self.layers[0],
            decreases inputs.len() - j,
        {
            if inputs[j].len() != self.layers[0] {
                assert(inputs[j as int].len() != self.spec_layers()[0]);
                return Err(NetworkError::InvalidInputLength);
            }
            j = j + 1;
        }
        let mut j: usize = 0;
        while j < targets.len()
            invariant
                self.wf(),
                *self == *old(self),
                n == self.layers.len(),
                inputs.len() == targets.len(),
                forall|q: int| 0 <= q < inputs.len() ==> (#[trigger] inputs[q]).len() == self.layers[0],
                0 <= j <= targets.len(),
                forall|q: int| 0 <= q < j ==> (#[trigger] targets[q]).len() == self.layers[n - 1],
            decreases targets.len() - j,
        {
            if targets[j].len() != self.layers[n - 1] {
                assert(targets[j as int].len() != self.spec_layers().last());
                return Err(NetworkError::InvalidTargetLength);
            }
            j = j + 1;
        }
        let ghost start = (self.spec_weights(), self.spec_biases());
        let ghost ins = vec_views(inputs@);
        let ghost tgs = vec_views(targets@);
        let ghost layers = self.spec_layers();
        let ghost lr = self.spec_learning_rate();
        let mut epoch: u16 = 0;
        while epoch < epochs
            invariant
                self.wf(),
                arith.wf(),
                activation_wf(*act),
                n == self.layers.len(),
                layers == self.spec_layers(),
                lr == self.spec_learning_rate(),
                ins == vec_views(inputs@),
                tgs == vec_views(targets@),
                inputs.len() == targets.len(),
                forall|q: int| 0 <= q < inputs.len() ==> (#[trigger] inputs[q]).len() == self.layers[0],
                forall|q: int| 0 <= q < targets.len() ==> (#[trigger] targets[q]).len() == self.layers[n - 1],
                0 <= epoch <= epochs,
                (self.spec_weights(), self.spec_biases()) == run_epochs(layers, start, lr, ins, tgs, epoch as nat, *arith, *act),
            decreases epochs - epoch,
        {
            let ghost at_epoch = (self.spec_weights(), self.spec_biases());
            let mut k: usize = 0;
            while k < inputs.len()
                invariant
                    self.wf(),
                    arith.wf(),
                    activation_wf(*act),
                    n == self.layers.len(),
                    layers == self.spec_layers(),
                    lr == self.spec_learning_rate(),
                    ins == vec_views(inputs@),
                    tgs == vec_views(targets@),
                    inputs.len() == targets.len(),
                    forall|q: int| 0 <= q < inputs.len() ==> (#[trigger] inputs[q]).len() == self.layers[0],
                    forall|q: int| 0 <= q < targets.len() ==> (#[trigger] targets[q]).len() == self.layers[n - 1],
                    0 <= k <= inputs.len(),
                    (self.spec_weights(), self.spec_biases()) == run_samples(layers, at_epoch, lr, ins, tgs, k as nat, *arith, *act),
                decreases inputs.len() - k,
            {
                let ghost before = (self.spec_weights(), self.spec_biases());
                let input = copy_vec(&inputs[k]);
                let target = copy_vec(&targets[k]);
                let out = match self.feed_forward(input, arith, act) {
                    Ok(v) => v,
                    Err(_) => {
                        return Err(NetworkError::InvalidInputLength);
                    },
                };
                let ghost cache = self.spec_cache();
                let ghost out_v = out@;
                match self.back_propagate(out, target, arith, act) {
                    Ok(()) => {},
                    Err(_) => {
                        return Err(NetworkError::InvalidTargetLength);
                    },
                }
                proof {
                    assert(cache == forward_pass(before.0, before.1, as_column(ins[k as int]), (layers.len() - 1) as nat, *arith, *act));
                    assert(out_v == column(cache.last(), 0));
                    let st = sample_step(layers, before, lr, ins[k as int], tgs[k as int], *arith, *act);
                    assert(ins[k as int] == inputs[k as int]@);
                    assert(tgs[k as int] == targets[k as int]@);
                    assert(self.spec_weights() =~= st.0);
                    assert(before.0.len() == n - 1);
                    assert(before.1.len() == n - 1);
                    assert forall|i: int| 0 <= i < n - 1 implies #[trigger] self.spec_biases()[i] == st.1[i] by {
                        assert(self.spec_weights()[i] == st.0[i]);
                    }
                    assert(self.spec_biases() =~= st.1);
                }
                k = k + 1;
            }
            epoch = epoch + 1;
        }
        Ok(())
    }


    /// The widths of the layers, from input to output.
    pub fn layers(&self) -> (r: &Vec<usize>)
        ensures
            r@ == self.spec_layers(),
    {
        &self.layers
    }

    pub fn learning_rate(&self) -> (r: T)
        ensures
            r == self.spec_learning_rate(),
    {
        self.learning_rate
    }

    /// The entries of every weight matrix and of every bias column, row by row.
    pub fn parameters(&self) -> (r: (Vec<Vec<Vec<T>>>, Vec<Vec<Vec<T>>>))
        requires
            self.wf(),
        ensures
            grid_views(r.0@) == self.spec_weights(),
            grid_views(r.1@) == self.spec_biases(),
    {
        let mut ws: Vec<Vec<Vec<T>>> = Vec::new();
        let mut bs: Vec<Vec<Vec<T>>> = Vec::new();
        let mut i: usize = 0;
        while i < self.weights.len()
            invariant
                self.wf(),
                0 <= i <= self.weights.len(),
                ws.len() == i,
                bs.len() == i,
                forall|k: int| 0 <= k < i ==> vec_views((#[trigger] ws[k])@) == self.weights[k]@,
                forall|k: int| 0 <= k < i ==> vec_views((#[trigger] bs[k])@) == self.biases[k]@,
            decreases self.weights.len() - i,
        {
            let w = self.weights[i].to_rows();
            let b = self.biases[i].to_rows();
            ws.push(w);
            bs.push(b);
            i = i + 1;
        }
        assert(grid_views(ws@) =~= self.spec_weights());
        assert(grid_views(bs@) =~= self.spec_biases());
        (ws, bs)
    }

    /// Replaces every weight matrix and bias column with the entries handed
    /// in, which must have the shapes that the layers call for.
    pub fn set_parameters(&mut self, weights: Vec<Vec<Vec<T>>>, biases: Vec<Vec<Vec<T>>>) -> (r:
        Result<(), NetworkError>)
        requires
            old(self).wf(),
        ensures
            final(self).wf(),
            final(self).spec_layers() == old(self).spec_layers(),
            final(self).spec_cache() == old(self).spec_cache(),
            final(self).spec_learning_rate() == old(self).spec_learning_rate(),
            match r {
                Ok(()) => {
                    &&& parameters_fit(old(self).spec_layers(), grid_views(weights@), grid_views(biases@))
                    &&& final(self).spec_weights() == grid_views(weights@)
                    &&& final(self).spec_biases() == grid_views(biases@)
                },
                Err(e) => {
                    &&& e == NetworkError::ShapeError
                    &&& !parameters_fit(old(self).spec_layers(), grid_views(weights@), grid_views(biases@))
                    &&& *final(self) == *old(self)
                },
            },
    {
        let n = self.layers.len();
        let ghost wv = grid_views(weights@);
        let ghost bv = grid_views(biases@);
        if weights.len() != n - 1 || biases.len() != n - 1 {
            return Err(NetworkError::ShapeError);
        }
        let mut new_w: Vec<Matrix<T>> = Vec::new();
        let mut new_b: Vec<Matrix<T>> = Vec::new();
        let mut i: usize = 0;
        while i < n - 1
            invariant
                self.wf(),
                *self == *old(self),
                n == self.layers.len(),
                wv == grid_views(weights@),
                bv == grid_views(biases@),
                weights.len() == n - 1,
                biases.len() == n - 1,
                0 <= i <= n - 1,
                new_w.len() == i,
                new_b.len() == i,
                forall|k: int|
                    0 <= k < i ==> {
                        &&& (#[trigger] new_w[k]).spec_rows() == self.layers[k + 1]
                        &&& new_w[k].spec_cols() == self.layers[k]
                        &&& has_shape(new_w[k]@, self.layers[k + 1] as nat, self.layers[k] as nat)
                        &&& new_w[k]@ == wv[k]
                    },
                forall|k: int|
                    0 <= k < i ==> {
                        &&& (#[trigger] new_b[k]).spec_rows() == self.layers[k + 1]
                        &&& new_b[k].spec_cols() == 1
                        &&& has_shape(new_b[k]@, self.layers[k + 1] as nat, 1)
                        &&& new_b[k]@ == bv[k]
                    },
            decreases n - 1 - i,
        {
            let w = match Matrix::from(copy_grid(&weights[i])) {
                Ok(m) => m,
                Err(_) => {
                    assert(!has_shape(wv[i as int], self.layers[i + 1] as nat, self.layers[i as int] as nat));
                    return Err(NetworkError::ShapeError);
                },
            };
            if w.rows() != self.layers[i + 1] || w.cols() != self.layers[i] {
                assert(!has_shape(wv[i as int], self.layers[i + 1] as nat, self.layers[i as int] as nat));
                return Err(NetworkError::ShapeError);
            }
            let b = match Matrix::from(copy_grid(&biases[i])) {
                Ok(m) => m,
                Err(_) => {
                    assert(!has_shape(bv[i as int], self.layers[i + 1] as nat, 1));
                    return Err(NetworkError::ShapeError);
                },
            };
            if b.rows() != self.layers[i + 1] || b.cols() != 1 {
                assert(!has_shape(bv[i as int], self.layers[i + 1] as nat, 1));
                return Err(NetworkError::ShapeError);
            }
            new_w.push(w);
            new_b.push(b);
            i = i + 1;
        }
        self.weights = new_w;
        self.biases = new_b;
        assert(self.spec_weights() =~= wv);
        assert(self.spec_biases() =~= bv);
        Ok(())
    }

}


/// The parameters taken from a network fit every network with the same layer
/// widths: handing them to such a network succeeds and leaves it with exactly
/// those weights and biases, so that it computes what the first one computes.
pub proof fn lemma_parameters_fit_same_layers<T: Copy>(a: Network<T>, b: Network<T>)
    requires
        a.wf(),
        b.wf(),
        a.spec_layers() == b.spec_layers(),
    ensures
        parameters_fit(b.spec_layers(), a.spec_weights(), a.spec_biases()),
{
    assert forall|i: int| 0 <= i < a.spec_layers().len() - 1 implies has_shape(
        #[trigger] a.spec_weights()[i],
        a.spec_layers()[i + 1] as nat,
        a.spec_layers()[i] as nat,
    ) by {
        assert(a.spec_weights()[i] == a.weights[i]@);
    }
    assert forall|i: int| 0 <= i < a.spec_layers().len() - 1 implies has_shape(
        #[trigger] a.spec_biases()[i],
        a.spec_layers()[i + 1] as nat,
        1,
    ) by {
        assert(a.spec_biases()[i] == a.biases[i]@);
    }
}


/// Training for `e1` epochs and then for `e2` more leaves the same weights
/// and biases as training for `e1 + e2` epochs at once.
pub proof fn lemma_epochs_compose<T, A: Fn(T, T) -> T, S: Fn(T, T) -> T, M: Fn(T, T) -> T, F: Fn(
    T,
) -> T, D: Fn(T) -> T>(
    layers: Seq<usize>,
    params: (Seq<Seq<Seq<T>>>, Seq<Seq<Seq<T>>>),
    lr: T,
    inputs: Seq<Seq<T>>,
    targets: Seq<Seq<T>>,
    e1: nat,
    e2: nat,
    arith: Arithmetic<T, A, S, M>,
    act: Activation<F, D>,
)
    ensures
        run_epochs(
            layers,
            run_epochs(layers, params, lr, inputs, targets, e1, arith, act),
            lr,
            inputs,
            targets,
            e2,
            arith,
            act,
        ) == run_epochs(layers, params, lr, inputs, targets, e1 + e2, arith, act),
    decreases e2,
{
    if e2 > 0 {
        lemma_epochs_compose(layers, params, lr, inputs, targets, e1, (e2 - 1) as nat, arith, act);
        assert((e1 + e2 - 1) as nat == e1 + (e2 - 1) as nat);
    }
}

} // verus!
