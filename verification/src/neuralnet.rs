//! Training: aggregate cost, finite-difference gradient estimation,
//! one gradient-descent step, and layered network construction.
//!
//! The gradient of the cost with respect to one parameter is measured,
//! not derived: the parameter is nudged up by a small step `EPS`, the
//! aggregate cost is recomputed, the parameter is restored exactly, and
//! the difference quotient of the two costs estimates the partial
//! derivative. Training applies that estimate to every weight in order
//! and then to the bias, each update using the parameters already
//! updated before it.

use vstd::prelude::*;
use crate::fixed::{
    SCALE, ints_of, fx_add_spec, fx_sub_spec, fx_mul_spec, fx_div_spec, fx_add, fx_sub, fx_mul, fx_div,
};
use crate::netmath::{Activation, mse, mse_spec};
use crate::neuron::{
    Neuron, NeuronModel, out_spec, deep_eq, lemma_deep_eq_symmetric, lemma_deep_eq_wf,
};

verus! {

/// The finite-difference step: one ten-thousandth, in millionths.
pub const EPS: i64 = 100;

/// The learning rate: one thousandth, in millionths.
pub const LEARNING_RATE: i64 = 1000;

/// Which trainable parameter a gradient is estimated for: one weight,
/// identified by its index, or the bias.
#[derive(Clone, Copy)]
pub enum ParamType {
    Weight(usize),
    Bias,
}

/// The input samples as sequences of integers.
pub open spec fn sample_inputs(x: Seq<Vec<i64>>) -> Seq<Seq<int>> {
    x.map_values(|v: Vec<i64>| ints_of(v@))
}

/// The predictions of a neuron model on the first `n` input samples.
pub open spec fn predictions(m: NeuronModel, x: Seq<Seq<int>>, n: int) -> Seq<int>
    decreases n,
{
    if n <= 0 {
        Seq::empty()
    } else {
        predictions(m, x, n - 1).push(out_spec(m, x[n - 1]))
    }
}

/// The aggregate cost of a neuron model on a sample set: the mean
/// squared error between the expected outputs and the model's
/// predictions.
pub open spec fn cost_spec(m: NeuronModel, x: Seq<Seq<int>>, y: Seq<int>, n: int) -> int
    recommends
        0 < n,
        n <= x.len(),
        n <= y.len(),
{
    mse_spec(y, predictions(m, x, n), n)
}

/// The model with the given parameter nudged up by `eps`.
pub open spec fn perturbed(m: NeuronModel, param: ParamType, eps: int) -> NeuronModel {
    match param {
        ParamType::Weight(i) => NeuronModel {
            weights: m.weights.update(i as int, fx_add_spec(m.weights[i as int], eps)),
            ..m
        },
        ParamType::Bias => NeuronModel { bias: fx_add_spec(m.bias, eps), ..m },
    }
}

/// The finite-difference gradient estimate: the difference between the
/// cost at the nudged parameter and the cost at the current parameter,
/// divided by the step.
pub open spec fn gradient_spec(
    m: NeuronModel,
    x: Seq<Seq<int>>,
    y: Seq<int>,
    param: ParamType,
    n: int,
) -> int {
    fx_div_spec(
        fx_sub_spec(cost_spec(perturbed(m, param, EPS as int), x, y, n), cost_spec(m, x, y, n)),
        EPS as int,
    )
}

/// `predictions` has as many entries as samples.
pub proof fn lemma_predictions_len(m: NeuronModel, x: Seq<Seq<int>>, n: int)
    ensures
        predictions(m, x, n).len() == (if n <= 0 { 0int } else { n }),
    decreases n,
{
    if n > 0 {
        lemma_predictions_len(m, x, n - 1);
    }
}

/// Compute the aggregate cost of the neuron on the first `sample_size`
/// samples: the mean squared error between the expected outputs `y` and
/// the neuron's predictions on the input vectors `x`.
pub fn compute_cost(neuron: &Neuron, x: &Vec<Vec<i64>>, y: &[i64], sample_size: usize) -> (r: i64)
    requires
        neuron.wf(),
        0 < sample_size,
        sample_size <= x@.len(),
        sample_size <= y@.len(),
        forall|i: int| 0 <= i < sample_size ==> neuron.reads_within((#[trigger] x@[i])@.len() as int),
    ensures
        r == cost_spec(neuron.model(), sample_inputs(x@), ints_of(y@), sample_size as int),
{
    let ghost m = neuron.model();
    let ghost xs = sample_inputs(x@);
    let mut out_pred: Vec<i64> = Vec::new();
    let mut i: usize = 0;
    while i < sample_size
        invariant
            0 <= i <= sample_size,
            neuron.wf(),
            sample_size <= x@.len(),
            forall|k: int|
                0 <= k < sample_size ==> neuron.reads_within((#[trigger] x@[k])@.len() as int),
            m == neuron.model(),
            xs == sample_inputs(x@),
            out_pred@.len() == i,
            ints_of(out_pred@) == predictions(m, xs, i as int),
        decreases sample_size - i,
    {
        let p = neuron.compute_out(&x[i]);
        out_pred.push(p);
        proof {
            assert(xs[i as int] == ints_of(x@[i as int]@));
            assert(ints_of(out_pred@) =~= predictions(m, xs, i + 1));
        }
        i = i + 1;
    }
    proof {
        lemma_predictions_len(m, xs, sample_size as int);
    }
    mse(y, out_pred.as_slice(), sample_size)
}

/// Estimate the gradient of the aggregate cost with respect to one
/// parameter by finite differences, leaving the neuron exactly as it
/// was: the parameter is nudged, the cost measured, the parameter
/// restored, and the baseline cost measured again.
pub fn compute_gradient(
    neuron: &mut Neuron,
    x: &Vec<Vec<i64>>,
    y: &[i64],
    param: ParamType,
    sample_size: usize,
) -> (g: i64)
    requires
        old(neuron).wf(),
        0 < sample_size,
        sample_size <= x@.len(),
        sample_size <= y@.len(),
        forall|i: int|
            0 <= i < sample_size ==> old(neuron).reads_within((#[trigger] x@[i])@.len() as int),
        (match param {
            ParamType::Weight(i) => i < old(neuron).n_connections,
            ParamType::Bias => true,
        }),
    ensures
        final(neuron).model() == old(neuron).model(),
        final(neuron).weights@ == old(neuron).weights@,
        final(neuron).bias == old(neuron).bias,
        final(neuron).act_func == old(neuron).act_func,
        final(neuron).n_connections == old(neuron).n_connections,
        final(neuron).con_neurons == old(neuron).con_neurons,
        final(neuron).wf(),
        g == gradient_spec(
            old(neuron).model(),
            sample_inputs(x@),
            ints_of(y@),
            param,
            sample_size as int,
        ),
{
    let ghost m0 = old(neuron).model();
    let ghost xs = sample_inputs(x@);
    let ghost ys = ints_of(y@);
    // Nudge the parameter up by the finite-difference step.
    match param {
        ParamType::Weight(i) => {
            let saved = neuron.weights[i];
            let nudged = fx_add(saved, EPS);
            neuron.weights.set(i, nudged);
            proof {
                assert(ints_of(neuron.weights@) =~= m0.weights.update(
                    i as int,
                    fx_add_spec(m0.weights[i as int], EPS as int),
                ));
                assert(neuron.model() =~= perturbed(m0, param, EPS as int));
            }
            let variation_cost = compute_cost(neuron, x, y, sample_size);
            // Restore the parameter to its exact original value.
            neuron.weights.set(i, saved);
            proof {
                assert(neuron.weights@ =~= old(neuron).weights@);
                assert(neuron.model() =~= m0);
            }
            let normal_cost = compute_cost(neuron, x, y, sample_size);
            fx_div(fx_sub(variation_cost, normal_cost), EPS)
        },
        ParamType::Bias => {
            let saved = neuron.bias;
            neuron.bias = fx_add(saved, EPS);
            proof {
                assert(neuron.model() =~= perturbed(m0, param, EPS as int));
            }
            let variation_cost = compute_cost(neuron, x, y, sample_size);
            // Restore the parameter to its exact original value.
            neuron.bias = saved;
            proof {
                assert(neuron.model() =~= m0);
            }
            let normal_cost = compute_cost(neuron, x, y, sample_size);
            fx_div(fx_sub(variation_cost, normal_cost), EPS)
        },
    }
}

/// The model after one gradient-descent update of weight `j`: the
/// estimated gradient at the current model, scaled by the learning
/// rate, is subtracted from that weight.
pub open spec fn weight_step(
    m: NeuronModel,
    x: Seq<Seq<int>>,
    y: Seq<int>,
    n: int,
    j: int,
) -> NeuronModel {
    let g = gradient_spec(m, x, y, ParamType::Weight(j as usize), n);
    NeuronModel {
        weights: m.weights.update(j, fx_sub_spec(m.weights[j], fx_mul_spec(LEARNING_RATE as int, g))),
        ..m
    }
}

/// The model after the first `k` weights have been updated in order,
/// each update seeing the effect of the updates before it.
pub open spec fn weights_trained(
    m: NeuronModel,
    x: Seq<Seq<int>>,
    y: Seq<int>,
    n: int,
    k: int,
) -> NeuronModel
    decreases k,
{
    if k <= 0 {
        m
    } else {
        weight_step(weights_trained(m, x, y, n, k - 1), x, y, n, k - 1)
    }
}

/// The model after one full training step: every weight updated in
/// index order, then the bias, the bias update seeing all the new
/// weights.
pub open spec fn train_spec(m: NeuronModel, x: Seq<Seq<int>>, y: Seq<int>, n: int) -> NeuronModel {
    let mw = weights_trained(m, x, y, n, m.weights.len() as int);
    let g = gradient_spec(mw, x, y, ParamType::Bias, n);
    NeuronModel { bias: fx_sub_spec(mw.bias, fx_mul_spec(LEARNING_RATE as int, g)), ..mw }
}

/// Perform exactly one gradient-descent step on the neuron: for each
/// weight in index order, estimate its gradient and subtract the scaled
/// estimate; then do the same for the bias.
pub fn train(neuron: &mut Neuron, x: &Vec<Vec<i64>>, y: &[i64], sample_size: usize)
    requires
        old(neuron).wf(),
        0 < sample_size,
        sample_size <= x@.len(),
        sample_size <= y@.len(),
        forall|i: int|
            0 <= i < sample_size ==> old(neuron).reads_within((#[trigger] x@[i])@.len() as int),
    ensures
        final(neuron).model() == train_spec(
            old(neuron).model(),
            sample_inputs(x@),
            ints_of(y@),
            sample_size as int,
        ),
        final(neuron).wf(),
        final(neuron).n_connections == old(neuron).n_connections,
        final(neuron).con_neurons == old(neuron).con_neurons,
{
    let ghost m0 = old(neuron).model();
    let ghost xs = sample_inputs(x@);
    let ghost ys = ints_of(y@);
    let n = neuron.n_connections as usize;
    let mut i: usize = 0;
    while i < n
        invariant
            0 <= i <= n,
            neuron.wf(),
            n == neuron.n_connections,
            neuron.n_connections == old(neuron).n_connections,
            neuron.con_neurons == old(neuron).con_neurons,
            0 < sample_size,
            sample_size <= x@.len(),
            sample_size <= y@.len(),
            forall|k: int|
                0 <= k < sample_size ==> old(neuron).reads_within((#[trigger] x@[k])@.len() as int),
            m0 == old(neuron).model(),
            xs == sample_inputs(x@),
            ys == ints_of(y@),
            m0.weights.len() == n,
            neuron.model() == weights_trained(m0, xs, ys, sample_size as int, i as int),
        decreases n - i,
    {
        let ghost m_before = neuron.model();
        proof {
            assert forall|k: int| 0 <= k < sample_size implies neuron.reads_within(
                (#[trigger] x@[k])@.len() as int,
            ) by {
                lemma_reads_within_same_shape(*old(neuron), *neuron, x@[k]@.len() as int);
            }
        }
        let gradient = compute_gradient(neuron, x, y, ParamType::Weight(i), sample_size);
        let w = neuron.weights[i];
        neuron.weights.set(i, fx_sub(w, fx_mul(LEARNING_RATE, gradient)));
        proof {
            assert(ints_of(neuron.weights@) =~= weight_step(
                m_before,
                xs,
                ys,
                sample_size as int,
                i as int,
            ).weights);
            assert(neuron.model() =~= weights_trained(m0, xs, ys, sample_size as int, i + 1));
        }
        i = i + 1;
    }
    proof {
        assert forall|k: int| 0 <= k < sample_size implies neuron.reads_within(
            (#[trigger] x@[k])@.len() as int,
        ) by {
            lemma_reads_within_same_shape(*old(neuron), *neuron, x@[k]@.len() as int);
        }
    }
    let gradient = compute_gradient(neuron, x, y, ParamType::Bias, sample_size);
    neuron.bias = fx_sub(neuron.bias, fx_mul(LEARNING_RATE, gradient));
    proof {
        assert(neuron.model() =~= train_spec(m0, xs, ys, sample_size as int));
    }
}

/// Whether an input vector is long enough for a neuron depends only on
/// its connection count and its upstream neurons, not on its weights or
/// bias.
proof fn lemma_reads_within_same_shape(a: Neuron, b: Neuron, len: int)
    requires
        a.con_neurons == b.con_neurons,
        a.n_connections == b.n_connections,
        a.reads_within(len),
    ensures
        b.reads_within(len),
{
}

/// A multi-layer network: the output-layer neurons, each owning a full
/// copy of the previous layer as its upstream neurons.
pub struct Net {
    /// The final layer's neurons.
    pub out_neurons: Vec<Neuron>,
    /// Number of output neurons.
    pub n_out: u16,
    /// Activation used by every non-final layer.
    pub int_act_func: Activation,
    /// Activation used by the final layer.
    pub out_act_func: Activation,
}

/// A freshly built neuron of layer `k` (layers are numbered from 1) of
/// a network with the given layer widths: well-formed, one connection
/// per neuron of layer `k - 1`, randomly initialized parameters in the
/// open interval `(-1, 1)`, the hidden activation everywhere but the
/// final layer, and upstream neurons built the same way.
pub open spec fn layer_built(
    n: Neuron,
    layers: Seq<u16>,
    k: int,
    int_act: Activation,
    out_act: Activation,
) -> bool
    decreases k,
{
    &&& n.wf()
    &&& 1 <= k < layers.len()
    &&& n.n_connections == layers[k - 1] as u32
    &&& n.act_func == (if k < layers.len() - 1 {
        int_act
    } else {
        out_act
    })
    &&& (forall|w: int| 0 <= w < n.weights@.len() ==> -SCALE < #[trigger] n.weights@[w] < SCALE)
    &&& -SCALE < n.bias < SCALE
    &&& (if k <= 1 {
        n.con_neurons@.len() == 0
    } else {
        &&& n.con_neurons@.len() == layers[k - 1] as int
        &&& (forall|j: int|
            0 <= j < n.con_neurons@.len() ==> layer_built(
                #[trigger] n.con_neurons@[j],
                layers,
                k - 1,
                int_act,
                out_act,
            ))
    })
}

/// Structurally equal neurons are built alike.
proof fn lemma_deep_eq_layer_built(
    a: Neuron,
    b: Neuron,
    layers: Seq<u16>,
    k: int,
    int_act: Activation,
    out_act: Activation,
)
    requires
        deep_eq(a, b),
        layer_built(a, layers, k, int_act, out_act),
    ensures
        layer_built(b, layers, k, int_act, out_act),
    decreases a,
{
    lemma_deep_eq_wf(a, b);
    if k > 1 {
        assert forall|j: int| 0 <= j < b.con_neurons@.len() implies layer_built(
            #[trigger] b.con_neurons@[j],
            layers,
            k - 1,
            int_act,
            out_act,
        ) by {
            lemma_deep_eq_layer_built(
                a.con_neurons@[j],
                b.con_neurons@[j],
                layers,
                k - 1,
                int_act,
                out_act,
            );
        }
    }
}

impl Net {
    /// Build a multi-layer network from a list of layer widths: the
    /// first entry is the input width, the last the output width. Each
    /// layer's neurons are wired to a full owned copy of the previous
    /// layer; the final layer uses `out_act_func`, every other layer
    /// `int_act_func`.
    pub fn new(layers: Vec<u16>, int_act_func: Activation, out_act_func: Activation) -> (r: Self)
        requires
            layers@.len() >= 2,
        ensures
            r.int_act_func == int_act_func,
            r.out_act_func == out_act_func,
            r.n_out == layers@[layers@.len() - 1],
            r.out_neurons@.len() == layers@[layers@.len() - 1] as int,
            forall|j: int|
                0 <= j < r.out_neurons@.len() ==> layer_built(
                    #[trigger] r.out_neurons@[j],
                    layers@,
                    layers@.len() - 1,
                    int_act_func,
                    out_act_func,
                ),
    {
        let n_layers = layers.len();
        let mut prev_layer: Vec<Neuron> = Vec::new();
        let n_out = layers[n_layers - 1];
        let mut i: usize = 1;
        while i < n_layers
            invariant
                1 <= i <= n_layers,
                n_layers == layers@.len(),
                n_layers >= 2,
                prev_layer@.len() == (if i == 1 {
                    0int
                } else {
                    layers@[i - 1] as int
                }),
                forall|j: int|
                    0 <= j < prev_layer@.len() ==> layer_built(
                        #[trigger] prev_layer@[j],
                        layers@,
                        i - 1,
                        int_act_func,
                        out_act_func,
                    ),
            decreases n_layers - i,
        {
            let n_connections = layers[i - 1];
            let n_neurons = layers[i] as usize;
            let mut curr_layer: Vec<Neuron> = Vec::new();
            let mut j: usize = 0;
            while j < n_neurons
                invariant
                    0 <= j <= n_neurons,
                    1 <= i < n_layers,
                    n_layers == layers@.len(),
                    n_layers >= 2,
                    n_connections == layers@[i - 1],
                    n_neurons == layers@[i as int] as usize,
                    prev_layer@.len() == (if i == 1 {
                        0int
                    } else {
                        layers@[i - 1] as int
                    }),
                    forall|p: int|
                        0 <= p < prev_layer@.len() ==> layer_built(
                            #[trigger] prev_layer@[p],
                            layers@,
                            i - 1,
                            int_act_func,
                            out_act_func,
                        ),
                    curr_layer@.len() == j,
                    forall|p: int|
                        0 <= p < curr_layer@.len() ==> layer_built(
                            #[trigger] curr_layer@[p],
                            layers@,
                            i as int,
                            int_act_func,
                            out_act_func,
                        ),
                decreases n_neurons - j,
            {
                let act = if i < n_layers - 1 {
                    int_act_func
                } else {
                    out_act_func
                };
                let upstream = clone_layer(&prev_layer);
                proof {
                    assert forall|p: int| 0 <= p < upstream@.len() implies (
                    #[trigger] upstream@[p]).wf() && layer_built(
                        upstream@[p],
                        layers@,
                        i - 1,
                        int_act_func,
                        out_act_func,
                    ) by {
                        lemma_deep_eq_symmetric(upstream@[p], prev_layer@[p]);
                        lemma_deep_eq_layer_built(
                            prev_layer@[p],
                            upstream@[p],
                            layers@,
                            i - 1,
                            int_act_func,
                            out_act_func,
                        );
                    }
                }
                let neuron = Neuron::new(act, n_connections as u32, upstream);
                curr_layer.push(neuron);
                j = j + 1;
            }
            prev_layer = curr_layer;
            i = i + 1;
        }
        Net { out_neurons: prev_layer, n_out, int_act_func, out_act_func }
    }
}

/// Clone every neuron of a layer, in order.
fn clone_layer(layer: &Vec<Neuron>) -> (r: Vec<Neuron>)
    ensures
        r@.len() == layer@.len(),
        forall|p: int| 0 <= p < layer@.len() ==> deep_eq(#[trigger] r@[p], layer@[p]),
{
    let mut r: Vec<Neuron> = Vec::new();
    let mut i: usize = 0;
    while i < layer.len()
        invariant
            0 <= i <= layer@.len(),
            r@.len() == i,
            forall|p: int| 0 <= p < i ==> deep_eq(#[trigger] r@[p], layer@[p]),
        decreases layer@.len() - i,
    {
        r.push(layer[i].clone());
        i = i + 1;
    }
    r
}

} // verus!
