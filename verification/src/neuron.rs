//! The neuron (perceptron): structure, random initialization, and the
//! forward computation.
//!
//! A neuron either reads the raw input vector directly (no upstream
//! neurons) or reads the outputs of its upstream neurons, each of which
//! recursively receives the same raw input vector. Contracts are stated
//! over [`NeuronModel`], the mathematical model of a neuron: its weights
//! and bias as integers (in millionths), its activation choice, and the
//! models of its upstream neurons.

use vstd::prelude::*;
use crate::fixed::{SCALE, ints_of, fx_add_spec, fx_mul_spec, fx_add, fx_mul};
use crate::netmath::Activation;
use crate::utils::randomize;

verus! {

/// The mathematical model of a neuron: what the forward computation and
/// the training contracts are stated over.
#[verifier::ext_equal]
pub struct NeuronModel {
    /// The connection weights, in millionths.
    pub weights: Seq<int>,
    /// The bias, in millionths.
    pub bias: int,
    /// The activation applied to the weighted sum plus bias.
    pub act_func: Activation,
    /// Models of the upstream neurons; empty when the neuron reads the
    /// raw input vector directly.
    pub upstream: Seq<NeuronModel>,
}

/// A neuron: weights, bias, an activation function, and optionally a
/// list of upstream neurons whose outputs it consumes.
pub struct Neuron {
    /// One weight per input connection.
    pub weights: Vec<i64>,
    /// Number of input connections.
    pub n_connections: u32,
    /// Offset added to the weighted sum.
    pub bias: i64,
    /// Upstream neurons; empty when this neuron reads raw features.
    pub con_neurons: Vec<Neuron>,
    /// Activation function applied to the weighted sum plus bias.
    pub act_func: Activation,
}

/// The models of a sequence of neurons, in order.
pub open spec fn models_of(s: Seq<Neuron>) -> Seq<NeuronModel>
    decreases s,
{
    if s.len() == 0 {
        Seq::empty()
    } else {
        models_of(s.drop_last()).push(s.last().model())
    }
}

/// The saturating weighted sum of the first `k` connections of `m` on
/// input `x`: term `i` is the product of weight `i` with either raw
/// input `i` or the output of upstream neuron `i`.
pub open spec fn partial_sum(m: NeuronModel, x: Seq<int>, k: int) -> int
    decreases m, k,
{
    if k <= 0 {
        0
    } else {
        let input = if m.upstream.len() == 0 {
            x[k - 1]
        } else if k <= m.upstream.len() {
            out_spec(m.upstream[k - 1], x)
        } else {
            0
        };
        fx_add_spec(partial_sum(m, x, k - 1), fx_mul_spec(input, m.weights[k - 1]))
    }
}

/// The forward computation of a neuron model: the activation applied to
/// the weighted sum of all connections plus the bias.
pub open spec fn out_spec(m: NeuronModel, x: Seq<int>) -> int
    decreases m, m.weights.len() + 1,
{
    m.act_func.apply_spec(fx_add_spec(partial_sum(m, x, m.weights.len() as int), m.bias))
}

impl Neuron {
    /// The mathematical model of this neuron.
    pub open spec fn model(self) -> NeuronModel
        decreases self,
    {
        NeuronModel {
            weights: ints_of(self.weights@),
            bias: self.bias as int,
            act_func: self.act_func,
            upstream: models_of(self.con_neurons@),
        }
    }

    /// Well-formedness: the weight count matches the connection count,
    /// and the upstream list is either empty or has exactly one neuron
    /// per connection, each well-formed in turn.
    pub open spec fn wf(self) -> bool
        decreases self,
    {
        &&& self.weights@.len() == self.n_connections
        &&& (self.con_neurons@.len() == 0 || self.con_neurons@.len() == self.n_connections)
        &&& (forall|i: int|
            0 <= i < self.con_neurons@.len() ==> (#[trigger] self.con_neurons@[i]).wf())
    }

    /// Whether an input vector of length `len` is long enough for this
    /// neuron: every neuron that reads raw features directly - this one
    /// if it has no upstream neurons, otherwise the leaves below it -
    /// must find all its connections in the input vector.
    pub open spec fn reads_within(self, len: int) -> bool
        decreases self,
    {
        if self.con_neurons@.len() == 0 {
            self.n_connections <= len
        } else {
            forall|i: int|
                0 <= i < self.con_neurons@.len() ==> (#[trigger] self.con_neurons@[i]).reads_within(
                    len)
        }
    }
}

/// Structural equality of two neurons: equal parameters, equal
/// connection counts, and structurally equal upstream neurons. Two
/// structurally equal neurons are indistinguishable to every function of
/// this library, but are separately owned values.
pub open spec fn deep_eq(a: Neuron, b: Neuron) -> bool
    decreases a,
{
    &&& a.weights@ == b.weights@
    &&& a.n_connections == b.n_connections
    &&& a.bias == b.bias
    &&& a.act_func == b.act_func
    &&& a.con_neurons@.len() == b.con_neurons@.len()
    &&& (forall|i: int|
        0 <= i < a.con_neurons@.len() ==> deep_eq(
            #[trigger] a.con_neurons@[i],
            b.con_neurons@[i],
        ))
}

/// Structural equality is symmetric.
pub proof fn lemma_deep_eq_symmetric(a: Neuron, b: Neuron)
    requires
        deep_eq(a, b),
    ensures
        deep_eq(b, a),
    decreases a,
{
    assert forall|i: int| 0 <= i < b.con_neurons@.len() implies deep_eq(
        #[trigger] b.con_neurons@[i],
        a.con_neurons@[i],
    ) by {
        lemma_deep_eq_symmetric(a.con_neurons@[i], b.con_neurons@[i]);
    }
}

/// Structurally equal neurons have the same model.
pub proof fn lemma_deep_eq_model(a: Neuron, b: Neuron)
    requires
        deep_eq(a, b),
    ensures
        a.model() == b.model(),
    decreases a,
{
    assert forall|i: int| 0 <= i < a.con_neurons@.len() implies (
    #[trigger] a.con_neurons@[i]).model() == b.con_neurons@[i].model() by {
        lemma_deep_eq_model(a.con_neurons@[i], b.con_neurons@[i]);
    }
    lemma_models_of_seq_eq(a.con_neurons@, b.con_neurons@);
    assert(a.model() =~= b.model());
}

/// Structural equality preserves well-formedness.
pub proof fn lemma_deep_eq_wf(a: Neuron, b: Neuron)
    requires
        deep_eq(a, b),
        a.wf(),
    ensures
        b.wf(),
    decreases a,
{
    assert forall|i: int| 0 <= i < b.con_neurons@.len() implies (
    #[trigger] b.con_neurons@[i]).wf() by {
        lemma_deep_eq_wf(a.con_neurons@[i], b.con_neurons@[i]);
    }
}

/// A sequence of neuron models is indexed by the models of the neurons.
pub proof fn lemma_models_of_index(s: Seq<Neuron>, i: int)
    requires
        0 <= i < s.len(),
    ensures
        models_of(s).len() == s.len(),
        models_of(s)[i] == s[i].model(),
    decreases s.len(),
{
    lemma_models_of_len(s);
    if i < s.len() - 1 {
        lemma_models_of_index(s.drop_last(), i);
    }
}

/// Taking models preserves the length.
pub proof fn lemma_models_of_len(s: Seq<Neuron>)
    ensures
        models_of(s).len() == s.len(),
    decreases s.len(),
{
    if s.len() > 0 {
        lemma_models_of_len(s.drop_last());
    }
}

impl Neuron {
    /// Compute the neuron's output for the input vector `x`.
    ///
    /// The result is exactly the forward computation of the neuron's
    /// model: in particular it depends only on the neuron's parameters
    /// and the input, so repeated calls return identical values.
    pub fn compute_out(&self, x: &Vec<i64>) -> (r: i64)
        requires
            self.wf(),
            self.reads_within(x@.len() as int),
        ensures
            r == out_spec(self.model(), ints_of(x@)),
        decreases *self,
    {
        let ghost m = self.model();
        let ghost xm = ints_of(x@);
        proof {
            lemma_models_of_len(self.con_neurons@);
        }
        let mut weighted_sum: i64 = 0;
        let n = self.n_connections as usize;
        if self.con_neurons.len() != 0 {
            let mut i: usize = 0;
            while i < n
                invariant
                    0 <= i <= n,
                    self.wf(),
                    self.reads_within(x@.len() as int),
                    n == self.n_connections,
                    self.con_neurons@.len() == n,
                    m == self.model(),
                    xm == ints_of(x@),
                    weighted_sum == partial_sum(m, xm, i as int),
                decreases n - i,
            {
                proof {
                    lemma_models_of_index(self.con_neurons@, i as int);
                }
                let upstream_out = self.con_neurons[i].compute_out(x);
                weighted_sum = fx_add(weighted_sum, fx_mul(upstream_out, self.weights[i]));
                i = i + 1;
            }
        } else {
            let mut i: usize = 0;
            while i < n
                invariant
                    0 <= i <= n,
                    self.wf(),
                    n == self.n_connections,
                    x@.len() >= n,
                    self.con_neurons@.len() == 0,
                    m == self.model(),
                    xm == ints_of(x@),
                    weighted_sum == partial_sum(m, xm, i as int),
                decreases n - i,
            {
                weighted_sum = fx_add(weighted_sum, fx_mul(x[i], self.weights[i]));
                i = i + 1;
            }
        }
        let pre_activation = fx_add(weighted_sum, self.bias);
        self.act_func.apply(pre_activation)
    }

    /// Create a neuron with the given activation, connection count and
    /// upstream neurons, with weights and bias initialized to random
    /// values in the open interval `(-1, 1)`.
    pub fn new(act_func: Activation, n_connections: u32, con_neurons: Vec<Neuron>) -> (r: Self)
        requires
            con_neurons@.len() == 0 || con_neurons@.len() == n_connections,
            forall|i: int| 0 <= i < con_neurons@.len() ==> (#[trigger] con_neurons@[i]).wf(),
        ensures
            r.wf(),
            r.n_connections == n_connections,
            r.act_func == act_func,
            r.con_neurons@ == con_neurons@,
            r.weights@.len() == n_connections,
            forall|i: int| 0 <= i < n_connections ==> -SCALE < #[trigger] r.weights@[i] < SCALE,
            -SCALE < r.bias < SCALE,
    {
        let mut weights: Vec<i64> = Vec::new();
        let mut i: u32 = 0;
        while i < n_connections
            invariant
                0 <= i <= n_connections,
                weights@.len() == i,
                forall|k: int| 0 <= k < i ==> -SCALE < #[trigger] weights@[k] < SCALE,
            decreases n_connections - i,
        {
            weights.push(randomize(-(SCALE - 1), SCALE));
            i = i + 1;
        }
        Self {
            act_func,
            n_connections,
            weights,
            bias: randomize(-(SCALE - 1), SCALE),
            con_neurons,
        }
    }
}

impl Clone for Neuron {
    /// A clone is an independent, fully-owned snapshot: it has the same
    /// model as the original, and stays well-formed.
    fn clone(&self) -> (r: Self)
        ensures
            deep_eq(r, *self),
            r.model() == self.model(),
            self.wf() ==> r.wf(),
        decreases *self,
    {
        let mut upstream: Vec<Neuron> = Vec::new();
        let mut i: usize = 0;
        while i < self.con_neurons.len()
            invariant
                0 <= i <= self.con_neurons@.len(),
                upstream@.len() == i,
                forall|k: int| 0 <= k < i ==> deep_eq(#[trigger] upstream@[k], self.con_neurons@[k]),
            decreases self.con_neurons@.len() - i,
        {
            let c = self.con_neurons[i].clone();
            upstream.push(c);
            i = i + 1;
        }
        let r = Neuron {
            weights: self.weights.clone(),
            n_connections: self.n_connections,
            bias: self.bias,
            con_neurons: upstream,
            act_func: self.act_func,
        };
        proof {
            assert(r.weights@ =~= self.weights@);
            assert(deep_eq(r, *self));
            lemma_deep_eq_model(r, *self);
            if self.wf() {
                lemma_deep_eq_symmetric(r, *self);
                lemma_deep_eq_wf(*self, r);
            }
        }
        r
    }
}

/// Two neuron sequences whose members have equal models have equal
/// model sequences.
pub proof fn lemma_models_of_seq_eq(a: Seq<Neuron>, b: Seq<Neuron>)
    requires
        a.len() == b.len(),
        forall|k: int| 0 <= k < a.len() ==> (#[trigger] a[k]).model() == b[k].model(),
    ensures
        models_of(a) == models_of(b),
    decreases a.len(),
{
    if a.len() > 0 {
        lemma_models_of_seq_eq(a.drop_last(), b.drop_last());
        assert(models_of(a) =~= models_of(b));
    }
}

/// The forward computation is a pure function of the neuron's model and
/// the input: two computations of the same neuron on the same input
/// yield the same value.
pub proof fn lemma_forward_deterministic(m: NeuronModel, x: Seq<int>, r1: int, r2: int)
    requires
        r1 == out_spec(m, x),
        r2 == out_spec(m, x),
    ensures
        r1 == r2,
{
}

} // verus!
