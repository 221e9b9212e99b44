//! The mathematical model of the network. Each executable structure has a
//! view here made of sequences of scalar bit patterns, and every public
//! operation of the engine is specified as a transition function on this
//! model: forward propagation, backpropagation, the gradient lifecycle,
//! scoring, construction from a seed, and snapshots.

use vstd::prelude::*;
use crate::act::{Activation, act_of, act_deriv_of};
use crate::fp;
use crate::rng;

verus! {

/// One layer: activation, pre-activation, error signal, bias, and bias
/// gradient, one scalar per neuron.
#[verifier::ext_equal]
pub struct LayerModel {
    pub a: Seq<u32>,
    pub z: Seq<u32>,
    pub e: Seq<u32>,
    pub b: Seq<u32>,
    pub gb: Seq<u32>,
}

/// One connection: the dense weight matrix between two adjacent layers and
/// its gradient accumulator, row `i` holding the incoming weights of neuron
/// `i` of the later layer.
#[verifier::ext_equal]
pub struct ConnModel {
    pub w: Seq<Seq<u32>>,
    pub gw: Seq<Seq<u32>>,
}

/// The whole network: the selected activation, its layers in order, and
/// the connection between each adjacent pair.
#[verifier::ext_equal]
pub struct NetModel {
    pub act: Activation,
    pub layers: Seq<LayerModel>,
    pub conns: Seq<ConnModel>,
}

/// An (input, output) pair of scalar vectors.
#[verifier::ext_equal]
pub struct SampleModel {
    pub input: Seq<u32>,
    pub output: Seq<u32>,
}

impl LayerModel {
    /// All five per-neuron vectors have the layer's length.
    pub open spec fn wf(self) -> bool {
        self.z.len() == self.a.len()
        && self.e.len() == self.a.len()
        && self.b.len() == self.a.len()
        && self.gb.len() == self.a.len()
    }
}

impl ConnModel {
    /// Both matrices are dense with the given shape.
    pub open spec fn wf(self, rows: nat, cols: nat) -> bool {
        self.w.len() == rows
        && self.gw.len() == rows
        && (forall|i: int| 0 <= i < rows ==> (#[trigger] self.w[i]).len() == cols)
        && (forall|i: int| 0 <= i < rows ==> (#[trigger] self.gw[i]).len() == cols)
    }
}

impl NetModel {
    /// The neuron count of layer `l`.
    pub open spec fn size(self, l: int) -> nat {
        self.layers[l].a.len()
    }

    /// At least two layers, one connection per adjacent pair, every layer
    /// and connection dense with matching shapes.
    pub open spec fn wf(self) -> bool {
        self.layers.len() >= 2
        && self.conns.len() + 1 == self.layers.len()
        && (forall|l: int| 0 <= l < self.layers.len() ==> (#[trigger] self.layers[l]).wf())
        && (forall|c: int| 0 <= c < self.conns.len()
            ==> (#[trigger] self.conns[c]).wf(self.size(c + 1), self.size(c)))
    }
}

/// A sequence of `n` zero scalars.
pub open spec fn zeros(n: nat) -> Seq<u32> {
    Seq::new(n, |i: int| fp::POS_ZERO)
}

/// The left-to-right partial dot product of the first `n` entries,
/// accumulated from +0.0.
pub open spec fn dot_prefix(w: Seq<u32>, a: Seq<u32>, n: int) -> u32
    decreases n,
{
    if n <= 0 {
        fp::POS_ZERO
    } else {
        fp::add_bits_of(dot_prefix(w, a, n - 1), fp::mul_bits_of(w[n - 1], a[n - 1]))
    }
}

/// The dot product of a weight row with an activation vector.
pub open spec fn dot_of(w: Seq<u32>, a: Seq<u32>) -> u32 {
    dot_prefix(w, a, w.len() as int)
}

/// The affine map w·a + b, one dot product plus bias per row.
pub open spec fn affine_of(w: Seq<Seq<u32>>, a: Seq<u32>, b: Seq<u32>) -> Seq<u32> {
    Seq::new(w.len(), |i: int| fp::add_bits_of(dot_of(w[i], a), b[i]))
}

/// The activation applied elementwise.
pub open spec fn act_seq(f: Activation, z: Seq<u32>) -> Seq<u32> {
    Seq::new(z.len(), |i: int| act_of(f, z[i]))
}

/// Elementwise product of a vector with the activation derivative of a
/// pre-activation vector.
pub open spec fn hadamard_actd(f: Activation, v: Seq<u32>, z: Seq<u32>) -> Seq<u32> {
    Seq::new(v.len(), |i: int| fp::mul_bits_of(v[i], act_deriv_of(f, z[i])))
}

/// Elementwise difference.
pub open spec fn sub_seq(a: Seq<u32>, y: Seq<u32>) -> Seq<u32> {
    Seq::new(a.len(), |i: int| fp::sub_bits_of(a[i], y[i]))
}

/// Elementwise sum.
pub open spec fn add_seq(a: Seq<u32>, b: Seq<u32>) -> Seq<u32> {
    Seq::new(a.len(), |i: int| fp::add_bits_of(a[i], b[i]))
}

/// The partial column sum of the transposed matrix-vector product: the
/// first `n` terms of column `j` of wᵗ·e.
pub open spec fn tmatvec_prefix(w: Seq<Seq<u32>>, e: Seq<u32>, j: int, n: int) -> u32
    decreases n,
{
    if n <= 0 {
        fp::POS_ZERO
    } else {
        fp::add_bits_of(tmatvec_prefix(w, e, j, n - 1), fp::mul_bits_of(w[n - 1][j], e[n - 1]))
    }
}

/// The transposed matrix-vector product wᵗ·e, with `cols` entries.
pub open spec fn tmatvec(w: Seq<Seq<u32>>, e: Seq<u32>, cols: nat) -> Seq<u32> {
    Seq::new(cols, |j: int| tmatvec_prefix(w, e, j, w.len() as int))
}

/// A gradient matrix with the outer product e·aᵗ accumulated into it.
pub open spec fn outer_acc(gw: Seq<Seq<u32>>, e: Seq<u32>, a: Seq<u32>) -> Seq<Seq<u32>> {
    Seq::new(
        gw.len(),
        |i: int| Seq::new(
            gw[i].len(),
            |j: int| fp::add_bits_of(gw[i][j], fp::mul_bits_of(e[i], a[j])),
        ),
    )
}

/// A parameter vector stepped against its gradient: b - g·rate,
/// elementwise.
pub open spec fn apply_vec(b: Seq<u32>, g: Seq<u32>, rate: u32) -> Seq<u32> {
    Seq::new(b.len(), |i: int| fp::sub_bits_of(b[i], fp::mul_bits_of(g[i], rate)))
}

/// The pre-activation vector of layer `k` (k >= 1) of a forward pass on
/// input `x`.
pub open spec fn fwd_z(m: NetModel, x: Seq<u32>, k: int) -> Seq<u32>
    decreases k, 0int,
{
    if k <= 0 {
        Seq::empty()
    } else {
        affine_of(m.conns[k - 1].w, fwd_a(m, x, k - 1), m.layers[k].b)
    }
}

/// The activation vector of layer `k` of a forward pass on input `x`;
/// layer 0 holds the input itself.
pub open spec fn fwd_a(m: NetModel, x: Seq<u32>, k: int) -> Seq<u32>
    decreases k, 1int,
{
    if k <= 0 {
        x
    } else {
        act_seq(m.act, fwd_z(m, x, k))
    }
}

/// The state after a forward pass: activations and pre-activations follow
/// the layer recurrence in increasing order; error signals, parameters and
/// gradients are untouched, as is the unused pre-activation of layer 0.
pub open spec fn forward_m(m: NetModel, x: Seq<u32>) -> NetModel {
    NetModel {
        act: m.act,
        conns: m.conns,
        layers: Seq::new(
            m.layers.len(),
            |k: int| LayerModel {
                a: fwd_a(m, x, k),
                z: if k == 0 { m.layers[0].z } else { fwd_z(m, x, k) },
                e: m.layers[k].e,
                b: m.layers[k].b,
                gb: m.layers[k].gb,
            },
        ),
    }
}

/// The backpropagated error signal of layer `k` against expected output
/// `y`: at the last layer (a - y) ⊙ σ'(z), below it (wᵗ·e_next) ⊙ σ'(z).
pub open spec fn bp_e(m: NetModel, y: Seq<u32>, k: int) -> Seq<u32>
    decreases m.layers.len() - k,
{
    let last = m.layers.len() - 1;
    if k >= last {
        hadamard_actd(m.act, sub_seq(m.layers[last].a, y), m.layers[last].z)
    } else {
        hadamard_actd(
            m.act,
            tmatvec(m.conns[k].w, bp_e(m, y, k + 1), m.layers[k].a.len()),
            m.layers[k].z,
        )
    }
}

/// The state after a backward pass: every layer's error signal is set to
/// the backpropagated term, the weight gradient of each connection
/// accumulates the outer product of the later layer's error with the
/// earlier layer's activation, and each layer above the input accumulates
/// its error into its bias gradient. Parameters and activations are
/// untouched.
pub open spec fn backprop_m(m: NetModel, y: Seq<u32>) -> NetModel {
    NetModel {
        act: m.act,
        layers: Seq::new(
            m.layers.len(),
            |k: int| LayerModel {
                a: m.layers[k].a,
                z: m.layers[k].z,
                e: bp_e(m, y, k),
                b: m.layers[k].b,
                gb: if k == 0 {
                    m.layers[0].gb
                } else {
                    add_seq(m.layers[k].gb, bp_e(m, y, k))
                },
            },
        ),
        conns: Seq::new(
            m.conns.len(),
            |c: int| ConnModel {
                w: m.conns[c].w,
                gw: outer_acc(m.conns[c].gw, bp_e(m, y, c + 1), m.layers[c].a),
            },
        ),
    }
}

/// The state with every gradient accumulator reset to +0.0.
pub open spec fn clear_m(m: NetModel) -> NetModel {
    NetModel {
        act: m.act,
        layers: Seq::new(
            m.layers.len(),
            |k: int| LayerModel {
                a: m.layers[k].a,
                z: m.layers[k].z,
                e: m.layers[k].e,
                b: m.layers[k].b,
                gb: zeros(m.layers[k].gb.len()),
            },
        ),
        conns: Seq::new(
            m.conns.len(),
            |c: int| ConnModel {
                w: m.conns[c].w,
                gw: Seq::new(m.conns[c].gw.len(), |i: int| zeros(m.conns[c].gw[i].len())),
            },
        ),
    }
}

/// The state after one gradient step at the given (already normalized)
/// rate: every bias and weight moves against its accumulated gradient.
pub open spec fn apply_m(m: NetModel, rate: u32) -> NetModel {
    NetModel {
        act: m.act,
        layers: Seq::new(
            m.layers.len(),
            |k: int| LayerModel {
                a: m.layers[k].a,
                z: m.layers[k].z,
                e: m.layers[k].e,
                b: apply_vec(m.layers[k].b, m.layers[k].gb, rate),
                gb: m.layers[k].gb,
            },
        ),
        conns: Seq::new(
            m.conns.len(),
            |c: int| ConnModel {
                w: Seq::new(
                    m.conns[c].w.len(),
                    |i: int| apply_vec(m.conns[c].w[i], m.conns[c].gw[i], rate),
                ),
                gw: m.conns[c].gw,
            },
        ),
    }
}

/// The running sum of squared differences over the first `n` output
/// entries, accumulated left to right from +0.0.
pub open spec fn mse_fold(y: Seq<u32>, a: Seq<u32>, n: int) -> u32
    decreases n,
{
    if n <= 0 {
        fp::POS_ZERO
    } else {
        let e = fp::sub_bits_of(y[n - 1], a[n - 1]);
        fp::add_bits_of(mse_fold(y, a, n - 1), fp::mul_bits_of(e, e))
    }
}

/// The error of one sample: half the mean squared difference between the
/// final activation of a forward pass on the sample's input and the
/// sample's output.
pub open spec fn error_val(m: NetModel, s: SampleModel) -> u32 {
    let af = fwd_a(m, s.input, m.layers.len() - 1);
    fp::div_bits_of(
        fp::div_bits_of(
            mse_fold(s.output, af, s.output.len() as int),
            fp::from_int_bits_of(s.output.len() as int),
        ),
        fp::TWO_BITS,
    )
}

/// The network state after scoring the first `n` samples: one forward
/// pass per sample, in order.
pub open spec fn score_state(m: NetModel, ss: Seq<SampleModel>, n: int) -> NetModel
    decreases n,
{
    if n <= 0 {
        m
    } else {
        forward_m(score_state(m, ss, n - 1), ss[n - 1].input)
    }
}

/// The running sum of the per-sample errors of the first `n` samples.
pub open spec fn score_total(m: NetModel, ss: Seq<SampleModel>, n: int) -> u32
    decreases n,
{
    if n <= 0 {
        fp::POS_ZERO
    } else {
        fp::add_bits_of(
            score_total(m, ss, n - 1),
            error_val(score_state(m, ss, n - 1), ss[n - 1]),
        )
    }
}

/// The network state after accumulating the first `n` samples of a batch:
/// a forward then a backward pass per sample, in order.
pub open spec fn train_state(m: NetModel, ss: Seq<SampleModel>, n: int) -> NetModel
    decreases n,
{
    if n <= 0 {
        m
    } else {
        backprop_m(forward_m(train_state(m, ss, n - 1), ss[n - 1].input), ss[n - 1].output)
    }
}

/// The random draws consumed by the biases of layers before `l`.
pub open spec fn bias_draws(arch: Seq<usize>, l: int) -> nat
    decreases l,
{
    if l <= 0 {
        0
    } else {
        (bias_draws(arch, l - 1) + arch[l - 1]) as nat
    }
}

/// The random draws consumed by the weights of connections before `c`.
pub open spec fn weight_draws(arch: Seq<usize>, c: int) -> nat
    decreases c,
{
    if c <= 0 {
        0
    } else {
        (weight_draws(arch, c - 1) + arch[c] * arch[c - 1]) as nat
    }
}

/// A freshly built network: zeroed activation, pre-activation, error and
/// gradient state; biases then weights drawn in order from the seeded
/// [-1, 1) stream — biases layer by layer, then each connection's weights
/// row by row.
pub open spec fn build_model(arch: Seq<usize>, f: Activation, seed: u64) -> NetModel {
    let nb = bias_draws(arch, arch.len() as int);
    NetModel {
        act: f,
        layers: Seq::new(
            arch.len(),
            |l: int| LayerModel {
                a: zeros(arch[l] as nat),
                z: zeros(arch[l] as nat),
                e: zeros(arch[l] as nat),
                b: Seq::new(
                    arch[l] as nat,
                    |i: int| rng::unit_at(seed, (bias_draws(arch, l) + i) as nat),
                ),
                gb: zeros(arch[l] as nat),
            },
        ),
        conns: Seq::new(
            (arch.len() - 1) as nat,
            |c: int| ConnModel {
                w: Seq::new(
                    arch[c + 1] as nat,
                    |i: int| Seq::new(
                        arch[c] as nat,
                        |j: int| rng::unit_at(
                            seed,
                            (nb + weight_draws(arch, c) + i * arch[c] + j) as nat,
                        ),
                    ),
                ),
                gw: Seq::new(arch[c + 1] as nat, |i: int| zeros(arch[c] as nat)),
            },
        ),
    }
}

/// Forward vectors have their layer's length.
pub proof fn lemma_fwd_len(m: NetModel, x: Seq<u32>, k: int)
    requires
        m.wf(),
        x.len() == m.size(0),
        0 <= k < m.layers.len(),
    ensures
        fwd_a(m, x, k).len() == m.size(k),
        k >= 1 ==> fwd_z(m, x, k).len() == m.size(k),
    decreases k,
{
    if k >= 1 {
        lemma_fwd_len(m, x, k - 1);
        assert(m.conns[k - 1].wf(m.size(k), m.size(k - 1)));
    }
}

/// A forward pass preserves well-formedness and every layer size.
pub proof fn lemma_forward_m_wf(m: NetModel, x: Seq<u32>)
    requires
        m.wf(),
        x.len() == m.size(0),
    ensures
        forward_m(m, x).wf(),
        forall|l: int| 0 <= l < m.layers.len()
            ==> #[trigger] forward_m(m, x).size(l) == m.size(l),
    decreases m.layers.len(),
{
    assert forall|l: int| 0 <= l < m.layers.len()
        implies #[trigger] forward_m(m, x).size(l) == m.size(l) by {
        lemma_fwd_len(m, x, l);
    }
    assert forall|l: int| 0 <= l < forward_m(m, x).layers.len()
        implies (#[trigger] forward_m(m, x).layers[l]).wf() by {
        lemma_fwd_len(m, x, l);
    }
    assert forall|c: int| 0 <= c < forward_m(m, x).conns.len()
        implies (#[trigger] forward_m(m, x).conns[c]).wf(
            forward_m(m, x).size(c + 1),
            forward_m(m, x).size(c),
        ) by {
        lemma_fwd_len(m, x, c);
        lemma_fwd_len(m, x, c + 1);
    }
}

/// Backpropagated error signals have their layer's length.
pub proof fn lemma_bp_len(m: NetModel, y: Seq<u32>, k: int)
    requires
        m.wf(),
        0 <= k < m.layers.len(),
    ensures
        bp_e(m, y, k).len() == m.size(k),
    decreases m.layers.len() - k,
{
    if k < m.layers.len() - 1 {
        lemma_bp_len(m, y, k + 1);
    }
}

/// A backward pass preserves well-formedness and every layer size.
pub proof fn lemma_backprop_m_wf(m: NetModel, y: Seq<u32>)
    requires
        m.wf(),
    ensures
        backprop_m(m, y).wf(),
        forall|l: int| 0 <= l < m.layers.len()
            ==> #[trigger] backprop_m(m, y).size(l) == m.size(l),
{
    assert forall|l: int| 0 <= l < backprop_m(m, y).layers.len()
        implies (#[trigger] backprop_m(m, y).layers[l]).wf() by {
        lemma_bp_len(m, y, l);
    }
}

/// Clearing the gradients preserves well-formedness and every layer size.
pub proof fn lemma_clear_m_wf(m: NetModel)
    requires
        m.wf(),
    ensures
        clear_m(m).wf(),
        forall|l: int| 0 <= l < m.layers.len() ==> #[trigger] clear_m(m).size(l) == m.size(l),
{
}

/// A gradient step preserves well-formedness and every layer size.
pub proof fn lemma_apply_m_wf(m: NetModel, rate: u32)
    requires
        m.wf(),
    ensures
        apply_m(m, rate).wf(),
        forall|l: int| 0 <= l < m.layers.len()
            ==> #[trigger] apply_m(m, rate).size(l) == m.size(l),
{
}

/// Accumulating a batch preserves well-formedness and every layer size.
pub proof fn lemma_train_state_wf(m: NetModel, ss: Seq<SampleModel>, n: int)
    requires
        m.wf(),
        forall|i: int| 0 <= i < n ==> (#[trigger] ss[i]).input.len() == m.size(0),
    ensures
        train_state(m, ss, n).wf(),
        train_state(m, ss, n).layers.len() == m.layers.len(),
        train_state(m, ss, n).conns.len() == m.conns.len(),
        forall|l: int| 0 <= l < m.layers.len()
            ==> #[trigger] train_state(m, ss, n).size(l) == m.size(l),
    decreases n,
{
    if n > 0 {
        lemma_train_state_wf(m, ss, n - 1);
        let m1 = train_state(m, ss, n - 1);
        lemma_forward_m_wf(m1, ss[n - 1].input);
        let m2 = forward_m(m1, ss[n - 1].input);
        lemma_backprop_m_wf(m2, ss[n - 1].output);
        assert forall|l: int| 0 <= l < m.layers.len()
            implies #[trigger] train_state(m, ss, n).size(l) == m.size(l) by {
            assert(train_state(m, ss, n) == backprop_m(m2, ss[n - 1].output));
            assert(backprop_m(m2, ss[n - 1].output).size(l) == m2.size(l));
            assert(forward_m(m1, ss[n - 1].input).size(l) == m1.size(l));
            assert(m1.size(l) == m.size(l));
        }
    }
}

/// Scoring preserves well-formedness and every layer size.
pub proof fn lemma_score_state_wf(m: NetModel, ss: Seq<SampleModel>, n: int)
    requires
        m.wf(),
        forall|i: int| 0 <= i < n ==> (#[trigger] ss[i]).input.len() == m.size(0),
    ensures
        score_state(m, ss, n).wf(),
        score_state(m, ss, n).layers.len() == m.layers.len(),
        score_state(m, ss, n).conns.len() == m.conns.len(),
        forall|l: int| 0 <= l < m.layers.len()
            ==> #[trigger] score_state(m, ss, n).size(l) == m.size(l),
    decreases n,
{
    if n > 0 {
        lemma_score_state_wf(m, ss, n - 1);
        let m1 = score_state(m, ss, n - 1);
        lemma_forward_m_wf(m1, ss[n - 1].input);
        assert forall|l: int| 0 <= l < m.layers.len()
            implies #[trigger] score_state(m, ss, n).size(l) == m.size(l) by {
            assert(score_state(m, ss, n) == forward_m(m1, ss[n - 1].input));
            assert(forward_m(m1, ss[n - 1].input).size(l) == m1.size(l));
            assert(m1.size(l) == m.size(l));
        }
    }
}

/// A freshly built network is well formed, with the architecture's sizes.
pub proof fn lemma_build_model_wf(arch: Seq<usize>, f: Activation, seed: u64)
    requires
        arch.len() >= 2,
    ensures
        build_model(arch, f, seed).wf(),
        build_model(arch, f, seed).layers.len() == arch.len(),
        forall|l: int| 0 <= l < arch.len()
            ==> #[trigger] build_model(arch, f, seed).size(l) == arch[l],
{
    let m = build_model(arch, f, seed);
    assert forall|c: int| 0 <= c < m.conns.len()
        implies (#[trigger] m.conns[c]).wf(m.size(c + 1), m.size(c)) by {
        assert(m.conns[c].w.len() == arch[c + 1]);
        assert forall|i: int| 0 <= i < m.conns[c].w.len()
            implies (#[trigger] m.conns[c].w[i]).len() == arch[c] by {
        }
        assert forall|i: int| 0 <= i < m.conns[c].gw.len()
            implies (#[trigger] m.conns[c].gw[i]).len() == arch[c] by {
        }
    }
}

/// The biases of every layer, in order.
pub open spec fn biases_of(m: NetModel) -> Seq<Seq<u32>> {
    Seq::new(m.layers.len(), |l: int| m.layers[l].b)
}

/// The weight matrices of every connection, in order.
pub open spec fn weights_of(m: NetModel) -> Seq<Seq<Seq<u32>>> {
    Seq::new(m.conns.len(), |c: int| m.conns[c].w)
}

/// A complete, order-preserving snapshot of what defines a network's
/// behaviour: the architecture, the activation choice, every bias and
/// every weight.
#[verifier::ext_equal]
pub struct SnapModel {
    pub arch: Seq<usize>,
    pub act: Activation,
    pub b: Seq<Seq<u32>>,
    pub w: Seq<Seq<Seq<u32>>>,
}

/// The snapshot of a network.
pub open spec fn snap_of(m: NetModel) -> SnapModel {
    SnapModel {
        arch: Seq::new(m.layers.len(), |l: int| m.layers[l].a.len() as usize),
        act: m.act,
        b: biases_of(m),
        w: weights_of(m),
    }
}

/// Whether a snapshot describes a network: at least two layers, one bias
/// vector per layer and one dense weight matrix per adjacent pair, with
/// matching lengths.
pub open spec fn snap_wf(s: SnapModel) -> bool {
    s.arch.len() >= 2
    && s.b.len() == s.arch.len()
    && s.w.len() + 1 == s.arch.len()
    && (forall|l: int| 0 <= l < s.arch.len() ==> (#[trigger] s.b[l]).len() == s.arch[l])
    && (forall|c: int| 0 <= c < s.w.len() ==> (#[trigger] s.w[c]).len() == s.arch[c + 1])
    && (forall|c: int, i: int| 0 <= c < s.w.len() && 0 <= i < s.w[c].len()
        ==> (#[trigger] s.w[c][i]).len() == s.arch[c])
}

/// The network a snapshot reconstructs: the snapshot's parameters, with
/// zeroed activation, pre-activation, error and gradient state.
pub open spec fn restore_model(s: SnapModel) -> NetModel {
    NetModel {
        act: s.act,
        layers: Seq::new(
            s.arch.len(),
            |l: int| LayerModel {
                a: zeros(s.arch[l] as nat),
                z: zeros(s.arch[l] as nat),
                e: zeros(s.arch[l] as nat),
                b: s.b[l],
                gb: zeros(s.arch[l] as nat),
            },
        ),
        conns: Seq::new(
            s.w.len(),
            |c: int| ConnModel {
                w: s.w[c],
                gw: Seq::new(s.w[c].len(), |i: int| zeros(s.arch[c] as nat)),
            },
        ),
    }
}

/// A well-formed snapshot reconstructs a well-formed network whose sizes
/// are the snapshot's architecture. The bias vectors' lengths, not the
/// architecture entries, give the layer sizes, so nothing here depends on
/// how large the entries are.
pub proof fn lemma_restore_model_wf(s: SnapModel)
    requires
        snap_wf(s),
    ensures
        restore_model(s).wf(),
        restore_model(s).layers.len() == s.arch.len(),
        forall|l: int| 0 <= l < s.arch.len()
            ==> #[trigger] restore_model(s).size(l) == s.b[l].len(),
{
    let m = restore_model(s);
    assert forall|c: int| 0 <= c < m.conns.len()
        implies (#[trigger] m.conns[c]).wf(m.size(c + 1), m.size(c)) by {
        assert(s.w[c].len() == s.arch[c + 1]);
        assert forall|i: int| 0 <= i < m.conns[c].w.len()
            implies (#[trigger] m.conns[c].w[i]).len() == m.size(c) by {
            assert(s.w[c][i].len() == s.arch[c]);
        }
    }
}

/// Every gradient accumulator holds +0.0.
pub open spec fn grads_zero(m: NetModel) -> bool {
    (forall|l: int, i: int|
        0 <= l < m.layers.len() && 0 <= i < m.layers[l].gb.len()
            ==> #[trigger] m.layers[l].gb[i] == fp::POS_ZERO)
    && (forall|c: int, i: int, j: int|
        0 <= c < m.conns.len() && 0 <= i < m.conns[c].gw.len()
            && 0 <= j < m.conns[c].gw[i].len()
            ==> #[trigger] m.conns[c].gw[i][j] == fp::POS_ZERO)
}

/// No bias and no weight is NaN.
pub open spec fn params_not_nan(m: NetModel) -> bool {
    (forall|l: int, i: int|
        0 <= l < m.layers.len() && 0 <= i < m.layers[l].b.len()
            ==> !fp::is_nan_bits(#[trigger] m.layers[l].b[i]))
    && (forall|c: int, i: int, j: int|
        0 <= c < m.conns.len() && 0 <= i < m.conns[c].w.len()
            && 0 <= j < m.conns[c].w[i].len()
            ==> !fp::is_nan_bits(#[trigger] m.conns[c].w[i][j]))
}

} // verus!
