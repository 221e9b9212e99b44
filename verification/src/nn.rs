//! The executable network engine: layer and connection structures over
//! scalar bit patterns, with construction from a seed, forward
//! propagation, backpropagation, the gradient lifecycle, scoring and
//! classification. Every method's contract states the exact model
//! transition it performs and the exact value it returns.

use vstd::prelude::*;
use crate::NNError;
use crate::act::{Activation, activation_function, activation_function_derivate, act_deriv_of};
use crate::fp;
use crate::model::{
    LayerModel, ConnModel, NetModel, SampleModel,
    dot_prefix, dot_of, fwd_a, fwd_z, forward_m,
    bp_e, backprop_m, tmatvec, tmatvec_prefix, hadamard_actd, add_seq, outer_acc,
    clear_m, apply_m, apply_vec, zeros, biases_of, weights_of, grads_zero, params_not_nan,
    mse_fold, error_val, score_state, score_total, train_state,
    lemma_fwd_len, lemma_forward_m_wf, lemma_bp_len, lemma_backprop_m_wf,
    lemma_clear_m_wf, lemma_apply_m_wf, lemma_train_state_wf, lemma_score_state_wf,
};

verus! {

/// Per-neuron state of one layer.
#[derive(Debug)]
pub struct Layer {
    pub value_a: Vec<u32>,
    pub unscaled_z: Vec<u32>,
    pub error_z: Vec<u32>,
    pub bias_b: Vec<u32>,
    pub gradient_b: Vec<u32>,
}

/// An input vector, one scalar bit pattern per neuron of the first layer.
pub type Input = Vec<u32>;

/// An output vector, one scalar bit pattern per neuron of the last layer.
pub type Output = Vec<u32>;

/// A labeled training pair.
#[derive(Debug)]
pub struct Sample {
    pub input: Input,
    pub output: Output,
}

/// An ordered collection of samples.
pub type Samples = Vec<Sample>;

/// The dense weight matrix between two adjacent layers, with its gradient
/// accumulator.
#[derive(Debug)]
pub struct Connections {
    pub value_w: Vec<Vec<u32>>,
    pub gradient_w: Vec<Vec<u32>>,
}

/// The network: its activation choice, its layers, and the connections
/// between adjacent layers.
#[derive(Debug)]
pub struct NN {
    pub act: Activation,
    pub layers: Vec<Layer>,
    pub connections: Vec<Connections>,
}

impl View for Layer {
    type V = LayerModel;

    open spec fn view(&self) -> LayerModel {
        LayerModel {
            a: self.value_a@,
            z: self.unscaled_z@,
            e: self.error_z@,
            b: self.bias_b@,
            gb: self.gradient_b@,
        }
    }
}

impl DeepView for Layer {
    type V = LayerModel;

    open spec fn deep_view(&self) -> LayerModel {
        self@
    }
}

impl View for Connections {
    type V = ConnModel;

    open spec fn view(&self) -> ConnModel {
        ConnModel { w: self.value_w.deep_view(), gw: self.gradient_w.deep_view() }
    }
}

impl DeepView for Connections {
    type V = ConnModel;

    open spec fn deep_view(&self) -> ConnModel {
        self@
    }
}

impl View for Sample {
    type V = SampleModel;

    open spec fn view(&self) -> SampleModel {
        SampleModel { input: self.input@, output: self.output@ }
    }
}

impl DeepView for Sample {
    type V = SampleModel;

    open spec fn deep_view(&self) -> SampleModel {
        self@
    }
}

impl View for NN {
    type V = NetModel;

    open spec fn view(&self) -> NetModel {
        NetModel {
            act: self.act,
            layers: self.layers.deep_view(),
            conns: self.connections.deep_view(),
        }
    }
}

/// The running (record, holder) pair of the arg-max scan over the first
/// `n` entries: the record starts at -1.0, and an entry strictly greater
/// than the record (under the IEEE ordering) becomes the new record.
pub open spec fn arg_max_rec(s: Seq<u32>, n: int) -> (u32, int)
    decreases n,
{
    if n <= 0 {
        (fp::NEG_ONE_BITS, 0int)
    } else {
        let prev = arg_max_rec(s, n - 1);
        if fp::gt_bits_of(s[n - 1], prev.0) {
            (s[n - 1], n - 1)
        } else {
            prev
        }
    }
}

/// The index the arg-max scan of a whole vector settles on.
pub open spec fn arg_max_of(s: Seq<u32>) -> int {
    arg_max_rec(s, s.len() as int).1
}

/// The index of the entry an output vector is highest at: the first
/// entry strictly above -1.0 and above every earlier one wins; 0 if no
/// entry compares above -1.0.
pub fn arg_max(out: &Vec<u32>) -> (r: usize)
    ensures
        r as int == arg_max_of(out@),
        out@.len() > 0 ==> (r as int) < out@.len(),
{
    let mut record: u32 = fp::NEG_ONE_BITS;
    let mut holder: usize = 0;
    let mut t: usize = 0;
    let n = out.len();
    while t < n
        invariant
            t <= n,
            n == out@.len(),
            holder <= t,
            n > 0 && t > 0 ==> holder < t,
            record == arg_max_rec(out@, t as int).0,
            holder as int == arg_max_rec(out@, t as int).1,
        decreases n - t,
    {
        if fp::gt_bits(out[t], record) {
            record = out[t];
            holder = t;
        }
        t += 1;
    }
    holder
}

/// Whether every sample of a batch matches the network's shape: each input
/// as long as the first layer, each output as long as the last.
pub open spec fn batch_ok(ss: Seq<SampleModel>, m: NetModel) -> bool {
    forall|i: int| 0 <= i < ss.len()
        ==> (#[trigger] ss[i]).input.len() == m.size(0)
            && ss[i].output.len() == m.size(m.layers.len() - 1)
}

impl Layer {
    /// The number of neurons of the layer.
    pub fn len(&self) -> (n: usize)
        ensures
            n == self@.a.len(),
    {
        self.value_a.len()
    }
}

/// An element-by-element copy of a scalar vector.
pub(crate) fn clone_vec_u32(v: &Vec<u32>) -> (r: Vec<u32>)
    ensures
        r@ == v@,
{
    let mut r: Vec<u32> = Vec::new();
    let mut i: usize = 0;
    while i < v.len()
        invariant
            i <= v@.len(),
            r@.len() == i,
            forall|t: int| 0 <= t < i ==> r@[t] == v@[t],
        decreases v@.len() - i,
    {
        r.push(v[i]);
        i += 1;
    }
    proof {
        assert(r@ =~= v@);
    }
    r
}

/// A vector of `n` zero scalars.
pub(crate) fn zero_vec(n: usize) -> (r: Vec<u32>)
    ensures
        r@ == crate::model::zeros(n as nat),
{
    let mut r: Vec<u32> = Vec::new();
    let mut i: usize = 0;
    while i < n
        invariant
            i <= n,
            r@.len() == i,
            forall|t: int| 0 <= t < i ==> r@[t] == fp::POS_ZERO,
        decreases n - i,
    {
        r.push(fp::POS_ZERO);
        i += 1;
    }
    proof {
        assert(r@ =~= crate::model::zeros(n as nat));
    }
    r
}

/// An element-by-element copy of a scalar matrix.
pub(crate) fn clone_mat(v: &Vec<Vec<u32>>) -> (r: Vec<Vec<u32>>)
    ensures
        r.deep_view() == v.deep_view(),
{
    let mut r: Vec<Vec<u32>> = Vec::new();
    let mut i: usize = 0;
    while i < v.len()
        invariant
            i <= v@.len(),
            r@.len() == i,
            forall|t: int| 0 <= t < i ==> r.deep_view()[t] == v.deep_view()[t],
        decreases v@.len() - i,
    {
        r.push(clone_vec_u32(&v[i]));
        i += 1;
    }
    proof {
        assert(r.deep_view() =~= v.deep_view());
    }
    r
}

impl NN {
    /// Builds a network from an architecture with the chosen activation:
    /// one layer per entry, zeroed activation, pre-activation, error and
    /// gradient state, and biases then weights drawn in order from the
    /// seeded [-1, 1) stream. An architecture of fewer than two layers is
    /// rejected.
    #[verifier::loop_isolation(false)]
    pub fn with_activation(arch: &[usize], f: Activation, seed: u64) -> (r: Result<NN, NNError>)
        ensures
            r is Ok <==> arch@.len() >= 2,
            r is Ok ==> r->Ok_0@ == crate::model::build_model(arch@, f, seed) && r->Ok_0@.wf(),
            r is Err ==> r == Err::<NN, NNError>(NNError::InvalidArchitecture),
    {
        if arch.len() < 2 {
            return Err(NNError::InvalidArchitecture);
        }
        let ghost bm = crate::model::build_model(arch@, f, seed);
        let alen = arch.len();
        let mut gen = crate::rng::Rng::new(seed);
        let mut layers: Vec<Layer> = Vec::new();
        let mut l: usize = 0;
        while l < alen
            invariant
                l <= alen,
                alen == arch@.len(),
                gen.state == crate::rng::sm_state_at(seed, crate::model::bias_draws(arch@, l as int)),
                layers@.len() == l,
                forall|t: int| 0 <= t < l ==> #[trigger] layers.deep_view()[t] == bm.layers[t],
            decreases alen - l,
        {
            let nsz = arch[l];
            let mut b: Vec<u32> = Vec::new();
            let mut i: usize = 0;
            while i < nsz
                invariant
                    i <= nsz,
                    l < alen,
                    nsz == arch@[l as int],
                    gen.state == crate::rng::sm_state_at(
                        seed,
                        (crate::model::bias_draws(arch@, l as int) + i) as nat,
                    ),
                    b@.len() == i,
                    forall|t: int| 0 <= t < i ==> b@[t] == crate::rng::unit_at(
                        seed,
                        (crate::model::bias_draws(arch@, l as int) + t) as nat,
                    ),
                decreases nsz - i,
            {
                proof {
                    crate::rng::lemma_sm_state_unfold(
                        seed,
                        (crate::model::bias_draws(arch@, l as int) + i) as nat,
                    );
                }
                let vbit = gen.next_unit();
                b.push(vbit);
                i += 1;
            }
            let new_l = Layer {
                value_a: zero_vec(nsz),
                unscaled_z: zero_vec(nsz),
                error_z: zero_vec(nsz),
                bias_b: b,
                gradient_b: zero_vec(nsz),
            };
            let ghost prev = layers.deep_view();
            layers.push(new_l);
            l += 1;
            proof {
                assert(layers.deep_view()[l as int - 1].b
                    =~= bm.layers[l as int - 1].b);
                assert(layers.deep_view()[l as int - 1] =~~= bm.layers[l as int - 1]);
                assert forall|t: int| 0 <= t < l as int - 1
                    implies #[trigger] layers.deep_view()[t] == prev[t] by {
                }
            }
        }
        let ghost nb = crate::model::bias_draws(arch@, arch@.len() as int);
        let mut connections: Vec<Connections> = Vec::new();
        let mut c: usize = 1;
        while c < alen
            invariant
                1 <= c <= alen,
                alen == arch@.len(),
                gen.state == crate::rng::sm_state_at(
                    seed,
                    (nb + crate::model::weight_draws(arch@, c as int - 1)) as nat,
                ),
                connections@.len() == c - 1,
                forall|t: int| 0 <= t < c - 1
                    ==> #[trigger] connections.deep_view()[t] == bm.conns[t],
            decreases alen - c,
        {
            let rows = arch[c];
            let cols = arch[c - 1];
            let ghost base = nb + crate::model::weight_draws(arch@, c as int - 1);
            let mut w: Vec<Vec<u32>> = Vec::new();
            let mut i: usize = 0;
            while i < rows
                invariant
                    i <= rows,
                    c < alen,
                    rows == arch@[c as int],
                    cols == arch@[c as int - 1],
                    base == nb + crate::model::weight_draws(arch@, c as int - 1),
                    gen.state == crate::rng::sm_state_at(seed, (base + i * cols) as nat),
                    w@.len() == i,
                    forall|t: int| 0 <= t < i
                        ==> (#[trigger] w.deep_view()[t]).len() == cols,
                    forall|t: int, j: int| 0 <= t < i && 0 <= j < cols
                        ==> #[trigger] w.deep_view()[t][j] == crate::rng::unit_at(
                            seed,
                            (base + t * cols + j) as nat,
                        ),
                decreases rows - i,
            {
                let mut row: Vec<u32> = Vec::new();
                let mut j: usize = 0;
                while j < cols
                    invariant
                        j <= cols,
                        i < rows,
                        gen.state == crate::rng::sm_state_at(seed, (base + i * cols + j) as nat),
                        row@.len() == j,
                        forall|t: int| 0 <= t < j ==> row@[t] == crate::rng::unit_at(
                            seed,
                            (base + i * cols + t) as nat,
                        ),
                    decreases cols - j,
                {
                    proof {
                        crate::rng::lemma_sm_state_unfold(seed, (base + i * cols + j) as nat);
                    }
                    let vbit = gen.next_unit();
                    row.push(vbit);
                    j += 1;
                }
                let ghost prev_w = w.deep_view();
                w.push(row);
                i += 1;
                proof {
                    assert((i as int) * cols == (i as int - 1) * cols + cols) by (nonlinear_arith);
                    assert(w.deep_view()[i as int - 1] == row@);
                    assert forall|t: int| 0 <= t < i as int - 1
                        implies #[trigger] w.deep_view()[t] == prev_w[t] by {
                    }
                }
            }
            let mut gw: Vec<Vec<u32>> = Vec::new();
            let mut g: usize = 0;
            while g < rows
                invariant
                    g <= rows,
                    gw@.len() == g,
                    forall|t: int| 0 <= t < g
                        ==> #[trigger] gw.deep_view()[t] == zeros(cols as nat),
                decreases rows - g,
            {
                let ghost prev_g = gw.deep_view();
                gw.push(zero_vec(cols));
                g += 1;
                proof {
                    assert(gw.deep_view()[g as int - 1] == zeros(cols as nat));
                    assert forall|t: int| 0 <= t < g as int - 1
                        implies #[trigger] gw.deep_view()[t] == prev_g[t] by {
                    }
                }
            }
            let new_conn = Connections { value_w: w, gradient_w: gw };
            let ghost prev_c = connections.deep_view();
            connections.push(new_conn);
            c += 1;
            proof {
                assert(new_conn.value_w.deep_view() =~~= bm.conns[c as int - 2].w);
                assert(new_conn.gradient_w.deep_view() =~= bm.conns[c as int - 2].gw);
                assert(connections.deep_view()[c as int - 2] == new_conn@);
                assert(connections.deep_view()[c as int - 2] =~~= bm.conns[c as int - 2]);
                assert forall|t: int| 0 <= t < c as int - 2
                    implies #[trigger] connections.deep_view()[t] == prev_c[t] by {
                }
            }
        }
        let net = NN { act: f, layers, connections };
        proof {
            crate::model::lemma_build_model_wf(arch@, f, seed);
            assert(net@.layers =~= bm.layers);
            assert(net@.conns =~= bm.conns);
            assert(net@ =~~= bm);
        }
        Ok(net)
    }

    /// Builds a network with the canonical logistic-sigmoid activation.
    pub fn new(arch: &[usize], seed: u64) -> (r: Result<NN, NNError>)
        ensures
            r is Ok <==> arch@.len() >= 2,
            r is Ok ==> r->Ok_0@ == crate::model::build_model(arch@, Activation::Sigmoid, seed)
                && r->Ok_0@.wf(),
            r is Err ==> r == Err::<NN, NNError>(NNError::InvalidArchitecture),
    {
        Self::with_activation(arch, Activation::Sigmoid, seed)
    }

    /// Runs a forward pass: copies the input into layer 0's activation,
    /// then computes each later layer's pre-activation as w·a + b and its
    /// activation elementwise, in increasing layer order. Rejects an input
    /// whose length is not the first layer's size, leaving the network
    /// untouched.
    #[verifier::loop_isolation(false)]
    pub fn forward(&mut self, input: &Vec<u32>) -> (r: Result<(), NNError>)
        requires
            old(self)@.wf(),
        ensures
            final(self)@.wf(),
            r is Ok <==> input@.len() == old(self)@.size(0),
            r is Ok ==> final(self)@ == forward_m(old(self)@, input@),
            r is Err ==> final(self)@ == old(self)@ && r == Err::<(), NNError>(NNError::ShapeMismatch),
    {
        let ghost m0 = self@;
        if input.len() != self.layers[0].value_a.len() {
            return Err(NNError::ShapeMismatch);
        }
        let llen = self.layers.len();
        // layer 0: the input becomes the activation
        let l0 = &self.layers[0];
        let new0 = Layer {
            value_a: clone_vec_u32(input),
            unscaled_z: clone_vec_u32(&l0.unscaled_z),
            error_z: clone_vec_u32(&l0.error_z),
            bias_b: clone_vec_u32(&l0.bias_b),
            gradient_b: clone_vec_u32(&l0.gradient_b),
        };
        self.layers.set(0, new0);
        let mut k: usize = 1;
        while k < llen
            invariant
                m0.wf(),
                input@.len() == m0.size(0),
                1 <= k <= llen,
                llen == m0.layers.len(),
                self@.act == m0.act,
                self@.conns == m0.conns,
                self.connections@.len() == llen - 1,
                self@.layers.len() == llen,
                self.layers@.len() == llen,
                self@.layers[0].z == m0.layers[0].z,
                forall|l: int| 0 <= l < k ==> (#[trigger] self@.layers[l]).a == fwd_a(m0, input@, l),
                forall|l: int| 1 <= l < k ==> (#[trigger] self@.layers[l]).z == fwd_z(m0, input@, l),
                forall|l: int| 0 <= l < k ==> (#[trigger] self@.layers[l]).e == m0.layers[l].e
                    && self@.layers[l].b == m0.layers[l].b
                    && self@.layers[l].gb == m0.layers[l].gb,
                forall|l: int| k <= l < llen ==> #[trigger] self@.layers[l] == m0.layers[l],
            decreases llen - k,
        {
            let ghost wg = m0.conns[k as int - 1].w;
            let ghost ag = fwd_a(m0, input@, k as int - 1);
            let ghost bg = m0.layers[k as int].b;
            proof {
                assert(m0.conns[k as int - 1].wf(m0.size(k as int), m0.size(k as int - 1)));
                lemma_fwd_len(m0, input@, k as int - 1);
                assert(self@.layers[k as int - 1].a == ag);
            }
            let rows = self.connections[k - 1].value_w.len();
            let mut z: Vec<u32> = Vec::new();
            let mut i: usize = 0;
            while i < rows
                invariant
                    i <= rows,
                    rows == wg.len(),
                    k < llen,
                    1 <= k,
                    self@.layers.len() == llen,
                    llen == m0.layers.len(),
                    self@.conns == m0.conns,
                    self@.layers[k as int - 1].a == ag,
                    self@.layers[k as int].b == bg,
                    ag.len() == m0.size(k as int - 1),
                    bg.len() == m0.size(k as int),
                    rows == m0.size(k as int),
                    forall|t: int| 0 <= t < rows ==> (#[trigger] wg[t]).len() == ag.len(),
                    z@.len() == i,
                    forall|t: int| 0 <= t < i
                        ==> z@[t] == fp::add_bits_of(dot_of(wg[t], ag), bg[t]),
                decreases rows - i,
            {
                let row = &self.connections[k - 1].value_w[i];
                let cols = row.len();
                proof {
                    assert(row@ == wg[i as int]);
                    assert(wg[i as int].len() == ag.len());
                }
                let mut acc: u32 = fp::POS_ZERO;
                let mut j: usize = 0;
                while j < cols
                    invariant
                        j <= cols,
                        k < llen,
                        1 <= k,
                        i < rows,
                        self@.layers.len() == llen,
                        llen == m0.layers.len(),
                        row@ == wg[i as int],
                        cols == wg[i as int].len(),
                        self@.layers[k as int - 1].a == ag,
                        cols == ag.len(),
                        acc == dot_prefix(wg[i as int], ag, j as int),
                    decreases cols - j,
                {
                    acc = fp::add_bits(acc, fp::mul_bits(row[j], self.layers[k - 1].value_a[j]));
                    j += 1;
                }
                proof {
                    assert(acc == dot_of(wg[i as int], ag));
                }
                let zi = fp::add_bits(acc, self.layers[k].bias_b[i]);
                z.push(zi);
                i += 1;
            }
            proof {
                assert(z@ =~= fwd_z(m0, input@, k as int));
            }
            let mut a: Vec<u32> = Vec::new();
            let mut t: usize = 0;
            let zlen = z.len();
            while t < zlen
                invariant
                    t <= zlen,
                    zlen == z@.len(),
                    self@.act == m0.act,
                    a@.len() == t,
                    forall|s: int| 0 <= s < t
                        ==> a@[s] == crate::act::act_of(m0.act, z@[s]),
                decreases zlen - t,
            {
                a.push(activation_function(self.act, z[t]));
                t += 1;
            }
            proof {
                assert(a@ =~= crate::model::act_seq(m0.act, fwd_z(m0, input@, k as int)));
                assert(a@ =~= fwd_a(m0, input@, k as int));
            }
            let lk = &self.layers[k];
            let newk = Layer {
                value_a: a,
                unscaled_z: z,
                error_z: clone_vec_u32(&lk.error_z),
                bias_b: clone_vec_u32(&lk.bias_b),
                gradient_b: clone_vec_u32(&lk.gradient_b),
            };
            let ghost before = self@;
            self.layers.set(k, newk);
            proof {
                assert forall|l: int| 0 <= l < llen && l != k as int
                    implies #[trigger] self@.layers[l] == before.layers[l] by {
                }
                assert(self@.layers[k as int].a == fwd_a(m0, input@, k as int));
                assert(self@.layers[k as int].z == fwd_z(m0, input@, k as int));
            }
            k += 1;
        }
        proof {
            lemma_forward_m_wf(m0, input@);
            assert(self@ =~~= forward_m(m0, input@));
        }
        Ok(())
    }

    /// Runs a backward pass against an expected output: sets the last
    /// layer's error signal to (a - y) ⊙ σ'(z), then walks the layers in
    /// strictly decreasing order, accumulating each connection's weight
    /// gradient by the outer product of error and previous activation,
    /// accumulating each layer's error into its bias gradient, and
    /// propagating the error signal through the transposed weights.
    /// Gradients are accumulated, not overwritten. Rejects an output whose
    /// length is not the last layer's size, leaving the network untouched.
    #[verifier::loop_isolation(false)]
    pub fn backpropagate(&mut self, output: &Vec<u32>) -> (r: Result<(), NNError>)
        requires
            old(self)@.wf(),
        ensures
            final(self)@.wf(),
            r is Ok <==> output@.len() == old(self)@.size(old(self)@.layers.len() - 1),
            r is Ok ==> final(self)@ == backprop_m(old(self)@, output@),
            r is Err ==> final(self)@ == old(self)@ && r == Err::<(), NNError>(NNError::ShapeMismatch),
    {
        let ghost m0 = self@;
        let ghost y = output@;
        let llen = self.layers.len();
        let last = llen - 1;
        if output.len() != self.layers[last].value_a.len() {
            return Err(NNError::ShapeMismatch);
        }
        // the output layer's error signal
        let n_last = self.layers[last].value_a.len();
        proof {
            assert(m0.layers[last as int].wf());
            assert(self.layers@[last as int].value_a@ == m0.layers[last as int].a);
            assert(self.layers@[last as int].unscaled_z@ == m0.layers[last as int].z);
        }
        let mut e_last: Vec<u32> = Vec::new();
        let mut i: usize = 0;
        while i < n_last
            invariant
                i <= n_last,
                self.layers@.len() == llen,
                self.layers@[last as int].value_a@ == m0.layers[last as int].a,
                self.layers@[last as int].unscaled_z@ == m0.layers[last as int].z,
                n_last == m0.layers[last as int].a.len(),
                n_last == m0.layers[last as int].z.len(),
                e_last@.len() == i,
                forall|t: int| 0 <= t < i ==> e_last@[t] == fp::mul_bits_of(
                    fp::sub_bits_of(m0.layers[last as int].a[t], y[t]),
                    act_deriv_of(m0.act, m0.layers[last as int].z[t]),
                ),
            decreases n_last - i,
        {
            let d = activation_function_derivate(self.act, self.layers[last].unscaled_z[i]);
            let v = fp::mul_bits(fp::sub_bits(self.layers[last].value_a[i], output[i]), d);
            e_last.push(v);
            i += 1;
        }
        proof {
            assert(e_last@ =~= bp_e(m0, y, last as int));
        }
        let l_last = &self.layers[last];
        let new_last = Layer {
            value_a: clone_vec_u32(&l_last.value_a),
            unscaled_z: clone_vec_u32(&l_last.unscaled_z),
            error_z: e_last,
            bias_b: clone_vec_u32(&l_last.bias_b),
            gradient_b: clone_vec_u32(&l_last.gradient_b),
        };
        let ghost before_init = self@;
        self.layers.set(last, new_last);
        proof {
            assert forall|l: int| 0 <= l < llen && l != last as int
                implies #[trigger] self@.layers[l] == before_init.layers[l] by {
            }
            assert(self@.layers[last as int].e == bp_e(m0, y, last as int));
        }
        // walk the layers in strictly decreasing order
        let mut k: usize = last;
        while k >= 1
            invariant
                k <= last,
                llen == m0.layers.len(),
                last == llen - 1,
                self@.act == m0.act,
                self.layers@.len() == llen,
                self@.layers.len() == llen,
                self.connections@.len() == llen - 1,
                self@.conns.len() == llen - 1,
                forall|l: int| 0 <= l < llen ==> (#[trigger] self@.layers[l]).a == m0.layers[l].a
                    && self@.layers[l].z == m0.layers[l].z
                    && self@.layers[l].b == m0.layers[l].b,
                forall|c: int| 0 <= c < llen - 1
                    ==> (#[trigger] self@.conns[c]).w == m0.conns[c].w,
                forall|l: int| k <= l < llen
                    ==> (#[trigger] self@.layers[l]).e == bp_e(m0, y, l),
                forall|l: int| 0 <= l < k
                    ==> (#[trigger] self@.layers[l]).e == m0.layers[l].e,
                forall|l: int| k < l < llen
                    ==> (#[trigger] self@.layers[l]).gb == add_seq(m0.layers[l].gb, bp_e(m0, y, l)),
                forall|l: int| 0 <= l <= k
                    ==> (#[trigger] self@.layers[l]).gb == m0.layers[l].gb,
                forall|c: int| k <= c < llen - 1
                    ==> (#[trigger] self@.conns[c]).gw
                        == outer_acc(m0.conns[c].gw, bp_e(m0, y, c + 1), m0.layers[c].a),
                forall|c: int| 0 <= c < k
                    ==> (#[trigger] self@.conns[c]).gw == m0.conns[c].gw,
            decreases k,
        {
            let ghost ekg = bp_e(m0, y, k as int);
            let ghost apg = m0.layers[k as int - 1].a;
            let ghost zpg = m0.layers[k as int - 1].z;
            let ghost wkg = m0.conns[k as int - 1].w;
            let ghost gwg = m0.conns[k as int - 1].gw;
            proof {
                assert(m0.conns[k as int - 1].wf(m0.size(k as int), m0.size(k as int - 1)));
                lemma_bp_len(m0, y, k as int);
                assert(self@.layers[k as int].e == ekg);
                assert(self@.conns[k as int - 1].gw == gwg);
                assert(self.connections@[k as int - 1].gradient_w.deep_view() == gwg);
                assert(self.connections@[k as int - 1].gradient_w@.len() == gwg.len());
            }
            let rows = self.layers[k].error_z.len();
            // accumulate the weight gradient of the connection below
            let mut new_gw: Vec<Vec<u32>> = Vec::new();
            let mut i2: usize = 0;
            while i2 < rows
                invariant
                    i2 <= rows,
                    1 <= k <= last,
                    rows == ekg.len(),
                    rows == m0.size(k as int),
                    new_gw@.len() == i2,
                    forall|t: int| 0 <= t < i2
                        ==> (#[trigger] new_gw.deep_view()[t]).len() == gwg[t].len(),
                    forall|t: int, j: int| 0 <= t < i2 && 0 <= j < gwg[t].len()
                        ==> #[trigger] new_gw.deep_view()[t][j]
                            == fp::add_bits_of(gwg[t][j], fp::mul_bits_of(ekg[t], apg[j])),
                decreases rows - i2,
            {
                proof {
                    assert(self.connections@[k as int - 1].gradient_w@[i2 as int]@
                        == self.connections@[k as int - 1].gradient_w.deep_view()[i2 as int]);
                    assert(self.connections@[k as int - 1].gradient_w@[i2 as int]@ == gwg[i2 as int]);
                    assert(gwg[i2 as int].len() == m0.size(k as int - 1));
                    assert(apg.len() == m0.size(k as int - 1));
                    assert(self@.layers[k as int - 1].a == apg);
                    assert(self.layers@[k as int - 1]@.a == apg);
                    assert(self.layers@[k as int - 1].value_a@ == apg);
                    assert(self@.layers[k as int].e == ekg);
                    assert(self.layers@[k as int]@.e == ekg);
                    assert(self.layers@[k as int].error_z@ == ekg);
                }
                let cols = self.connections[k - 1].gradient_w[i2].len();
                let mut row: Vec<u32> = Vec::new();
                let mut j: usize = 0;
                while j < cols
                    invariant
                        j <= cols,
                        i2 < rows,
                        1 <= k <= last,
                        cols == gwg[i2 as int].len(),
                        cols == apg.len(),
                        rows == ekg.len(),
                        row@.len() == j,
                        forall|t: int| 0 <= t < j ==> row@[t] == fp::add_bits_of(
                            gwg[i2 as int][t],
                            fp::mul_bits_of(ekg[i2 as int], apg[t]),
                        ),
                    decreases cols - j,
                {
                    let v = fp::add_bits(
                        self.connections[k - 1].gradient_w[i2][j],
                        fp::mul_bits(self.layers[k].error_z[i2], self.layers[k - 1].value_a[j]),
                    );
                    row.push(v);
                    j += 1;
                }
                let ghost prev_gw = new_gw.deep_view();
                new_gw.push(row);
                i2 += 1;
                proof {
                    assert(new_gw.deep_view()[i2 as int - 1] == row@);
                    assert forall|t: int| 0 <= t < i2 as int - 1
                        implies #[trigger] new_gw.deep_view()[t] == prev_gw[t] by {
                    }
                }
            }
            proof {
                assert forall|t: int| 0 <= t < rows
                    implies new_gw.deep_view()[t] =~= outer_acc(gwg, ekg, apg)[t] by {
                }
                assert(new_gw.deep_view() =~= outer_acc(gwg, ekg, apg));
            }
            let conn = &self.connections[k - 1];
            let new_conn = Connections {
                value_w: clone_mat(&conn.value_w),
                gradient_w: new_gw,
            };
            proof {
                assert(new_conn.value_w.deep_view() == self@.conns[k as int - 1].w);
            }
            let ghost before_c = self@;
            self.connections.set(k - 1, new_conn);
            proof {
                assert forall|c: int| 0 <= c < llen - 1 && c != k as int - 1
                    implies #[trigger] self@.conns[c] == before_c.conns[c] by {
                }
                assert(self@.layers =~~= before_c.layers);
                assert(self@.conns[k as int - 1] == new_conn@);
                assert(self@.conns[k as int - 1].gw == outer_acc(gwg, ekg, apg));
                assert(self@.conns[k as int - 1].w == m0.conns[k as int - 1].w);
            }
            // accumulate the bias gradient of layer k
            let nk = self.layers[k].gradient_b.len();
            let mut new_gb: Vec<u32> = Vec::new();
            let mut i3: usize = 0;
            while i3 < nk
                invariant
                    i3 <= nk,
                    1 <= k <= last,
                    nk == m0.layers[k as int].gb.len(),
                    nk == ekg.len(),
                    new_gb@.len() == i3,
                    forall|t: int| 0 <= t < i3 ==> new_gb@[t] == fp::add_bits_of(
                        m0.layers[k as int].gb[t],
                        ekg[t],
                    ),
                decreases nk - i3,
            {
                let v = fp::add_bits(self.layers[k].gradient_b[i3], self.layers[k].error_z[i3]);
                new_gb.push(v);
                i3 += 1;
            }
            proof {
                assert(new_gb@ =~= add_seq(m0.layers[k as int].gb, ekg));
            }
            let lk = &self.layers[k];
            let new_k = Layer {
                value_a: clone_vec_u32(&lk.value_a),
                unscaled_z: clone_vec_u32(&lk.unscaled_z),
                error_z: clone_vec_u32(&lk.error_z),
                bias_b: clone_vec_u32(&lk.bias_b),
                gradient_b: new_gb,
            };
            let ghost before_k = self@;
            self.layers.set(k, new_k);
            proof {
                assert forall|l: int| 0 <= l < llen && l != k as int
                    implies #[trigger] self@.layers[l] == before_k.layers[l] by {
                }
                assert(self@.conns =~~= before_k.conns);
                assert(self@.layers[k as int].gb == add_seq(m0.layers[k as int].gb, bp_e(m0, y, k as int)));
                assert(self@.layers[k as int].e == bp_e(m0, y, k as int));
                assert(self@.layers[k as int].a == before_k.layers[k as int].a);
                assert(self@.layers[k as int].z == before_k.layers[k as int].z);
                assert(self@.layers[k as int].b == before_k.layers[k as int].b);
                assert(before_k.layers[k as int - 1] == before_c.layers[k as int - 1]);
                assert(self@.layers[k as int - 1].a == m0.layers[k as int - 1].a);
                assert(self@.layers[k as int - 1].z == zpg);
            }
            // propagate the error signal to layer k - 1
            let np = self.layers[k - 1].value_a.len();
            let mut new_e: Vec<u32> = Vec::new();
            let mut j2: usize = 0;
            while j2 < np
                invariant
                    j2 <= np,
                    1 <= k <= last,
                    np == m0.size(k as int - 1),
                    rows == ekg.len(),
                    rows == m0.size(k as int),
                    new_e@.len() == j2,
                    forall|t: int| 0 <= t < j2 ==> new_e@[t] == fp::mul_bits_of(
                        tmatvec_prefix(wkg, ekg, t, rows as int),
                        act_deriv_of(m0.act, zpg[t]),
                    ),
                decreases np - j2,
            {
                let mut acc: u32 = fp::POS_ZERO;
                let mut i4: usize = 0;
                while i4 < rows
                    invariant
                        i4 <= rows,
                        j2 < np,
                        1 <= k <= last,
                        np == m0.size(k as int - 1),
                        rows == ekg.len(),
                        rows == m0.size(k as int),
                        acc == tmatvec_prefix(wkg, ekg, j2 as int, i4 as int),
                    decreases rows - i4,
                {
                    proof {
                        assert(wkg[i4 as int].len() == m0.size(k as int - 1));
                    }
                    acc = fp::add_bits(
                        acc,
                        fp::mul_bits(
                            self.connections[k - 1].value_w[i4][j2],
                            self.layers[k].error_z[i4],
                        ),
                    );
                    i4 += 1;
                }
                let d = activation_function_derivate(self.act, self.layers[k - 1].unscaled_z[j2]);
                new_e.push(fp::mul_bits(acc, d));
                j2 += 1;
            }
            proof {
                assert(new_e@ =~= hadamard_actd(m0.act, tmatvec(wkg, ekg, np as nat), zpg));
                assert(new_e@ =~= bp_e(m0, y, k as int - 1));
            }
            let lp = &self.layers[k - 1];
            let new_p = Layer {
                value_a: clone_vec_u32(&lp.value_a),
                unscaled_z: clone_vec_u32(&lp.unscaled_z),
                error_z: new_e,
                bias_b: clone_vec_u32(&lp.bias_b),
                gradient_b: clone_vec_u32(&lp.gradient_b),
            };
            let ghost before_p = self@;
            self.layers.set(k - 1, new_p);
            proof {
                assert forall|l: int| 0 <= l < llen && l != k as int - 1
                    implies #[trigger] self@.layers[l] == before_p.layers[l] by {
                }
                assert(self@.conns =~~= before_p.conns);
                assert(self@.layers[k as int - 1].e == bp_e(m0, y, k as int - 1));
            }
            k -= 1;
        }
        proof {
            lemma_backprop_m_wf(m0, y);
            assert(self@ =~~= backprop_m(m0, y));
        }
        Ok(())
    }

    /// Resets every gradient accumulator — each bias gradient and each
    /// weight gradient entry — to +0.0, ahead of accumulating a new batch.
    #[verifier::loop_isolation(false)]
    pub fn clear_gradient(&mut self)
        requires
            old(self)@.wf(),
        ensures
            final(self)@.wf(),
            final(self)@ == clear_m(old(self)@),
    {
        let ghost m0 = self@;
        let llen = self.layers.len();
        let mut k: usize = 0;
        while k < llen
            invariant
                k <= llen,
                llen == m0.layers.len(),
                self.layers@.len() == llen,
                self@.layers.len() == llen,
                self@.act == m0.act,
                self@.conns == m0.conns,
                self.connections@.len() == m0.conns.len(),
                forall|l: int| 0 <= l < k ==> (#[trigger] self@.layers[l]).a == m0.layers[l].a
                    && self@.layers[l].z == m0.layers[l].z
                    && self@.layers[l].e == m0.layers[l].e
                    && self@.layers[l].b == m0.layers[l].b
                    && self@.layers[l].gb == zeros(m0.layers[l].gb.len()),
                forall|l: int| k <= l < llen ==> #[trigger] self@.layers[l] == m0.layers[l],
            decreases llen - k,
        {
            proof {
                assert(self@.layers[k as int] == m0.layers[k as int]);
                assert(self.layers@[k as int].gradient_b@ == m0.layers[k as int].gb);
                assert(self.layers@[k as int].value_a@ == m0.layers[k as int].a);
                assert(self.layers@[k as int].unscaled_z@ == m0.layers[k as int].z);
                assert(self.layers@[k as int].error_z@ == m0.layers[k as int].e);
                assert(self.layers@[k as int].bias_b@ == m0.layers[k as int].b);
            }
            let lk = &self.layers[k];
            let n = lk.gradient_b.len();
            let new_k = Layer {
                value_a: clone_vec_u32(&lk.value_a),
                unscaled_z: clone_vec_u32(&lk.unscaled_z),
                error_z: clone_vec_u32(&lk.error_z),
                bias_b: clone_vec_u32(&lk.bias_b),
                gradient_b: zero_vec(n),
            };
            let ghost before = self@;
            self.layers.set(k, new_k);
            proof {
                assert forall|l: int| 0 <= l < llen && l != k as int
                    implies #[trigger] self@.layers[l] == before.layers[l] by {
                }
                assert(self@.layers[k as int] == new_k@);
                assert(self@.layers[k as int].gb == zeros(m0.layers[k as int].gb.len()));
            }
            k += 1;
        }
        let clen = self.connections.len();
        let mut c: usize = 0;
        while c < clen
            invariant
                c <= clen,
                clen == m0.conns.len(),
                llen == m0.layers.len(),
                self.layers@.len() == llen,
                self@.layers.len() == llen,
                self.connections@.len() == clen,
                self@.conns.len() == clen,
                self@.act == m0.act,
                forall|l: int| 0 <= l < llen ==> (#[trigger] self@.layers[l]).a == m0.layers[l].a
                    && self@.layers[l].z == m0.layers[l].z
                    && self@.layers[l].e == m0.layers[l].e
                    && self@.layers[l].b == m0.layers[l].b
                    && self@.layers[l].gb == zeros(m0.layers[l].gb.len()),
                forall|t: int| 0 <= t < c ==> (#[trigger] self@.conns[t]).w == m0.conns[t].w
                    && self@.conns[t].gw.len() == m0.conns[t].gw.len()
                    && (forall|i: int| 0 <= i < m0.conns[t].gw.len()
                        ==> #[trigger] self@.conns[t].gw[i] == zeros(m0.conns[t].gw[i].len())),
                forall|t: int| c <= t < clen ==> #[trigger] self@.conns[t] == m0.conns[t],
            decreases clen - c,
        {
            let rows = self.connections[c].gradient_w.len();
            let mut new_gw: Vec<Vec<u32>> = Vec::new();
            let mut i: usize = 0;
            proof {
                assert(self@.conns[c as int] == m0.conns[c as int]);
                assert(self.connections@[c as int].gradient_w.deep_view() == m0.conns[c as int].gw);
            }
            while i < rows
                invariant
                    i <= rows,
                    c < clen,
                    rows == m0.conns[c as int].gw.len(),
                    self.connections@.len() == clen,
                    self.connections@[c as int].gradient_w.deep_view() == m0.conns[c as int].gw,
                    self.connections@[c as int].gradient_w@.len() == rows,
                    new_gw@.len() == i,
                    forall|t: int| 0 <= t < i ==> #[trigger] new_gw.deep_view()[t]
                        == zeros(m0.conns[c as int].gw[t].len()),
                decreases rows - i,
            {
                proof {
                    assert(self.connections@[c as int].gradient_w@[i as int]@
                        == m0.conns[c as int].gw[i as int]);
                }
                let cols = self.connections[c].gradient_w[i].len();
                let ghost prev_gw = new_gw.deep_view();
                new_gw.push(zero_vec(cols));
                i += 1;
                proof {
                    assert(new_gw.deep_view()[i as int - 1] == zeros(cols as nat));
                    assert forall|t: int| 0 <= t < i as int - 1
                        implies #[trigger] new_gw.deep_view()[t] == prev_gw[t] by {
                    }
                }
            }
            let conn = &self.connections[c];
            let new_conn = Connections {
                value_w: clone_mat(&conn.value_w),
                gradient_w: new_gw,
            };
            proof {
                assert(new_conn.value_w.deep_view() == m0.conns[c as int].w);
            }
            let ghost before = self@;
            self.connections.set(c, new_conn);
            proof {
                assert forall|t: int| 0 <= t < clen && t != c as int
                    implies #[trigger] self@.conns[t] == before.conns[t] by {
                }
                assert(self@.layers =~~= before.layers);
                assert(self@.conns[c as int] == new_conn@);
            }
            c += 1;
        }
        proof {
            lemma_clear_m_wf(m0);
            assert forall|l: int| 0 <= l < llen
                implies self@.layers[l] =~~= clear_m(m0).layers[l] by {
            }
            assert forall|t: int| 0 <= t < clen
                implies self@.conns[t] =~~= clear_m(m0).conns[t] by {
                assert forall|i: int| 0 <= i < m0.conns[t].gw.len()
                    implies #[trigger] self@.conns[t].gw[i] == clear_m(m0).conns[t].gw[i] by {
                }
            }
            assert(self@ =~~= clear_m(m0));
        }
    }

    /// Performs one gradient-descent step at the given already-normalized
    /// rate: every bias and every weight moves by its accumulated gradient
    /// times the rate. When the rate is +0.0, the gradients are all +0.0
    /// and no parameter is NaN, the step leaves every bias and weight
    /// bit-for-bit unchanged: a zero learning rate is a no-op.
    #[verifier::loop_isolation(false)]
    pub fn apply_gradient(&mut self, rate: u32)
        requires
            old(self)@.wf(),
        ensures
            final(self)@.wf(),
            final(self)@ == apply_m(old(self)@, rate),
            rate == fp::POS_ZERO && grads_zero(old(self)@) && params_not_nan(old(self)@)
                ==> biases_of(final(self)@) == biases_of(old(self)@)
                    && weights_of(final(self)@) == weights_of(old(self)@),
    {
        let ghost m0 = self@;
        let ghost hyp = rate == fp::POS_ZERO && grads_zero(m0) && params_not_nan(m0);
        let llen = self.layers.len();
        let mut k: usize = 0;
        while k < llen
            invariant
                k <= llen,
                llen == m0.layers.len(),
                self.layers@.len() == llen,
                self@.layers.len() == llen,
                self@.act == m0.act,
                self@.conns == m0.conns,
                self.connections@.len() == m0.conns.len(),
                forall|l: int| 0 <= l < k ==> (#[trigger] self@.layers[l]).a == m0.layers[l].a
                    && self@.layers[l].z == m0.layers[l].z
                    && self@.layers[l].e == m0.layers[l].e
                    && self@.layers[l].gb == m0.layers[l].gb
                    && self@.layers[l].b == apply_vec(m0.layers[l].b, m0.layers[l].gb, rate),
                hyp ==> forall|l: int| 0 <= l < k
                    ==> (#[trigger] self@.layers[l]).b == m0.layers[l].b,
                forall|l: int| k <= l < llen ==> #[trigger] self@.layers[l] == m0.layers[l],
            decreases llen - k,
        {
            proof {
                assert(self@.layers[k as int] == m0.layers[k as int]);
                assert(self.layers@[k as int].bias_b@ == m0.layers[k as int].b);
                assert(self.layers@[k as int].gradient_b@ == m0.layers[k as int].gb);
                assert(self.layers@[k as int].value_a@ == m0.layers[k as int].a);
                assert(self.layers@[k as int].unscaled_z@ == m0.layers[k as int].z);
                assert(self.layers@[k as int].error_z@ == m0.layers[k as int].e);
                assert(m0.layers[k as int].wf());
            }
            let lk = &self.layers[k];
            let n = lk.bias_b.len();
            let mut new_b: Vec<u32> = Vec::new();
            let mut i: usize = 0;
            while i < n
                invariant
                    i <= n,
                    k < llen,
                    n == m0.layers[k as int].b.len(),
                    n == m0.layers[k as int].gb.len(),
                    self.layers@.len() == llen,
                    self.layers@[k as int].bias_b@ == m0.layers[k as int].b,
                    self.layers@[k as int].gradient_b@ == m0.layers[k as int].gb,
                    new_b@.len() == i,
                    forall|t: int| 0 <= t < i ==> new_b@[t] == fp::sub_bits_of(
                        m0.layers[k as int].b[t],
                        fp::mul_bits_of(m0.layers[k as int].gb[t], rate),
                    ),
                    hyp ==> forall|t: int| 0 <= t < i ==> new_b@[t] == m0.layers[k as int].b[t],
                decreases n - i,
            {
                let g = fp::mul_bits(self.layers[k].gradient_b[i], rate);
                let v = fp::sub_bits(self.layers[k].bias_b[i], g);
                new_b.push(v);
                i += 1;
            }
            proof {
                assert(new_b@ =~= apply_vec(m0.layers[k as int].b, m0.layers[k as int].gb, rate));
                if hyp {
                    assert(new_b@ =~= m0.layers[k as int].b);
                }
            }
            let new_k = Layer {
                value_a: clone_vec_u32(&lk.value_a),
                unscaled_z: clone_vec_u32(&lk.unscaled_z),
                error_z: clone_vec_u32(&lk.error_z),
                bias_b: new_b,
                gradient_b: clone_vec_u32(&lk.gradient_b),
            };
            let ghost before = self@;
            self.layers.set(k, new_k);
            proof {
                assert forall|l: int| 0 <= l < llen && l != k as int
                    implies #[trigger] self@.layers[l] == before.layers[l] by {
                }
            }
            k += 1;
        }
        let clen = self.connections.len();
        let mut c: usize = 0;
        while c < clen
            invariant
                c <= clen,
                clen == m0.conns.len(),
                llen == m0.layers.len(),
                self.layers@.len() == llen,
                self@.layers.len() == llen,
                self.connections@.len() == clen,
                self@.conns.len() == clen,
                self@.act == m0.act,
                forall|l: int| 0 <= l < llen ==> (#[trigger] self@.layers[l]).a == m0.layers[l].a
                    && self@.layers[l].z == m0.layers[l].z
                    && self@.layers[l].e == m0.layers[l].e
                    && self@.layers[l].gb == m0.layers[l].gb
                    && self@.layers[l].b == apply_vec(m0.layers[l].b, m0.layers[l].gb, rate),
                hyp ==> forall|l: int| 0 <= l < llen
                    ==> (#[trigger] self@.layers[l]).b == m0.layers[l].b,
                forall|t: int| 0 <= t < c ==> (#[trigger] self@.conns[t]).gw == m0.conns[t].gw
                    && self@.conns[t].w.len() == m0.conns[t].w.len()
                    && (forall|i: int| 0 <= i < m0.conns[t].w.len()
                        ==> #[trigger] self@.conns[t].w[i]
                            == apply_vec(m0.conns[t].w[i], m0.conns[t].gw[i], rate)),
                hyp ==> forall|t: int, i: int| 0 <= t < c && 0 <= i < m0.conns[t].w.len()
                    ==> #[trigger] self@.conns[t].w[i] == m0.conns[t].w[i],
                forall|t: int| c <= t < clen ==> #[trigger] self@.conns[t] == m0.conns[t],
            decreases clen - c,
        {
            proof {
                assert(self@.conns[c as int] == m0.conns[c as int]);
                assert(self.connections@[c as int].value_w.deep_view() == m0.conns[c as int].w);
                assert(self.connections@[c as int].gradient_w.deep_view() == m0.conns[c as int].gw);
                assert(m0.conns[c as int].wf(m0.size(c as int + 1), m0.size(c as int)));
            }
            let rows = self.connections[c].value_w.len();
            let mut new_w: Vec<Vec<u32>> = Vec::new();
            let mut i: usize = 0;
            while i < rows
                invariant
                    i <= rows,
                    c < clen,
                    rows == m0.conns[c as int].w.len(),
                    rows == m0.conns[c as int].gw.len(),
                    forall|t: int| 0 <= t < rows
                        ==> (#[trigger] m0.conns[c as int].w[t]).len() == m0.size(c as int)
                            && m0.conns[c as int].gw[t].len() == m0.size(c as int),
                    self.connections@.len() == clen,
                    self.connections@[c as int].value_w.deep_view() == m0.conns[c as int].w,
                    self.connections@[c as int].gradient_w.deep_view() == m0.conns[c as int].gw,
                    self.connections@[c as int].value_w@.len() == rows,
                    self.connections@[c as int].gradient_w@.len() == rows,
                    new_w@.len() == i,
                    forall|t: int| 0 <= t < i ==> #[trigger] new_w.deep_view()[t]
                        == apply_vec(m0.conns[c as int].w[t], m0.conns[c as int].gw[t], rate),
                    hyp ==> forall|t: int| 0 <= t < i
                        ==> #[trigger] new_w.deep_view()[t] == m0.conns[c as int].w[t],
                decreases rows - i,
            {
                proof {
                    assert(self.connections@[c as int].value_w@[i as int]@
                        == m0.conns[c as int].w[i as int]);
                    assert(self.connections@[c as int].gradient_w@[i as int]@
                        == m0.conns[c as int].gw[i as int]);
                }
                let cols = self.connections[c].value_w[i].len();
                let mut row: Vec<u32> = Vec::new();
                let mut j: usize = 0;
                while j < cols
                    invariant
                        j <= cols,
                        i < rows,
                        c < clen,
                        cols == m0.conns[c as int].w[i as int].len(),
                        cols == m0.conns[c as int].gw[i as int].len(),
                        self.connections@.len() == clen,
                        self.connections@[c as int].value_w@[i as int]@
                            == m0.conns[c as int].w[i as int],
                        self.connections@[c as int].gradient_w@[i as int]@
                            == m0.conns[c as int].gw[i as int],
                        self.connections@[c as int].value_w@.len() == rows,
                        self.connections@[c as int].gradient_w@.len() == rows,
                        row@.len() == j,
                        forall|t: int| 0 <= t < j ==> row@[t] == fp::sub_bits_of(
                            m0.conns[c as int].w[i as int][t],
                            fp::mul_bits_of(m0.conns[c as int].gw[i as int][t], rate),
                        ),
                        hyp ==> forall|t: int| 0 <= t < j
                            ==> row@[t] == m0.conns[c as int].w[i as int][t],
                    decreases cols - j,
                {
                    let g = fp::mul_bits(self.connections[c].gradient_w[i][j], rate);
                    let v = fp::sub_bits(self.connections[c].value_w[i][j], g);
                    row.push(v);
                    j += 1;
                }
                proof {
                    assert(row@ =~= apply_vec(
                        m0.conns[c as int].w[i as int],
                        m0.conns[c as int].gw[i as int],
                        rate,
                    ));
                    if hyp {
                        assert(row@ =~= m0.conns[c as int].w[i as int]);
                    }
                }
                let ghost prev_w = new_w.deep_view();
                new_w.push(row);
                i += 1;
                proof {
                    assert(new_w.deep_view()[i as int - 1] == apply_vec(
                        m0.conns[c as int].w[i as int - 1],
                        m0.conns[c as int].gw[i as int - 1],
                        rate,
                    ));
                    assert forall|t: int| 0 <= t < i as int - 1
                        implies #[trigger] new_w.deep_view()[t] == prev_w[t] by {
                    }
                }
            }
            let conn = &self.connections[c];
            let new_conn = Connections {
                value_w: new_w,
                gradient_w: clone_mat(&conn.gradient_w),
            };
            proof {
                assert(new_conn.gradient_w.deep_view() == m0.conns[c as int].gw);
            }
            let ghost before = self@;
            self.connections.set(c, new_conn);
            proof {
                assert forall|t: int| 0 <= t < clen && t != c as int
                    implies #[trigger] self@.conns[t] == before.conns[t] by {
                }
                assert(self@.layers =~~= before.layers);
                assert(self@.conns[c as int] == new_conn@);
            }
            c += 1;
        }
        proof {
            lemma_apply_m_wf(m0, rate);
            assert forall|l: int| 0 <= l < llen
                implies self@.layers[l] =~~= apply_m(m0, rate).layers[l] by {
            }
            assert forall|t: int| 0 <= t < clen
                implies self@.conns[t] =~~= apply_m(m0, rate).conns[t] by {
                assert forall|i: int| 0 <= i < m0.conns[t].w.len()
                    implies #[trigger] self@.conns[t].w[i] == apply_m(m0, rate).conns[t].w[i] by {
                }
            }
            assert(self@ =~~= apply_m(m0, rate));
            if hyp {
                assert forall|l: int| 0 <= l < llen
                    implies (#[trigger] self@.layers[l]).b == m0.layers[l].b by {
                }
                assert(biases_of(self@) =~= biases_of(m0));
                assert forall|t: int| 0 <= t < clen
                    implies (#[trigger] self@.conns[t]).w == m0.conns[t].w by {
                    assert forall|i: int| 0 <= i < m0.conns[t].w.len()
                        implies #[trigger] self@.conns[t].w[i] == m0.conns[t].w[i] by {
                    }
                    assert(self@.conns[t].w =~= m0.conns[t].w);
                }
                assert(weights_of(self@) =~= weights_of(m0));
            }
        }
    }

    /// Runs a forward pass and returns a copy of the last layer's
    /// activation vector.
    pub fn get(&mut self, input: &Vec<u32>) -> (r: Result<Vec<u32>, NNError>)
        requires
            old(self)@.wf(),
        ensures
            final(self)@.wf(),
            r is Ok <==> input@.len() == old(self)@.size(0),
            r is Ok ==> final(self)@ == forward_m(old(self)@, input@)
                && r->Ok_0@ == fwd_a(old(self)@, input@, old(self)@.layers.len() - 1),
            r is Err ==> final(self)@ == old(self)@
                && r == Err::<Vec<u32>, NNError>(NNError::ShapeMismatch),
    {
        let ghost m0 = self@;
        match self.forward(input) {
            Err(e) => Err(e),
            Ok(()) => {
                let last = self.layers.len() - 1;
                let out = clone_vec_u32(&self.layers[last].value_a);
                proof {
                    assert(self@.layers[last as int].a
                        == fwd_a(m0, input@, m0.layers.len() - 1));
                    assert(self.layers@[last as int].value_a@ == self@.layers[last as int].a);
                }
                Ok(out)
            },
        }
    }

    /// The composite training step on one mini-batch: clears the gradient
    /// accumulators, runs a forward then a backward pass for every sample
    /// in order, and applies the summed gradients at rate divided by the
    /// batch size. An empty batch and any shape-mismatched sample are
    /// rejected before anything is mutated.
    #[verifier::loop_isolation(false)]
    pub fn train_samples(&mut self, samples: &Vec<Sample>, rate: u32) -> (r: Result<(), NNError>)
        requires
            old(self)@.wf(),
        ensures
            final(self)@.wf(),
            samples@.len() == 0
                ==> r == Err::<(), NNError>(NNError::EmptyBatch) && final(self)@ == old(self)@,
            samples@.len() > 0 && !batch_ok(samples.deep_view(), old(self)@)
                ==> r == Err::<(), NNError>(NNError::ShapeMismatch) && final(self)@ == old(self)@,
            samples@.len() > 0 && batch_ok(samples.deep_view(), old(self)@)
                ==> r is Ok && final(self)@ == apply_m(
                    train_state(clear_m(old(self)@), samples.deep_view(), samples@.len() as int),
                    fp::div_bits_of(rate, fp::from_int_bits_of(samples@.len() as int)),
                ),
    {
        let ghost m0 = self@;
        let ghost ssm = samples.deep_view();
        let n = samples.len();
        if n == 0 {
            return Err(NNError::EmptyBatch);
        }
        let size0 = self.layers[0].value_a.len();
        let last = self.layers.len() - 1;
        let slast = self.layers[last].value_a.len();
        let mut v: usize = 0;
        while v < n
            invariant
                v <= n,
                n == ssm.len(),
                forall|i: int| 0 <= i < v
                    ==> (#[trigger] ssm[i]).input.len() == size0
                        && ssm[i].output.len() == slast,
            decreases n - v,
        {
            proof {
                assert(ssm[v as int] == samples@[v as int]@);
            }
            if samples[v].input.len() != size0 {
                proof {
                    assert(!batch_ok(ssm, m0));
                }
                return Err(NNError::ShapeMismatch);
            }
            if samples[v].output.len() != slast {
                proof {
                    assert(!batch_ok(ssm, m0));
                }
                return Err(NNError::ShapeMismatch);
            }
            v += 1;
        }
        proof {
            assert(batch_ok(ssm, m0));
        }
        self.clear_gradient();
        let ghost mc = clear_m(m0);
        proof {
            lemma_clear_m_wf(m0);
        }
        let mut t: usize = 0;
        while t < n
            invariant
                t <= n,
                n == ssm.len(),
                n == samples@.len(),
                mc == clear_m(m0),
                mc.wf(),
                batch_ok(ssm, m0),
                m0.wf(),
                size0 == m0.size(0),
                slast == m0.size(m0.layers.len() - 1),
                last == m0.layers.len() - 1,
                mc.layers.len() == m0.layers.len(),
                forall|l: int| 0 <= l < m0.layers.len() ==> #[trigger] mc.size(l) == m0.size(l),
                self@ == train_state(mc, ssm, t as int),
                self@.wf(),
            decreases n - t,
        {
            let ghost mt = train_state(mc, ssm, t as int);
            proof {
                assert forall|i: int| 0 <= i < t as int
                    implies (#[trigger] ssm[i]).input.len() == mc.size(0) by {
                    assert(ssm[i].input.len() == m0.size(0));
                }
                lemma_train_state_wf(mc, ssm, t as int);
                assert(ssm[t as int] == samples@[t as int]@);
                assert(mt.size(0) == m0.size(0));
            }
            match self.forward(&samples[t].input) {
                Ok(()) => {},
                Err(e) => {
                    proof {
                        assert(false);
                    }
                    return Err(e);
                },
            }
            proof {
                lemma_forward_m_wf(mt, ssm[t as int].input);
                assert(self@ == forward_m(mt, ssm[t as int].input));
                assert(self@.size(self@.layers.len() - 1) == mt.size(mt.layers.len() - 1));
                assert(mt.size(mt.layers.len() - 1) == m0.size(m0.layers.len() - 1));
            }
            match self.backpropagate(&samples[t].output) {
                Ok(()) => {},
                Err(e) => {
                    proof {
                        assert(false);
                    }
                    return Err(e);
                },
            }
            proof {
                assert(self@ == backprop_m(forward_m(mt, ssm[t as int].input), ssm[t as int].output));
                assert(self@ == train_state(mc, ssm, t as int + 1));
            }
            t += 1;
        }
        let norm = fp::div_bits(rate, fp::from_i128_bits(n as i128));
        proof {
            assert(n as i128 as int == n as int);
        }
        self.apply_gradient(norm);
        proof {
            assert(self@ == apply_m(
                train_state(clear_m(m0), ssm, n as int),
                fp::div_bits_of(rate, fp::from_int_bits_of(n as int)),
            ));
        }
        Ok(())
    }

    /// The error of the network on one sample: runs a forward pass on the
    /// sample's input, then returns half the mean of the squared
    /// differences between the sample's output and the last layer's
    /// activation (the halving cancels the factor two that squaring puts
    /// into the gradient). Shape mismatches of either vector are rejected
    /// before anything is mutated.
    #[verifier::loop_isolation(false)]
    pub fn error(&mut self, sample: &Sample) -> (r: Result<u32, NNError>)
        requires
            old(self)@.wf(),
        ensures
            final(self)@.wf(),
            r is Ok <==> sample@.input.len() == old(self)@.size(0)
                && sample@.output.len() == old(self)@.size(old(self)@.layers.len() - 1),
            r is Ok ==> final(self)@ == forward_m(old(self)@, sample@.input)
                && r->Ok_0 == error_val(old(self)@, sample@),
            r is Err ==> final(self)@ == old(self)@
                && r == Err::<u32, NNError>(NNError::ShapeMismatch),
    {
        let ghost m0 = self@;
        let size0 = self.layers[0].value_a.len();
        let last = self.layers.len() - 1;
        let slast = self.layers[last].value_a.len();
        if sample.input.len() != size0 {
            return Err(NNError::ShapeMismatch);
        }
        if sample.output.len() != slast {
            return Err(NNError::ShapeMismatch);
        }
        match self.forward(&sample.input) {
            Ok(()) => {},
            Err(e) => {
                proof {
                    assert(false);
                }
                return Err(e);
            },
        }
        let ghost af = fwd_a(m0, sample@.input, m0.layers.len() - 1);
        proof {
            lemma_forward_m_wf(m0, sample@.input);
            assert(self@.layers[last as int].a == af);
            assert(self.layers@[last as int].value_a@ == af);
            assert(af.len() == m0.size(m0.layers.len() - 1));
        }
        let olen = sample.output.len();
        let mut total: u32 = fp::POS_ZERO;
        let mut i: usize = 0;
        while i < olen
            invariant
                i <= olen,
                olen == sample@.output.len(),
                olen == af.len(),
                last == m0.layers.len() - 1,
                self.layers@.len() == m0.layers.len(),
                self.layers@[last as int].value_a@ == af,
                total == mse_fold(sample@.output, af, i as int),
            decreases olen - i,
        {
            let e = fp::sub_bits(sample.output[i], self.layers[last].value_a[i]);
            total = fp::add_bits(total, fp::mul_bits(e, e));
            i += 1;
        }
        let nf = fp::from_i128_bits(olen as i128);
        let res = fp::div_bits(fp::div_bits(total, nf), fp::TWO_BITS);
        proof {
            assert(olen as i128 as int == olen as int);
            assert(res == error_val(m0, sample@));
        }
        Ok(res)
    }

    /// The average of the per-sample errors over a dataset, evaluating the
    /// samples in order. An empty dataset and any shape-mismatched sample
    /// are rejected before anything is mutated.
    #[verifier::loop_isolation(false)]
    pub fn score(&mut self, samples: &Vec<Sample>) -> (r: Result<u32, NNError>)
        requires
            old(self)@.wf(),
        ensures
            final(self)@.wf(),
            samples@.len() == 0
                ==> r == Err::<u32, NNError>(NNError::EmptyBatch) && final(self)@ == old(self)@,
            samples@.len() > 0 && !batch_ok(samples.deep_view(), old(self)@)
                ==> r == Err::<u32, NNError>(NNError::ShapeMismatch) && final(self)@ == old(self)@,
            samples@.len() > 0 && batch_ok(samples.deep_view(), old(self)@)
                ==> r is Ok
                    && final(self)@ == score_state(old(self)@, samples.deep_view(), samples@.len() as int)
                    && r->Ok_0 == fp::div_bits_of(
                        score_total(old(self)@, samples.deep_view(), samples@.len() as int),
                        fp::from_int_bits_of(samples@.len() as int),
                    ),
    {
        let ghost m0 = self@;
        let ghost ssm = samples.deep_view();
        let n = samples.len();
        if n == 0 {
            return Err(NNError::EmptyBatch);
        }
        let size0 = self.layers[0].value_a.len();
        let last = self.layers.len() - 1;
        let slast = self.layers[last].value_a.len();
        let mut v: usize = 0;
        while v < n
            invariant
                v <= n,
                n == ssm.len(),
                forall|i: int| 0 <= i < v
                    ==> (#[trigger] ssm[i]).input.len() == size0
                        && ssm[i].output.len() == slast,
            decreases n - v,
        {
            proof {
                assert(ssm[v as int] == samples@[v as int]@);
            }
            if samples[v].input.len() != size0 {
                proof {
                    assert(!batch_ok(ssm, m0));
                }
                return Err(NNError::ShapeMismatch);
            }
            if samples[v].output.len() != slast {
                proof {
                    assert(!batch_ok(ssm, m0));
                }
                return Err(NNError::ShapeMismatch);
            }
            v += 1;
        }
        proof {
            assert(batch_ok(ssm, m0));
        }
        let mut total: u32 = fp::POS_ZERO;
        let mut t: usize = 0;
        while t < n
            invariant
                t <= n,
                n == ssm.len(),
                n == samples@.len(),
                m0.wf(),
                batch_ok(ssm, m0),
                size0 == m0.size(0),
                slast == m0.size(m0.layers.len() - 1),
                last == m0.layers.len() - 1,
                self@ == score_state(m0, ssm, t as int),
                self@.wf(),
                total == score_total(m0, ssm, t as int),
            decreases n - t,
        {
            let ghost mt = score_state(m0, ssm, t as int);
            proof {
                assert forall|i: int| 0 <= i < t as int
                    implies (#[trigger] ssm[i]).input.len() == m0.size(0) by {
                }
                lemma_score_state_wf(m0, ssm, t as int);
                assert(ssm[t as int] == samples@[t as int]@);
                assert(mt.size(0) == m0.size(0));
                assert(mt.size(mt.layers.len() - 1) == m0.size(m0.layers.len() - 1));
            }
            let e = match self.error(&samples[t]) {
                Ok(e) => e,
                Err(e) => {
                    proof {
                        assert(false);
                    }
                    return Err(e);
                },
            };
            total = fp::add_bits(total, e);
            proof {
                assert(self@ == forward_m(mt, ssm[t as int].input));
                assert(self@ == score_state(m0, ssm, t as int + 1));
                assert(total == score_total(m0, ssm, t as int + 1));
            }
            t += 1;
        }
        let res = fp::div_bits(total, fp::from_i128_bits(n as i128));
        proof {
            assert(n as i128 as int == n as int);
        }
        Ok(res)
    }

    /// How many of the first `n` samples the network classifies correctly:
    /// a sample counts when the arg-max of the output computed on its
    /// input equals the arg-max of its expected output, with the forward
    /// passes run in order.
    pub open spec fn correct_count(m: NetModel, ss: Seq<SampleModel>, n: int) -> int
        decreases n,
    {
        if n <= 0 {
            0
        } else {
            Self::correct_count(m, ss, n - 1) + if arg_max_of(
                fwd_a(score_state(m, ss, n - 1), ss[n - 1].input, m.layers.len() - 1),
            ) == arg_max_of(ss[n - 1].output) {
                1int
            } else {
                0int
            }
        }
    }

    /// Classifies every sample and counts how many arg-max predictions
    /// match the expected output's arg-max. Any input whose length is not
    /// the first layer's size is rejected before anything is mutated.
    #[verifier::loop_isolation(false)]
    pub fn count_correct(&mut self, samples: &Vec<Sample>) -> (r: Result<usize, NNError>)
        requires
            old(self)@.wf(),
        ensures
            final(self)@.wf(),
            r is Ok <==> (forall|i: int| 0 <= i < samples@.len()
                ==> (#[trigger] samples.deep_view()[i]).input.len() == old(self)@.size(0)),
            r is Ok ==> final(self)@
                == score_state(old(self)@, samples.deep_view(), samples@.len() as int)
                && r->Ok_0 as int
                    == Self::correct_count(old(self)@, samples.deep_view(), samples@.len() as int),
            r is Err ==> final(self)@ == old(self)@
                && r == Err::<usize, NNError>(NNError::ShapeMismatch),
    {
        let ghost m0 = self@;
        let ghost ssm = samples.deep_view();
        let n = samples.len();
        let size0 = self.layers[0].value_a.len();
        let mut v: usize = 0;
        while v < n
            invariant
                v <= n,
                n == ssm.len(),
                forall|i: int| 0 <= i < v ==> (#[trigger] ssm[i]).input.len() == size0,
            decreases n - v,
        {
            proof {
                assert(ssm[v as int] == samples@[v as int]@);
            }
            if samples[v].input.len() != size0 {
                return Err(NNError::ShapeMismatch);
            }
            v += 1;
        }
        let mut count: usize = 0;
        let mut t: usize = 0;
        while t < n
            invariant
                t <= n,
                n == ssm.len(),
                n == samples@.len(),
                m0.wf(),
                size0 == m0.size(0),
                forall|i: int| 0 <= i < n ==> (#[trigger] ssm[i]).input.len() == size0,
                self@ == score_state(m0, ssm, t as int),
                self@.wf(),
                count <= t,
                count as int == Self::correct_count(m0, ssm, t as int),
            decreases n - t,
        {
            let ghost mt = score_state(m0, ssm, t as int);
            proof {
                lemma_score_state_wf(m0, ssm, t as int);
                assert(ssm[t as int] == samples@[t as int]@);
                assert(mt.size(0) == m0.size(0));
            }
            let out = match self.get(&samples[t].input) {
                Ok(o) => o,
                Err(e) => {
                    proof {
                        assert(false);
                    }
                    return Err(e);
                },
            };
            proof {
                assert(out@ == fwd_a(mt, ssm[t as int].input, mt.layers.len() - 1));
                assert(mt.layers.len() == m0.layers.len());
                assert(self@ == score_state(m0, ssm, t as int + 1));
            }
            let predicted = arg_max(&out);
            let expected = arg_max(&samples[t].output);
            proof {
                assert(samples@[t as int].output@ == ssm[t as int].output);
            }
            if predicted == expected {
                count += 1;
            }
            t += 1;
        }
        Ok(count)
    }
}

} // verus!
