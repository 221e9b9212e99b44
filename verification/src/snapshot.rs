//! The persistence boundary: a snapshot is a complete, order-preserving
//! copy of the architecture, the activation choice, and every bias and
//! weight — enough to reconstruct a network that behaves identically. The
//! encoding of a snapshot into text or bytes is a caller's concern.

use vstd::prelude::*;
use crate::NNError;
use crate::act::Activation;
use crate::model::{
    SnapModel, snap_of, snap_wf, restore_model, zeros, biases_of, weights_of,
    lemma_restore_model_wf,
};
use crate::nn::{Layer, Connections, NN, clone_vec_u32, clone_mat, zero_vec};

verus! {

/// The serialized state of a network, as plain vectors.
#[derive(Debug)]
pub struct Snapshot {
    pub arch: Vec<usize>,
    pub act: Activation,
    pub biases: Vec<Vec<u32>>,
    pub weights: Vec<Vec<Vec<u32>>>,
}

impl View for Snapshot {
    type V = SnapModel;

    open spec fn view(&self) -> SnapModel {
        SnapModel {
            arch: self.arch@,
            act: self.act,
            b: self.biases.deep_view(),
            w: self.weights.deep_view(),
        }
    }
}

impl NN {
    /// Copies the network's architecture, activation choice, biases and
    /// weights into a snapshot.
    #[verifier::loop_isolation(false)]
    pub fn serialize(&self) -> (s: Snapshot)
        requires
            self@.wf(),
        ensures
            s@ == snap_of(self@),
            snap_wf(s@),
    {
        let llen = self.layers.len();
        let mut arch: Vec<usize> = Vec::new();
        let mut biases: Vec<Vec<u32>> = Vec::new();
        let mut l: usize = 0;
        while l < llen
            invariant
                l <= llen,
                llen == self@.layers.len(),
                arch@.len() == l,
                biases@.len() == l,
                forall|t: int| 0 <= t < l ==> #[trigger] self@.size(t) <= usize::MAX,
                forall|t: int| 0 <= t < l ==> arch@[t] == self@.size(t) as usize,
                forall|t: int| 0 <= t < l
                    ==> #[trigger] biases.deep_view()[t] == self@.layers[t].b,
            decreases llen - l,
        {
            proof {
                assert(self.layers@[l as int].value_a@ == self@.layers[l as int].a);
                assert(self.layers@[l as int].bias_b@ == self@.layers[l as int].b);
            }
            arch.push(self.layers[l].value_a.len());
            let ghost prev = biases.deep_view();
            biases.push(clone_vec_u32(&self.layers[l].bias_b));
            l += 1;
            proof {
                assert(biases.deep_view()[l as int - 1] == self@.layers[l as int - 1].b);
                assert forall|t: int| 0 <= t < l as int - 1
                    implies #[trigger] biases.deep_view()[t] == prev[t] by {
                }
            }
        }
        let clen = self.connections.len();
        let mut weights: Vec<Vec<Vec<u32>>> = Vec::new();
        let mut c: usize = 0;
        while c < clen
            invariant
                c <= clen,
                clen == self@.conns.len(),
                weights@.len() == c,
                forall|t: int| 0 <= t < c
                    ==> #[trigger] weights.deep_view()[t] == self@.conns[t].w,
            decreases clen - c,
        {
            proof {
                assert(self.connections@[c as int].value_w.deep_view() == self@.conns[c as int].w);
            }
            let ghost prev = weights.deep_view();
            weights.push(clone_mat(&self.connections[c].value_w));
            c += 1;
            proof {
                assert(weights.deep_view()[c as int - 1] == self@.conns[c as int - 1].w);
                assert forall|t: int| 0 <= t < c as int - 1
                    implies #[trigger] weights.deep_view()[t] == prev[t] by {
                }
            }
        }
        let s = Snapshot { arch, act: self.act, biases, weights };
        proof {
            assert(s@.arch =~= snap_of(self@).arch);
            assert(s@.b =~= snap_of(self@).b);
            assert(s@.w =~= snap_of(self@).w);
            assert(s@ =~~= snap_of(self@));
            assert forall|cc: int, i: int| 0 <= cc < s@.w.len() && 0 <= i < s@.w[cc].len()
                implies (#[trigger] s@.w[cc][i]).len() == s@.arch[cc] by {
                assert(self@.conns[cc].wf(self@.size(cc + 1), self@.size(cc)));
                assert(self@.size(cc) <= usize::MAX);
            }
            assert forall|cc: int| 0 <= cc < s@.w.len()
                implies (#[trigger] s@.w[cc]).len() == s@.arch[cc + 1] by {
                assert(self@.conns[cc].wf(self@.size(cc + 1), self@.size(cc)));
                assert(self@.size(cc + 1) <= usize::MAX);
            }
            assert forall|ll: int| 0 <= ll < s@.b.len()
                implies (#[trigger] s@.b[ll]).len() == s@.arch[ll] by {
                assert(self@.layers[ll].wf());
                assert(self@.size(ll) <= usize::MAX);
            }
        }
        s
    }

    /// Reconstructs a network from a snapshot: the snapshot's parameters
    /// with freshly zeroed activation, pre-activation, error and gradient
    /// state. A snapshot with fewer than two layers is rejected as an
    /// invalid architecture; one whose vectors disagree with its
    /// architecture is rejected as a shape mismatch.
    #[verifier::loop_isolation(false)]
    pub fn deserialize(s: &Snapshot) -> (r: Result<NN, NNError>)
        ensures
            r is Ok <==> snap_wf(s@),
            r is Ok ==> r->Ok_0@ == restore_model(s@) && r->Ok_0@.wf(),
            s@.arch.len() < 2 ==> r == Err::<NN, NNError>(NNError::InvalidArchitecture),
            s@.arch.len() >= 2 && !snap_wf(s@) ==> r == Err::<NN, NNError>(NNError::ShapeMismatch),
    {
        let alen = s.arch.len();
        if alen < 2 {
            return Err(NNError::InvalidArchitecture);
        }
        if s.biases.len() != alen || s.weights.len() != alen - 1 {
            return Err(NNError::ShapeMismatch);
        }
        let mut v: usize = 0;
        while v < alen
            invariant
                v <= alen,
                alen == s@.arch.len(),
                s@.b.len() == alen,
                forall|t: int| 0 <= t < v ==> (#[trigger] s@.b[t]).len() == s@.arch[t],
            decreases alen - v,
        {
            proof {
                assert(s.biases@[v as int]@ == s@.b[v as int]);
            }
            if s.biases[v].len() != s.arch[v] {
                return Err(NNError::ShapeMismatch);
            }
            v += 1;
        }
        let mut vc: usize = 0;
        while vc < alen - 1
            invariant
                vc <= alen - 1,
                alen == s@.arch.len(),
                s@.b.len() == alen,
                s@.w.len() == alen - 1,
                forall|t: int| 0 <= t < alen ==> (#[trigger] s@.b[t]).len() == s@.arch[t],
                forall|t: int| 0 <= t < vc ==> (#[trigger] s@.w[t]).len() == s@.arch[t + 1],
                forall|t: int, i: int| 0 <= t < vc && 0 <= i < s@.w[t].len()
                    ==> (#[trigger] s@.w[t][i]).len() == s@.arch[t],
            decreases alen - 1 - vc,
        {
            proof {
                assert(s.weights@[vc as int].deep_view() == s@.w[vc as int]);
            }
            if s.weights[vc].len() != s.arch[vc + 1] {
                return Err(NNError::ShapeMismatch);
            }
            let rows = s.weights[vc].len();
            let mut vi: usize = 0;
            while vi < rows
                invariant
                    vi <= rows,
                    vc < alen - 1,
                    alen == s@.arch.len(),
                    s@.w.len() == alen - 1,
                    rows == s@.w[vc as int].len(),
                    forall|i: int| 0 <= i < vi
                        ==> (#[trigger] s@.w[vc as int][i]).len() == s@.arch[vc as int],
                decreases rows - vi,
            {
                proof {
                    assert(s.weights@[vc as int]@[vi as int]@ == s@.w[vc as int][vi as int]);
                }
                if s.weights[vc][vi].len() != s.arch[vc] {
                    return Err(NNError::ShapeMismatch);
                }
                vi += 1;
            }
            vc += 1;
        }
        proof {
            assert(snap_wf(s@));
        }
        // build the network
        let mut layers: Vec<Layer> = Vec::new();
        let mut l: usize = 0;
        while l < alen
            invariant
                l <= alen,
                alen == s@.arch.len(),
                snap_wf(s@),
                layers@.len() == l,
                forall|t: int| 0 <= t < l
                    ==> #[trigger] layers.deep_view()[t] == restore_model(s@).layers[t],
            decreases alen - l,
        {
            proof {
                assert(s.biases@[l as int]@ == s@.b[l as int]);
            }
            let n = s.arch[l];
            let new_l = Layer {
                value_a: zero_vec(n),
                unscaled_z: zero_vec(n),
                error_z: zero_vec(n),
                bias_b: clone_vec_u32(&s.biases[l]),
                gradient_b: zero_vec(n),
            };
            let ghost prev = layers.deep_view();
            layers.push(new_l);
            l += 1;
            proof {
                assert(layers.deep_view()[l as int - 1] =~~= restore_model(s@).layers[l as int - 1]);
                assert forall|t: int| 0 <= t < l as int - 1
                    implies #[trigger] layers.deep_view()[t] == prev[t] by {
                }
            }
        }
        let mut connections: Vec<Connections> = Vec::new();
        let mut c: usize = 0;
        while c < alen - 1
            invariant
                c <= alen - 1,
                alen == s@.arch.len(),
                snap_wf(s@),
                connections@.len() == c,
                forall|t: int| 0 <= t < c
                    ==> #[trigger] connections.deep_view()[t] == restore_model(s@).conns[t],
            decreases alen - 1 - c,
        {
            proof {
                assert(s.weights@[c as int].deep_view() == s@.w[c as int]);
            }
            let rows = s.weights[c].len();
            let cols = s.arch[c];
            let mut gw: Vec<Vec<u32>> = Vec::new();
            let mut g: usize = 0;
            while g < rows
                invariant
                    g <= rows,
                    gw@.len() == g,
                    forall|t: int| 0 <= t < g
                        ==> #[trigger] gw.deep_view()[t] == zeros(cols as nat),
                decreases rows - g,
            {
                let ghost prev_g = gw.deep_view();
                gw.push(zero_vec(cols));
                g += 1;
                proof {
                    assert(gw.deep_view()[g as int - 1] == zeros(cols as nat));
                    assert forall|t: int| 0 <= t < g as int - 1
                        implies #[trigger] gw.deep_view()[t] == prev_g[t] by {
                    }
                }
            }
            let new_conn = Connections {
                value_w: clone_mat(&s.weights[c]),
                gradient_w: gw,
            };
            let ghost prev = connections.deep_view();
            connections.push(new_conn);
            c += 1;
            proof {
                assert(new_conn.value_w.deep_view() == s@.w[c as int - 1]);
                assert(new_conn.gradient_w.deep_view()
                    =~= restore_model(s@).conns[c as int - 1].gw);
                assert(connections.deep_view()[c as int - 1]
                    =~~= restore_model(s@).conns[c as int - 1]);
                assert forall|t: int| 0 <= t < c as int - 1
                    implies #[trigger] connections.deep_view()[t] == prev[t] by {
                }
            }
        }
        let net = NN { act: s.act, layers, connections };
        proof {
            lemma_restore_model_wf(s@);
            assert(net@.layers =~= restore_model(s@).layers);
            assert(net@.conns =~= restore_model(s@).conns);
            assert(net@ =~~= restore_model(s@));
        }
        Ok(net)
    }
}

/// Restoring a network's own snapshot gives back exactly its architecture,
/// activation choice, biases and weights: serialization is lossless for
/// everything that defines the network's behaviour.
pub proof fn lemma_snapshot_round_trip(m: crate::model::NetModel)
    requires
        m.wf(),
        forall|l: int| 0 <= l < m.layers.len() ==> #[trigger] m.size(l) <= usize::MAX,
    ensures
        snap_wf(snap_of(m)),
        restore_model(snap_of(m)).act == m.act,
        restore_model(snap_of(m)).layers.len() == m.layers.len(),
        forall|l: int| 0 <= l < m.layers.len()
            ==> #[trigger] restore_model(snap_of(m)).size(l) == m.size(l),
        biases_of(restore_model(snap_of(m))) == biases_of(m),
        weights_of(restore_model(snap_of(m))) == weights_of(m),
{
    let s = snap_of(m);
    assert forall|c: int| 0 <= c < s.w.len()
        implies (#[trigger] s.w[c]).len() == s.arch[c + 1] by {
        assert(m.conns[c].wf(m.size(c + 1), m.size(c)));
    }
    assert forall|c: int, i: int| 0 <= c < s.w.len() && 0 <= i < s.w[c].len()
        implies (#[trigger] s.w[c][i]).len() == s.arch[c] by {
        assert(m.conns[c].wf(m.size(c + 1), m.size(c)));
    }
    assert forall|l: int| 0 <= l < s.b.len()
        implies (#[trigger] s.b[l]).len() == s.arch[l] by {
        assert(m.layers[l].wf());
        assert(m.size(l) <= usize::MAX);
    }
    assert(snap_wf(s));
    let rm = restore_model(s);
    assert(biases_of(rm) =~= biases_of(m));
    assert(weights_of(rm) =~= weights_of(m));
    assert forall|l: int| 0 <= l < m.layers.len()
        implies #[trigger] rm.size(l) == m.size(l) by {
        assert(rm.size(l) == s.arch[l] as nat);
    }
}

} // verus!
