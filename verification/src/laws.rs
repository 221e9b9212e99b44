//! General properties of the engine, stated over the model and proved
//! once for every network and input.

use vstd::prelude::*;
use crate::model::{
    NetModel, biases_of, weights_of, grads_zero, params_not_nan,
    forward_m, backprop_m, clear_m, fwd_a, fwd_z, affine_of,
};
use crate::snapshot::lemma_snapshot_round_trip;
use crate::model::{snap_of, restore_model, lemma_restore_model_wf};

verus! {

/// A forward pass, a backward pass and a gradient reset never touch the
/// trainable parameters: every bias and weight is exactly preserved.
pub proof fn lemma_passes_keep_params(m: NetModel, x: Seq<u32>, y: Seq<u32>)
    ensures
        biases_of(forward_m(m, x)) == biases_of(m),
        weights_of(forward_m(m, x)) == weights_of(m),
        biases_of(backprop_m(m, y)) == biases_of(m),
        weights_of(backprop_m(m, y)) == weights_of(m),
        biases_of(clear_m(m)) == biases_of(m),
        weights_of(clear_m(m)) == weights_of(m),
{
    assert(biases_of(forward_m(m, x)) =~= biases_of(m));
    assert(weights_of(forward_m(m, x)) =~= weights_of(m));
    assert(biases_of(backprop_m(m, y)) =~= biases_of(m));
    assert(weights_of(backprop_m(m, y)) =~= weights_of(m));
    assert(biases_of(clear_m(m)) =~= biases_of(m));
    assert(weights_of(clear_m(m)) =~= weights_of(m));
}

/// After a gradient reset every accumulator holds +0.0.
pub proof fn lemma_clear_zeroes(m: NetModel)
    ensures
        grads_zero(clear_m(m)),
{
}

/// Zero learning rate is a no-op. After a forward pass, a backward pass
/// and a gradient reset, the network's state satisfies exactly the
/// hypothesis of `apply_gradient`'s zero-rate clause: its gradients are
/// all +0.0 and its parameters are those of the starting network, still
/// free of NaN. A gradient step at rate +0.0 then leaves every bias and
/// weight bit-for-bit unchanged.
pub proof fn lemma_zero_rate_setup(m: NetModel, x: Seq<u32>, y: Seq<u32>)
    requires
        params_not_nan(m),
    ensures
        ({
            let m3 = clear_m(backprop_m(forward_m(m, x), y));
            grads_zero(m3)
                && params_not_nan(m3)
                && biases_of(m3) == biases_of(m)
                && weights_of(m3) == weights_of(m)
        }),
{
    let m1 = forward_m(m, x);
    let m2 = backprop_m(m1, y);
    let m3 = clear_m(m2);
    lemma_passes_keep_params(m, x, y);
    lemma_passes_keep_params(m1, x, y);
    lemma_passes_keep_params(m2, x, y);
    assert(grads_zero(m3));
    assert forall|l: int, i: int|
        0 <= l < m3.layers.len() && 0 <= i < m3.layers[l].b.len()
        implies !crate::fp::is_nan_bits(#[trigger] m3.layers[l].b[i]) by {
        assert(m3.layers[l].b == m.layers[l].b);
    }
    assert forall|c: int, i: int, j: int|
        0 <= c < m3.conns.len() && 0 <= i < m3.conns[c].w.len()
            && 0 <= j < m3.conns[c].w[i].len()
        implies !crate::fp::is_nan_bits(#[trigger] m3.conns[c].w[i][j]) by {
        assert(m3.conns[c].w == m.conns[c].w);
    }
}

/// Two well-formed networks with the same shape, activation choice,
/// biases and weights compute exactly the same forward pass on every
/// input: inference depends on nothing but the parameters the snapshot
/// carries.
pub proof fn lemma_same_params_same_output(m1: NetModel, m2: NetModel, x: Seq<u32>, k: int)
    requires
        m1.wf(),
        m2.wf(),
        m1.act == m2.act,
        m1.layers.len() == m2.layers.len(),
        forall|l: int| 0 <= l < m1.layers.len() ==> #[trigger] m1.size(l) == m2.size(l),
        biases_of(m1) == biases_of(m2),
        weights_of(m1) == weights_of(m2),
        0 <= k < m1.layers.len(),
    ensures
        fwd_a(m1, x, k) == fwd_a(m2, x, k),
        k >= 1 ==> fwd_z(m1, x, k) == fwd_z(m2, x, k),
    decreases k,
{
    if k >= 1 {
        lemma_same_params_same_output(m1, m2, x, k - 1);
        assert(weights_of(m1)[k - 1] == weights_of(m2)[k - 1]);
        assert(m1.conns[k - 1].w == m2.conns[k - 1].w);
        assert(biases_of(m1)[k] == biases_of(m2)[k]);
        assert(m1.layers[k].b == m2.layers[k].b);
        assert(fwd_z(m1, x, k) == affine_of(m1.conns[k - 1].w, fwd_a(m1, x, k - 1), m1.layers[k].b));
        assert(fwd_z(m2, x, k) == affine_of(m2.conns[k - 1].w, fwd_a(m2, x, k - 1), m2.layers[k].b));
    }
}

/// Restoring a network's snapshot yields a network whose forward pass
/// agrees with the original exactly, on every input: serializing and
/// deserializing change no observable behaviour.
pub proof fn lemma_snapshot_preserves_get(m: NetModel, x: Seq<u32>)
    requires
        m.wf(),
        forall|l: int| 0 <= l < m.layers.len() ==> #[trigger] m.size(l) <= usize::MAX,
    ensures
        fwd_a(restore_model(snap_of(m)), x, m.layers.len() - 1)
            == fwd_a(m, x, m.layers.len() - 1),
{
    lemma_snapshot_round_trip(m);
    lemma_restore_model_wf(snap_of(m));
    let rm = restore_model(snap_of(m));
    assert forall|l: int| 0 <= l < m.layers.len()
        implies #[trigger] rm.size(l) == m.size(l) by {
    }
    lemma_same_params_same_output(rm, m, x, m.layers.len() - 1);
}

} // verus!
