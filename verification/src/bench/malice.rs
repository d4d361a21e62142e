//! What dishonest dealers do to a run of five secrets, and what becomes of them.
use crate::algebra::cong;
use crate::bench::five::{Contribution, FiveRun};
use crate::bench::protocol::Layer;
use crate::curve::{Curve, Scalar};
use crate::dkg::accusations::{failures, law_one_accusation_each, one_each};
use crate::dkg::carrier::Carrier;
use crate::dkg::complaint::pairs;
use crate::dkg::round::{law_off_share_detected, soundness, Dealing};
use crate::dkg::suite::Suite;
use crate::dkg::tampering::{lemma_rest_len, offset_at, telling};
use std::collections::BTreeMap;
use vstd::prelude::*;

verus! {

broadcast use {vstd::laws_cmp::group_laws_cmp, vstd::std_specs::btree::group_btree_axioms};

/// What a dealer tampers with: the share of the first receiver, in the given layer, by the given
/// offset.
pub type Tampering<C> = Option<(Layer, Scalar<C>)>;

/// The offset by which a dealer shifts the share of the first receiver in a layer.
pub open spec fn offset_in<C: Curve>(tampering: Tampering<C>, layer: Layer) -> int {
    match tampering {
        Some((l, delta)) => if l == layer {
            delta@
        } else {
            0
        },
        None => 0,
    }
}

impl<C: Curve, X> Contribution<C, X> {
    /// Every share is honest but, where the dealer is not, that of the first receiver in the layer
    /// that the dealer corrupts, which is off by the offset.
    pub open spec fn tampered(self, tampering: Tampering<C>, n: int) -> bool {
        &&& self.xy.tampered(n, 0, offset_in(tampering, Layer::Xy))
        &&& self.z.tampered(n, 0, offset_in(tampering, Layer::Z))
    }
}

/// The shift of the first receiver's share in a layer.
pub fn shift_in<C: Curve>(tampering: Tampering<C>, layer: Layer) -> (r: Option<(usize, Scalar<C>)>)
    ensures
        match r {
            Some((v, delta)) => v == 0 && tampering == Some((layer, delta)),
            None => !(tampering matches Some((l, _)) && l == layer),
        },
{
    match tampering {
        Some((l, delta)) => if l == layer {
            Some((0, delta))
        } else {
            None
        },
        None => None,
    }
}

/// Whether the share of the receiver at index `j` checks, in a sharing whose first receiver's share
/// is off by `delta`.
proof fn lemma_first_off<C: Curve, X: Carrier<C>>(
    d: Dealing<C, X>,
    suite: Suite<C>,
    degree: int,
    delta: int,
    j: int,
)
    requires
        d.valid(suite.generators, suite.base, suite.receiver_pks@, degree),
        d.tampered(suite.receiver_pks.len() as int, 0, delta),
        0 <= j < suite.receiver_pks.len(),
    ensures
        d.sound(suite.generators, j) <==> j != 0 || cong(
            suite.generators.g1@ * delta,
            0,
            C::order(),
        ),
{
    let n = suite.receiver_pks.len() as int;
    let off = offset_at(j, 0, delta);
    assert(d.off_by(j, off));
    law_off_share_detected(d, suite.generators, degree, n, j, off);
    assert(suite.generators.g1@ * 0 == 0) by (nonlinear_arith);
}

/// A dealer that tampers with nothing deals shares that all check.
pub proof fn law_honest_dealer_sound<C: Curve, X: Carrier<C>>(
    contribution: Contribution<C, X>,
    suite: Suite<C>,
    degree: int,
)
    requires
        contribution.valid(suite, degree),
        contribution.tampered(None, suite.receiver_pks.len() as int),
    ensures
        contribution.xy.sound_throughout(suite.generators),
        contribution.z.sound_throughout(suite.generators),
{
    let n = suite.receiver_pks.len() as int;
    assert(suite.generators.g1@ * 0 == 0) by (nonlinear_arith);
    assert forall|j: int| 0 <= j < n implies #[trigger] contribution.xy.sound(
        suite.generators,
        j,
    ) by {
        lemma_first_off(contribution.xy, suite, degree, 0, j);
    }
    assert forall|j: int| 0 <= j < n implies #[trigger] contribution.z.sound(
        suite.generators,
        j,
    ) by {
        lemma_first_off(contribution.z, suite, degree, 0, j);
    }
}

/// What dealer `i` tampers with, by the layers that the dealers corrupt and their offsets.
pub open spec fn tampering_of<C: Curve>(
    malice: Map<usize, Layer>,
    offsets: Map<usize, Scalar<C>>,
    i: int,
) -> Tampering<C> {
    if 0 <= i <= usize::MAX && malice.contains_key(i as usize) && offsets.contains_key(i as usize) {
        Some((malice[i as usize], offsets[i as usize]))
    } else {
        None
    }
}

/// Looks up what dealer `i` tampers with.
pub fn tampering_at<C: Curve>(
    malice: &BTreeMap<usize, Layer>,
    offsets: &BTreeMap<usize, Scalar<C>>,
    i: usize,
) -> (r: Tampering<C>)
    ensures
        r == tampering_of(malice@, offsets@, i as int),
{
    match (malice.get(&i), offsets.get(&i)) {
        (Some(layer), Some(delta)) => Some((*layer, *delta)),
        _ => None,
    }
}

/// What a run of `n` dealers guarantees: it is settled, the dealers tamper as their malice and
/// offsets say, and those without malice qualify.
pub open spec fn ran<C: Curve, X: Carrier<C>>(
    run: FiveRun<C, X>,
    suite: Suite<C>,
    degree: int,
    malice: Map<usize, Layer>,
    offsets: Map<usize, Scalar<C>>,
) -> bool {
    let n = suite.receiver_pks.len() as int;
    &&& run.settled(suite, degree)
    &&& forall|i: int|
        0 <= i < n ==> (#[trigger] run.contributions.at(i)).tampered(
            tampering_of(malice, offsets, i),
            n,
        )
    &&& forall|i: usize| i < n && !malice.contains_key(i) ==> #[trigger] run.qual@.contains(i)
}

/// A settled run whose dealers tamper as their malice says lets those without malice qualify.
pub proof fn lemma_ran<C: Curve, X: Carrier<C>>(
    run: FiveRun<C, X>,
    suite: Suite<C>,
    degree: int,
    malice: Map<usize, Layer>,
    offsets: Map<usize, Scalar<C>>,
)
    requires
        run.settled(suite, degree),
        forall|i: int|
            0 <= i < suite.receiver_pks.len() ==> (#[trigger] run.contributions.at(i)).tampered(
                tampering_of(malice, offsets, i),
                suite.receiver_pks.len() as int,
            ),
    ensures
        ran(run, suite, degree, malice, offsets),
{
    let n = suite.receiver_pks.len() as int;
    assert forall|i: usize| i < n && !malice.contains_key(i) implies #[trigger] run.qual@.contains(
        i,
    ) by {
        let c = run.contributions.at(i as int);
        assert(c.valid(suite, degree));
        assert(c.tampered(tampering_of(malice, offsets, i as int), n));
        law_honest_dealer_sound(c, suite, degree);
    }
}

/// The dealers that corrupt a layer.
pub open spec fn corrupting(malice: Map<usize, Layer>, layer: Layer) -> Set<usize> {
    malice.dom().filter(|i: usize| malice[i] == layer)
}

/// The first receiver is everybody's victim.
pub open spec fn first_receiver() -> spec_fn(int) -> int {
    |d: int| 0int
}

/// Where every offset shows, a share checks unless it is the first receiver's in the layer that the
/// dealer corrupts.
proof fn lemma_sound_at<C: Curve, X: Carrier<C>>(
    run: FiveRun<C, X>,
    suite: Suite<C>,
    degree: int,
    malice: Map<usize, Layer>,
    offsets: Map<usize, Scalar<C>>,
    d: int,
    j: int,
)
    requires
        ran(run, suite, degree, malice, offsets),
        offsets.dom() == malice.dom(),
        telling(offsets, suite.generators.g1@),
        0 <= d < suite.receiver_pks.len(),
        0 <= j < suite.receiver_pks.len(),
    ensures
        run.contributions.xy[d].sound(suite.generators, j) <==> !(corrupting(
            malice,
            Layer::Xy,
        ).contains(d as usize) && j == 0),
        run.contributions.z[d].sound(suite.generators, j) <==> !(corrupting(
            malice,
            Layer::Z,
        ).contains(d as usize) && j == 0),
{
    let c = run.contributions.at(d);
    let t = tampering_of(malice, offsets, d);
    assert(c.valid(suite, degree));
    assert(c.tampered(t, suite.receiver_pks.len() as int));
    assert(malice.dom().contains(d as usize) == offsets.dom().contains(d as usize));
    assert(malice.contains_key(d as usize) == offsets.contains_key(d as usize));
    assert(suite.generators.g1@ * 0 == 0) by (nonlinear_arith);
    lemma_first_off(c.xy, suite, degree, offset_in(t, Layer::Xy), j);
    lemma_first_off(c.z, suite, degree, offset_in(t, Layer::Z), j);
}

/// Where every offset shows, each dishonest dealer draws exactly one complaint, of the first receiver
/// and in the layer that it corrupts; nobody else draws any; exactly the honest qualify; and the key
/// reconstructs wherever there is one among them.
pub proof fn law_run_by_malice<C: Curve, X: Carrier<C>>(
    run: FiveRun<C, X>,
    suite: Suite<C>,
    degree: int,
    malice: Map<usize, Layer>,
    offsets: Map<usize, Scalar<C>>,
)
    requires
        ran(run, suite, degree, malice, offsets),
        offsets.dom() == malice.dom(),
        telling(offsets, suite.generators.g1@),
        forall|i: usize| #[trigger] malice.contains_key(i) ==> i < suite.receiver_pks.len(),
    ensures
        pairs(run.complaints_xy@) == one_each(
            corrupting(malice, Layer::Xy),
            first_receiver(),
            suite.receiver_pks.len() as int,
        ),
        pairs(run.complaints_z@) == one_each(
            corrupting(malice, Layer::Z),
            first_receiver(),
            suite.receiver_pks.len() as int,
        ),
        malice.dom().finite(),
        run.outcome.complaints == malice.dom().len(),
        forall|d: usize| #[trigger]
            run.qual@.contains(d) <==> d < suite.receiver_pks.len() && !malice.contains_key(d),
        run.outcome.qual == suite.receiver_pks.len() - malice.dom().len(),
        run.outcome.faulty@ == Set::<usize>::empty(),
        malice.dom().len() < suite.receiver_pks.len() && degree < suite.receiver_pks.len()
            ==> run.outcome.reconstructed_ok == Some(true),
{
    let n = suite.receiver_pks.len() as int;
    let dealt = run.contributions;
    let (bad_xy, bad_z) = (corrupting(malice, Layer::Xy), corrupting(malice, Layer::Z));
    let (sound_xy, sound_z) = (
        soundness(dealt.xy@, suite.generators),
        soundness(dealt.z@, suite.generators),
    );
    let victim = first_receiver();
    assert forall|d: int, j: int| 0 <= d < n && 0 <= j < n implies (#[trigger] sound_xy(d, j)
        <==> !(bad_xy.contains(d as usize) && j == victim(d))) by {
        lemma_sound_at(run, suite, degree, malice, offsets, d, j);
    }
    assert forall|d: int, j: int| 0 <= d < n && 0 <= j < n implies (#[trigger] sound_z(d, j) <==> !(
    bad_z.contains(d as usize) && j == victim(d))) by {
        lemma_sound_at(run, suite, degree, malice, offsets, d, j);
    }
    if n == 0 {
        assert(malice.dom() =~= Set::empty());
    }
    assert(forall|d: int| 0 <= d < n ==> 0 <= #[trigger] victim(d) < n);
    law_one_accusation_each(sound_xy, n, bad_xy, victim);
    law_one_accusation_each(sound_z, n, bad_z, victim);
    assert(pairs(run.complaints_xy@) =~= failures(sound_xy, n));
    assert(pairs(run.complaints_z@) =~= failures(sound_z, n));
    assert(bad_xy.disjoint(bad_z));
    vstd::set_lib::lemma_set_disjoint_lens(bad_xy, bad_z);
    assert(bad_xy + bad_z =~= malice.dom()) by {
        assert forall|i: usize| malice.dom().contains(i) implies bad_xy.contains(i)
            || bad_z.contains(i) by {
            match malice[i] {
                Layer::Xy => {},
                Layer::Z => {},
            }
        }
    }
    assert forall|d: usize| #[trigger] run.qual@.contains(d) <==> d < n && !malice.contains_key(
        d,
    ) by {
        if d < n && malice.contains_key(d) {
            let c = dealt.at(d as int);
            assert(c.valid(suite, degree));
            match malice[d] {
                Layer::Xy => {
                    assert(bad_xy.contains(d));
                    assert(!sound_xy(d as int, 0));
                    assert(!dealt.xy[d as int].sound(suite.generators, 0));
                },
                Layer::Z => {
                    assert(bad_z.contains(d));
                    assert(!sound_z(d as int, 0));
                    assert(!dealt.z[d as int].sound(suite.generators, 0));
                },
            }
            assert(!dealt.sound(suite, d as int));
        }
    }
    lemma_rest_len(n, malice.dom(), run.qual@);
}

} // verus!
