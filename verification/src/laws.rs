//! The library's standing laws, each proved from the state's
//! well-formedness and the transition functions' contracts.

use vstd::prelude::*;

use crate::coupon::{spec_coupon_matches_withdrawal, spec_coupon_valid};
use crate::events::{spec_inc_retry, SigModel};
use crate::state::{
    contains_dep, contains_sig, contains_wd, sig_index, spec_record_or_retry_signature, wf,
    StateModel,
};

verus! {

/// A signature belongs to at most one of the four deposit stages:
/// pending, invalid, accepted, minted.
pub proof fn lemma_signature_stage_exclusive(m: StateModel, k: Seq<u8>)
    requires
        wf(m),
    ensures
        !(contains_sig(m.signatures, k) && contains_sig(m.invalid, k)),
        !(contains_sig(m.signatures, k) && contains_dep(m.accepted, k)),
        !(contains_sig(m.signatures, k) && contains_dep(m.minted, k)),
        !(contains_sig(m.invalid, k) && contains_dep(m.accepted, k)),
        !(contains_sig(m.invalid, k) && contains_dep(m.minted, k)),
        !(contains_dep(m.accepted, k) && contains_dep(m.minted, k)),
{
    if contains_sig(m.signatures, k) {
        let i = choose|i: int| 0 <= i < m.signatures.len() && m.signatures[i].sig == k;
        if contains_sig(m.invalid, k) {
            let j = choose|j: int| 0 <= j < m.invalid.len() && m.invalid[j].sig == k;
            assert(m.signatures[i].sig != m.invalid[j].sig);
        }
        if contains_dep(m.accepted, k) {
            let j = choose|j: int| 0 <= j < m.accepted.len() && m.accepted[j].sig == k;
            assert(m.signatures[i].sig != m.accepted[j].sig);
        }
        if contains_dep(m.minted, k) {
            let j = choose|j: int| 0 <= j < m.minted.len() && m.minted[j].sig == k;
            assert(m.signatures[i].sig != m.minted[j].sig);
        }
    }
    if contains_sig(m.invalid, k) {
        let i = choose|i: int| 0 <= i < m.invalid.len() && m.invalid[i].sig == k;
        if contains_dep(m.accepted, k) {
            let j = choose|j: int| 0 <= j < m.accepted.len() && m.accepted[j].sig == k;
            assert(m.invalid[i].sig != m.accepted[j].sig);
        }
        if contains_dep(m.minted, k) {
            let j = choose|j: int| 0 <= j < m.minted.len() && m.minted[j].sig == k;
            assert(m.invalid[i].sig != m.minted[j].sig);
        }
    }
    if contains_dep(m.accepted, k) {
        let i = choose|i: int| 0 <= i < m.accepted.len() && m.accepted[i].sig == k;
        if contains_dep(m.minted, k) {
            let j = choose|j: int| 0 <= j < m.minted.len() && m.minted[j].sig == k;
            assert(m.accepted[i].sig != m.minted[j].sig);
        }
    }
}

/// A withdrawal is burned or redeemed, never both, and carries its coupon
/// exactly when redeemed.
pub proof fn lemma_withdrawal_stage_exclusive(m: StateModel, id: u64)
    requires
        wf(m),
    ensures
        !(contains_wd(m.burned, id) && contains_wd(m.redeemed, id)),
        forall|i: int| 0 <= i < m.burned.len() ==> (#[trigger] m.burned[i]).coupon is None,
        forall|i: int|
            0 <= i < m.redeemed.len() ==> (#[trigger] m.redeemed[i]).coupon is Some,
{
    if contains_wd(m.burned, id) && contains_wd(m.redeemed, id) {
        let i = choose|i: int| 0 <= i < m.burned.len() && m.burned[i].burn_id == id;
        let j = choose|j: int| 0 <= j < m.redeemed.len() && m.redeemed[j].burn_id == id;
        assert(m.burned[i].burn_id != m.redeemed[j].burn_id);
    }
    assert forall|i: int|
        0 <= i < m.redeemed.len() implies (#[trigger] m.redeemed[i]).coupon is Some by {
        assert(spec_coupon_matches_withdrawal(m.redeemed[i]));
    }
}

/// Every coupon the library has emitted verifies: its message hash is the
/// digest of its own fields' message and its signature checks under the
/// signer key; and it repeats its withdrawal's fields.
pub proof fn lemma_emitted_coupons_valid(m: StateModel, i: int)
    requires
        wf(m),
        0 <= i < m.redeemed.len(),
    ensures
        m.redeemed[i].coupon is Some,
        spec_coupon_valid(m.redeemed[i].coupon.unwrap()),
        m.redeemed[i].coupon.unwrap().burn_id == m.redeemed[i].burn_id,
        m.redeemed[i].coupon.unwrap().recipient == m.redeemed[i].recipient,
        m.redeemed[i].coupon.unwrap().amount == m.redeemed[i].amount,
{
    assert(spec_coupon_matches_withdrawal(m.redeemed[i]));
}

/// Deposit identifiers are injective across everything ever accepted or
/// minted, inside the current counter window.
pub proof fn lemma_deposit_id_injective(m: StateModel)
    requires
        wf(m),
    ensures
        forall|i: int, j: int|
            0 <= i < j < m.accepted.len() ==> m.accepted[i].deposit_id != m.accepted[j].deposit_id,
        forall|i: int, j: int|
            0 <= i < j < m.minted.len() ==> m.minted[i].deposit_id != m.minted[j].deposit_id,
        forall|i: int, j: int|
            0 <= i < m.accepted.len() && 0 <= j < m.minted.len() ==> m.accepted[i].deposit_id
                != m.minted[j].deposit_id,
        forall|i: int|
            0 <= i < m.accepted.len() ==> (#[trigger] m.accepted[i]).deposit_id
                < m.deposit_id_counter,
        forall|i: int|
            0 <= i < m.minted.len() ==> (#[trigger] m.minted[i]).deposit_id
                < m.deposit_id_counter,
{
}

/// Burn identifiers are injective across everything ever burned or
/// redeemed, inside the current counter window.
pub proof fn lemma_burn_id_injective(m: StateModel)
    requires
        wf(m),
    ensures
        forall|i: int, j: int|
            0 <= i < j < m.burned.len() ==> m.burned[i].burn_id != m.burned[j].burn_id,
        forall|i: int, j: int|
            0 <= i < j < m.redeemed.len() ==> m.redeemed[i].burn_id != m.redeemed[j].burn_id,
        forall|i: int, j: int|
            0 <= i < m.burned.len() && 0 <= j < m.redeemed.len() ==> m.burned[i].burn_id
                != m.redeemed[j].burn_id,
        forall|i: int|
            0 <= i < m.burned.len() ==> (#[trigger] m.burned[i]).burn_id < m.burn_id_counter,
        forall|i: int|
            0 <= i < m.redeemed.len() ==> (#[trigger] m.redeemed[i]).burn_id < m.burn_id_counter,
{
}

/// Recording a signature twice is recording it once and then bumping the
/// retry counter of the recorded entry: the second application is exactly
/// one in-place retry increment.
pub proof fn lemma_record_signature_twice(m: StateModel, s: SigModel)
    requires
        wf(m),
    ensures
        contains_sig(spec_record_or_retry_signature(m, s).signatures, s.sig),
        ({
            let m1 = spec_record_or_retry_signature(m, s);
            let i = sig_index(m1.signatures, s.sig);
            spec_record_or_retry_signature(m1, s) == (StateModel {
                signatures: m1.signatures.update(
                    i,
                    SigModel {
                        retry: spec_inc_retry(m1.signatures[i].retry),
                        ..m1.signatures[i]
                    },
                ),
                ..m1
            })
        }),
{
    let m1 = spec_record_or_retry_signature(m, s);
    if contains_sig(m.signatures, s.sig) {
        let i0 = sig_index(m.signatures, s.sig);
        assert(0 <= i0 < m.signatures.len() && m.signatures[i0].sig == s.sig);
        assert(m1.signatures[i0].sig == s.sig);
        assert(forall|a: int|
            0 <= a < m1.signatures.len() ==> m1.signatures[a].sig == m.signatures[a].sig);
        crate::state::lemma_sig_index(m1.signatures, s.sig, i0);
    } else {
        let last = m.signatures.len() as int;
        assert(m1.signatures[last].sig == s.sig);
        assert forall|a: int, b: int|
            0 <= a < b < m1.signatures.len() implies m1.signatures[a].sig
            != m1.signatures[b].sig by {
            if b == last {
                assert(m1.signatures[a] == m.signatures[a]);
                if m.signatures[a].sig == s.sig {
                    assert(contains_sig(m.signatures, s.sig));
                }
            }
        }
        crate::state::lemma_sig_index(m1.signatures, s.sig, last);
    }
}

} // verus!
