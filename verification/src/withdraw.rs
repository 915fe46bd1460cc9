//! The withdrawal engine: per-principal mutual exclusion around the
//! burn-then-sign sequence, and deterministic coupon regeneration after a
//! crash between burn and coupon delivery.
//!
//! The ledger burn and the threshold signing are suspension points driven
//! from outside; the engine exposes one checked step per stage.

use vstd::prelude::*;

use crate::audit::Audited;
use crate::coupon::spec_coupon_valid;
use crate::events::Coupon;
use crate::events::{
    clone_bytes, spec_is_anonymous, CouponModel, PrincipalId, WithdrawalEvent, WithdrawalModel,
};
use crate::state::{
    contains_principal, contains_wd, wd_index, State, StateModel,
};

verus! {

/// Why a withdrawal request was refused.
#[derive(Debug, PartialEq, Eq)]
pub enum WithdrawError {
    AnonymousCaller,
    AmountTooLow,
    AlreadyProcessing,
    SigningFailed,
    Unauthorized,
    NotFound,
}

/// The policy decision a withdrawal request meets, in checking order.
#[verifier::ext_equal]
pub ghost enum WithdrawDecision {
    RejectAnonymous,
    RejectAmountTooLow,
    RejectAlreadyProcessing,
    Accept { burn_id: u64 },
}

pub open spec fn spec_withdraw_decision(
    m: StateModel,
    p: Seq<u8>,
    amount: u128,
) -> WithdrawDecision {
    if spec_is_anonymous(p) {
        WithdrawDecision::RejectAnonymous
    } else if amount < m.minimum_withdrawal_amount {
        WithdrawDecision::RejectAmountTooLow
    } else if contains_principal(m.withdrawing, p) {
        WithdrawDecision::RejectAlreadyProcessing
    } else {
        WithdrawDecision::Accept { burn_id: m.burn_id_counter }
    }
}

/// Opens a withdrawal: rejects anonymous callers and amounts below the
/// floor, takes the caller's slot, and grants the burn identifier. The
/// ledger burn that follows is the caller's next step.
pub fn start_withdrawal(a: &mut Audited, caller: &PrincipalId, amount: u128) -> (r: Result<
    u64,
    WithdrawError,
>)
    requires
        old(a).wf(),
        old(a).state@.burn_id_counter < u64::MAX,
    ensures
        final(a).wf(),
        final(a).events() == old(a).events(),
        match spec_withdraw_decision(old(a).state@, caller@, amount) {
            WithdrawDecision::RejectAnonymous => r == Err::<u64, WithdrawError>(
                WithdrawError::AnonymousCaller,
            ) && final(a).state@ == old(a).state@,
            WithdrawDecision::RejectAmountTooLow => r == Err::<u64, WithdrawError>(
                WithdrawError::AmountTooLow,
            ) && final(a).state@ == old(a).state@,
            WithdrawDecision::RejectAlreadyProcessing => r == Err::<u64, WithdrawError>(
                WithdrawError::AlreadyProcessing,
            ) && final(a).state@ == old(a).state@,
            WithdrawDecision::Accept { burn_id } => r == Ok::<u64, WithdrawError>(burn_id)
                && final(a).state@ == (StateModel {
                burn_id_counter: (burn_id + 1) as u64,
                ..crate::state::spec_insert_withdrawing(old(a).state@, caller@)
            }),
        },
{
    if caller.is_anonymous() {
        return Err(WithdrawError::AnonymousCaller);
    }
    if amount < a.state.minimum_withdrawal_amount {
        return Err(WithdrawError::AmountTooLow);
    }
    if a.state.is_withdrawing(caller) {
        return Err(WithdrawError::AlreadyProcessing);
    }
    a.insert_withdrawing(caller);
    let burn_id = a.next_burn_id();
    proof {
        assert(a.state@ =~= (StateModel {
            burn_id_counter: (burn_id + 1) as u64,
            ..crate::state::spec_insert_withdrawing(old(a).state@, caller@)
        }));
    }
    Ok(burn_id)
}

/// Releases the caller's slot after a failed burn; nothing is recorded.
pub fn abort_withdrawal(a: &mut Audited, caller: &PrincipalId)
    requires
        old(a).wf(),
    ensures
        final(a).wf(),
        final(a).events() == old(a).events(),
        contains_principal(old(a).state@.withdrawing, caller@) ==> final(a).state@
            == crate::state::spec_remove_withdrawing(old(a).state@, caller@),
        !contains_principal(old(a).state@.withdrawing, caller@) ==> final(a).state@ == old(
            a,
        ).state@,
{
    if a.state.is_withdrawing(caller) {
        a.remove_withdrawing(caller);
    }
}

/// Records a successful ledger burn for `burn_id`: fresh on first sight,
/// a retry bump if already recorded. `false` (and no change) where the
/// identifier is unusable: already redeemed, or never granted.
pub fn record_burn_success(
    a: &mut Audited,
    caller: &PrincipalId,
    recipient_sol_addr: Vec<u8>,
    amount: u128,
    burn_id: u64,
    ledger_burn_block: u64,
) -> (r: bool)
    requires
        old(a).wf(),
    ensures
        final(a).wf(),
        r == (contains_wd(old(a).state@.burned, burn_id) || (!contains_wd(
            old(a).state@.redeemed,
            burn_id,
        ) && burn_id < old(a).state@.burn_id_counter)),
        r ==> final(a).state@ == crate::state::spec_record_or_retry_burned(
            old(a).state@,
            WithdrawalModel {
                burn_id: burn_id,
                principal: caller@,
                recipient: recipient_sol_addr@,
                amount: amount,
                ledger_burn_block: ledger_burn_block,
                coupon: None,
                retry: 0u64,
            },
        ) && final(a).events().len() == old(a).events().len() + 1,
        !r ==> *final(a) == *old(a),
{
    let already = a.state.get_burned(burn_id).is_some();
    if !already {
        let redeemed = a.state.get_redeemed(burn_id).is_some();
        if redeemed || burn_id >= a.state.burn_id_counter {
            return false;
        }
    }
    let w = WithdrawalEvent {
        burn_id,
        principal: caller.clone_id(),
        recipient_sol_addr,
        amount,
        ledger_burn_block,
        coupon: None,
        retry: 0,
    };
    a.record_burned(w);
    true
}

/// Assembles and checks the coupon for a burned withdrawal from the
/// signer's reply, attaches it, promotes the withdrawal to redeemed, and
/// releases the caller's slot. The coupon is rebuilt purely from the
/// stored fields, so regeneration after a crash returns identical bytes.
pub fn finalize_redemption(
    a: &mut Audited,
    burn_id: u64,
    signature: Vec<u8>,
    signer_public_key: Vec<u8>,
) -> (r: Result<Coupon, WithdrawError>)
    requires
        old(a).wf(),
    ensures
        final(a).wf(),
        !contains_wd(old(a).state@.burned, burn_id) ==> r == Err::<Coupon, WithdrawError>(
            WithdrawError::NotFound,
        ) && *final(a) == *old(a),
        // success exactly when the identifier is burned and the signer's
        // reply verifies against the stored fields' digest
        r is Ok <==> contains_wd(old(a).state@.burned, burn_id) && signature@.len() == 64
            && signer_public_key@.len() == 33 && crate::crypto::secp256k1_verify_ok(
            crate::crypto::sha3_256_of(
                crate::coupon::spec_coupon_message(
                    burn_id,
                    old(a).state@.burned[wd_index(old(a).state@.burned, burn_id)].recipient,
                    old(a).state@.burned[wd_index(old(a).state@.burned, burn_id)].amount,
                ),
            ),
            signature@,
            signer_public_key@,
        ),
        r matches Ok(c) ==> {
            let w = old(a).state@.burned[wd_index(old(a).state@.burned, burn_id)];
            &&& contains_wd(old(a).state@.burned, burn_id)
            &&& c@ == (CouponModel {
                burn_id: burn_id,
                recipient: w.recipient,
                amount: w.amount,
                message_hash: crate::crypto::sha3_256_of(
                    crate::coupon::spec_coupon_message(burn_id, w.recipient, w.amount),
                ),
                signature: signature@,
                signer_public_key: signer_public_key@,
            })
            &&& spec_coupon_valid(c@)
            &&& final(a).state@ == crate::state::spec_remove_withdrawing(
                crate::state::spec_record_redeemed(
                    old(a).state@,
                    WithdrawalModel { coupon: Some(c@), ..w },
                ),
                w.principal,
            ) || final(a).state@ == crate::state::spec_record_redeemed(
                old(a).state@,
                WithdrawalModel { coupon: Some(c@), ..w },
            )
        },
        contains_wd(old(a).state@.burned, burn_id) && r is Err ==> r == Err::<
            Coupon,
            WithdrawError,
        >(WithdrawError::SigningFailed) && *final(a) == *old(a),
{
    let found = a.state.get_burned(burn_id);
    let (recipient, amount, w_full) = match found {
        None => {
            return Err(WithdrawError::NotFound);
        },
        Some(w) => (clone_bytes(&w.recipient_sol_addr), w.amount, w.clone_withdrawal()),
    };
    match Coupon::build(burn_id, &recipient, amount, signature, signer_public_key) {
        Err(_) => Err(WithdrawError::SigningFailed),
        Ok(coupon) => {
            let stored = coupon.clone_coupon();
            let w2 = WithdrawalEvent {
                burn_id: w_full.burn_id,
                principal: w_full.principal,
                recipient_sol_addr: w_full.recipient_sol_addr,
                amount: w_full.amount,
                ledger_burn_block: w_full.ledger_burn_block,
                coupon: Some(stored),
                retry: w_full.retry,
            };
            proof {
                let wm = old(a).state@.burned[wd_index(old(a).state@.burned, burn_id)];
                assert(w2@ =~= (WithdrawalModel { coupon: Some(coupon@), ..wm }));
            }
            let principal = w2.principal.clone_id();
            a.record_redeemed(w2);
            if a.state.is_withdrawing(&principal) {
                a.remove_withdrawing(&principal);
            }
            Ok(coupon)
        },
    }
}

/// What `get_coupon` finds for this caller and burn identifier.
#[verifier::ext_equal]
pub ghost enum CouponLookup {
    Redeemed(CouponModel),
    PendingSignature { recipient: Seq<u8>, amount: u128 },
    Unauthorized,
    NotFound,
}

pub open spec fn spec_coupon_lookup(m: StateModel, p: Seq<u8>, burn_id: u64) -> CouponLookup {
    if contains_wd(m.redeemed, burn_id) {
        let w = m.redeemed[wd_index(m.redeemed, burn_id)];
        if w.principal == p {
            CouponLookup::Redeemed(w.coupon.unwrap())
        } else {
            CouponLookup::Unauthorized
        }
    } else if contains_wd(m.burned, burn_id) {
        let w = m.burned[wd_index(m.burned, burn_id)];
        if w.principal == p {
            CouponLookup::PendingSignature { recipient: w.recipient, amount: w.amount }
        } else {
            CouponLookup::Unauthorized
        }
    } else {
        CouponLookup::NotFound
    }
}

/// Read-only lookup behind `get_coupon`: the stored coupon of a redeemed
/// withdrawal, the crash-recovery case of a burned one, `Unauthorized`
/// where the withdrawal belongs to someone else, `NotFound` otherwise.
pub enum CouponStatus {
    Ready(Coupon),
    PendingSignature { recipient_sol_addr: Vec<u8>, amount: u128 },
    Unauthorized,
    NotFound,
}

pub fn get_coupon_status(state: &State, caller: &PrincipalId, burn_id: u64) -> (r: CouponStatus)
    requires
        crate::state::wf(state@),
    ensures
        match spec_coupon_lookup(state@, caller@, burn_id) {
            CouponLookup::Redeemed(c) => r matches CouponStatus::Ready(rc) && rc@ == c,
            CouponLookup::PendingSignature { recipient, amount } => r
                matches CouponStatus::PendingSignature { recipient_sol_addr: rr, amount: ra }
                && rr@ == recipient && ra == amount,
            CouponLookup::Unauthorized => r is Unauthorized,
            CouponLookup::NotFound => r is NotFound,
        },
{
    match state.get_redeemed(burn_id) {
        Some(w) => {
            if crate::bytes::bytes_eq(&w.principal.bytes, &caller.bytes) {
                match &w.coupon {
                    Some(c) => CouponStatus::Ready(c.clone_coupon()),
                    None => {
                        proof {
                            assert(false);
                        }
                        CouponStatus::NotFound
                    },
                }
            } else {
                CouponStatus::Unauthorized
            }
        },
        None => match state.get_burned(burn_id) {
            Some(w) => {
                if crate::bytes::bytes_eq(&w.principal.bytes, &caller.bytes) {
                    CouponStatus::PendingSignature {
                        recipient_sol_addr: clone_bytes(&w.recipient_sol_addr),
                        amount: w.amount,
                    }
                } else {
                    CouponStatus::Unauthorized
                }
            },
            None => CouponStatus::NotFound,
        },
    }
}

// ---------------------------------------------------------------------------
// Laws
// ---------------------------------------------------------------------------

/// Two concurrent withdrawals by one principal: the first is accepted and
/// takes the slot; the second, arriving before the slot is released, is
/// refused as already processing and changes nothing of the decision
/// state.
pub proof fn lemma_withdraw_mutual_exclusion(m: StateModel, p: Seq<u8>, amount: u128)
    requires
        crate::state::wf(m),
        !spec_is_anonymous(p),
        amount >= m.minimum_withdrawal_amount,
        !contains_principal(m.withdrawing, p),
        m.burn_id_counter < u64::MAX,
    ensures
        spec_withdraw_decision(m, p, amount) == (WithdrawDecision::Accept {
            burn_id: m.burn_id_counter,
        }),
        spec_withdraw_decision(
            StateModel {
                burn_id_counter: (m.burn_id_counter + 1) as u64,
                ..crate::state::spec_insert_withdrawing(m, p)
            },
            p,
            amount,
        ) == WithdrawDecision::RejectAlreadyProcessing,
{
    let m2 = StateModel {
        burn_id_counter: (m.burn_id_counter + 1) as u64,
        ..crate::state::spec_insert_withdrawing(m, p)
    };
    assert(m2.withdrawing[m.withdrawing.len() as int] == p);
    assert(contains_principal(m2.withdrawing, p));
}

/// The boundary of the withdrawal floor: one unit below the minimum is
/// refused, the minimum itself passes the amount check.
pub proof fn lemma_minimum_amount_boundary(m: StateModel, p: Seq<u8>)
    requires
        crate::state::wf(m),
        !spec_is_anonymous(p),
        m.minimum_withdrawal_amount > 0,
    ensures
        spec_withdraw_decision(m, p, (m.minimum_withdrawal_amount - 1) as u128)
            == WithdrawDecision::RejectAmountTooLow,
        spec_withdraw_decision(m, p, m.minimum_withdrawal_amount)
            != WithdrawDecision::RejectAmountTooLow,
{
}

/// Reading the coupon of a redeemed withdrawal never changes state and
/// always yields the stored coupon, so any number of calls return
/// byte-identical coupons; and the stored coupon repeats the withdrawal's
/// own fields and verifies.
pub proof fn lemma_get_coupon_stable(m: StateModel, p: Seq<u8>, burn_id: u64)
    requires
        crate::state::wf(m),
        contains_wd(m.redeemed, burn_id),
        m.redeemed[wd_index(m.redeemed, burn_id)].principal == p,
    ensures
        spec_coupon_lookup(m, p, burn_id) == CouponLookup::Redeemed(
            m.redeemed[wd_index(m.redeemed, burn_id)].coupon.unwrap(),
        ),
        spec_coupon_valid(m.redeemed[wd_index(m.redeemed, burn_id)].coupon.unwrap()),
{
    let w = m.redeemed[wd_index(m.redeemed, burn_id)];
    assert(crate::coupon::spec_coupon_matches_withdrawal(w));
}

/// A burn identifier owned by another principal answers `Unauthorized`,
/// never `NotFound`.
pub proof fn lemma_get_coupon_unauthorized(m: StateModel, p: Seq<u8>, burn_id: u64)
    requires
        crate::state::wf(m),
        contains_wd(m.redeemed, burn_id) ==> m.redeemed[wd_index(
            m.redeemed,
            burn_id,
        )].principal != p,
        contains_wd(m.burned, burn_id) ==> m.burned[wd_index(m.burned, burn_id)].principal != p,
        contains_wd(m.redeemed, burn_id) || contains_wd(m.burned, burn_id),
    ensures
        spec_coupon_lookup(m, p, burn_id) == CouponLookup::Unauthorized,
{
}


/// The burn identifiers among `s` that belong to `p`, in table order.
pub open spec fn spec_user_burn_ids(s: Seq<WithdrawalModel>, p: Seq<u8>) -> Seq<u64>
    decreases s.len(),
{
    if s.len() == 0 {
        Seq::empty()
    } else {
        let rest = spec_user_burn_ids(s.drop_last(), p);
        if s.last().principal == p {
            rest.push(s.last().burn_id)
        } else {
            rest
        }
    }
}

fn user_burn_ids(v: &Vec<WithdrawalEvent>, p: &PrincipalId) -> (r: Vec<u64>)
    ensures
        r@ == spec_user_burn_ids(v@.map(|i: int, w: WithdrawalEvent| w@), p@),
{
    let ghost ws = v@.map(|i: int, w: WithdrawalEvent| w@);
    let mut r: Vec<u64> = Vec::new();
    let n = v.len();
    let mut i: usize = 0;
    while i < n
        invariant
            n == v@.len(),
            i <= n,
            ws == v@.map(|i: int, w: WithdrawalEvent| w@),
            r@ == spec_user_burn_ids(ws.subrange(0, i as int), p@),
        decreases n - i,
    {
        proof {
            assert(ws.subrange(0, i + 1 as int).drop_last() =~= ws.subrange(0, i as int));
            assert(ws.subrange(0, i + 1 as int).last() == ws[i as int]);
            assert(ws[i as int] == v@[i as int]@);
        }
        if crate::bytes::bytes_eq(&v[i].principal.bytes, &p.bytes) {
            r.push(v[i].burn_id);
        }
        i += 1;
    }
    proof {
        assert(ws.subrange(0, n as int) =~= ws);
    }
    r
}

/// A caller's view of their withdrawals: the burn identifiers still
/// waiting for a coupon, those already redeemed, and the current floor.
pub struct UserWithdrawInfo {
    pub pending_burn_ids: Vec<u64>,
    pub redeemed_burn_ids: Vec<u64>,
    pub minimum_withdrawal_amount: u128,
}

pub fn get_withdraw_info(state: &State, caller: &PrincipalId) -> (r: UserWithdrawInfo)
    ensures
        r.pending_burn_ids@ == spec_user_burn_ids(state@.burned, caller@),
        r.redeemed_burn_ids@ == spec_user_burn_ids(state@.redeemed, caller@),
        r.minimum_withdrawal_amount == state@.minimum_withdrawal_amount,
{
    UserWithdrawInfo {
        pending_burn_ids: user_burn_ids(&state.withdrawal_burned_events, caller),
        redeemed_burn_ids: user_burn_ids(&state.withdrawal_redeemed_events, caller),
        minimum_withdrawal_amount: state.minimum_withdrawal_amount,
    }
}

} // verus!
