//! The append-only event log and its replay.
//!
//! Every state transition of the deposit and withdrawal lifecycles is
//! recorded as one event; replaying the log through the same transition
//! functions rebuilds the persistent part of the state. [`Audited`] couples
//! a live state with its log and carries that correspondence as its
//! well-formedness invariant.

use vstd::prelude::*;

use crate::coupon::spec_coupon_matches_withdrawal;
use crate::events::{
    DepositEvent, DepositModel, SigModel, SigRangeModel, SolanaSignature, SolanaSignatureRange,
    WithdrawalEvent, WithdrawalModel,
};
use crate::state::{
    contains_dep, contains_principal, contains_range, contains_sig, contains_wd, dep_index,
    find_dep_index,
    find_range_index, find_sig_index, find_wd_index, is_blank, lemma_dep_index, lemma_range_index,
    lemma_sig_index, lemma_wd_index, range_key, spec_apply_upgrade, spec_config_valid,
    spec_init_state, spec_range_key, spec_record_invalid, spec_record_minted,
    spec_record_or_retry_accepted, spec_record_or_retry_burned, spec_record_or_retry_signature,
    spec_record_redeemed, spec_record_signature_range, spec_remove_signature_range,
    spec_retry_signature_range, wf, InitArg, InitModel, InvalidStateError, State, StateModel,
    UpgradeArg,
    UpgradeModel,
};

verus! {

/// The closed set of recorded event kinds.
pub enum Event {
    Init(InitArg),
    Upgrade(UpgradeArg),
    LastKnownSolanaSignature(Vec<u8>),
    LastDepositIdCounter(u64),
    LastBurnIdCounter(u64),
    SignatureRangeRecorded(SolanaSignatureRange),
    SignatureRangeRetried { old_range: SolanaSignatureRange, new_range: Option<SolanaSignatureRange> },
    SignatureRangeRemoved(SolanaSignatureRange),
    SignatureDiscovered(SolanaSignature),
    InvalidEventRecorded(SolanaSignature),
    AcceptedEventRecorded(DepositEvent),
    MintedEventRecorded(DepositEvent),
    WithdrawalBurnedRecorded(WithdrawalEvent),
    WithdrawalRedeemedRecorded(WithdrawalEvent),
}

#[verifier::ext_equal]
pub ghost enum EventModel {
    Init(InitModel),
    Upgrade(UpgradeModel),
    LastKnownSolanaSignature(Seq<u8>),
    LastDepositIdCounter(u64),
    LastBurnIdCounter(u64),
    SignatureRangeRecorded(SigRangeModel),
    SignatureRangeRetried { old_range: SigRangeModel, new_range: Option<SigRangeModel> },
    SignatureRangeRemoved(SigRangeModel),
    SignatureDiscovered(SigModel),
    InvalidEventRecorded(SigModel),
    AcceptedEventRecorded(DepositModel),
    MintedEventRecorded(DepositModel),
    WithdrawalBurnedRecorded(WithdrawalModel),
    WithdrawalRedeemedRecorded(WithdrawalModel),
}

impl View for Event {
    type V = EventModel;

    open spec fn view(&self) -> EventModel {
        match self {
            Event::Init(a) => EventModel::Init(a@),
            Event::Upgrade(a) => EventModel::Upgrade(a@),
            Event::LastKnownSolanaSignature(s) => EventModel::LastKnownSolanaSignature(s@),
            Event::LastDepositIdCounter(n) => EventModel::LastDepositIdCounter(*n),
            Event::LastBurnIdCounter(n) => EventModel::LastBurnIdCounter(*n),
            Event::SignatureRangeRecorded(r) => EventModel::SignatureRangeRecorded(r@),
            Event::SignatureRangeRetried { old_range, new_range } => EventModel::SignatureRangeRetried {
                old_range: old_range@,
                new_range: match new_range {
                    Some(n) => Some(n@),
                    None => None,
                },
            },
            Event::SignatureRangeRemoved(r) => EventModel::SignatureRangeRemoved(r@),
            Event::SignatureDiscovered(s) => EventModel::SignatureDiscovered(s@),
            Event::InvalidEventRecorded(s) => EventModel::InvalidEventRecorded(s@),
            Event::AcceptedEventRecorded(d) => EventModel::AcceptedEventRecorded(d@),
            Event::MintedEventRecorded(d) => EventModel::MintedEventRecorded(d@),
            Event::WithdrawalBurnedRecorded(w) => EventModel::WithdrawalBurnedRecorded(w@),
            Event::WithdrawalRedeemedRecorded(w) => EventModel::WithdrawalRedeemedRecorded(w@),
        }
    }
}

/// Raises a counter just past a granted identifier, as replay recomputes
/// counters from the identifiers it sees.
pub open spec fn spec_bump_counter(c: u64, id: u64) -> u64 {
    if id == u64::MAX {
        c
    } else if id + 1 > c {
        (id + 1) as u64
    } else {
        c
    }
}

/// One replay step: the state an event leads to, or nothing where the
/// event is illegal in this state.
pub open spec fn spec_apply_event(m: StateModel, e: EventModel) -> Option<StateModel> {
    match e {
        EventModel::Init(_) => None,
        EventModel::Upgrade(u) => {
            let m2 = spec_apply_upgrade(m, u);
            if spec_config_valid(m2) {
                Some(m2)
            } else {
                None
            }
        },
        EventModel::LastKnownSolanaSignature(s) => Some(
            StateModel { solana_last_known_signature: Some(s), ..m },
        ),
        EventModel::LastDepositIdCounter(n) => {
            if (forall|i: int| 0 <= i < m.accepted.len() ==> #[trigger] m.accepted[i].deposit_id < n)
                && (forall|i: int|
                0 <= i < m.minted.len() ==> #[trigger] m.minted[i].deposit_id < n) {
                Some(StateModel { deposit_id_counter: n, ..m })
            } else {
                None
            }
        },
        EventModel::LastBurnIdCounter(n) => {
            if (forall|i: int| 0 <= i < m.burned.len() ==> #[trigger] m.burned[i].burn_id < n) && (
            forall|i: int| 0 <= i < m.redeemed.len() ==> #[trigger] m.redeemed[i].burn_id < n) {
                Some(StateModel { burn_id_counter: n, ..m })
            } else {
                None
            }
        },
        EventModel::SignatureRangeRecorded(r) => {
            if r.before != r.until && !contains_range(m.ranges, spec_range_key(r.before, r.until)) {
                Some(spec_record_signature_range(m, r))
            } else {
                None
            }
        },
        EventModel::SignatureRangeRetried { old_range, new_range } => {
            let ok = spec_range_key(old_range.before, old_range.until);
            if contains_range(m.ranges, ok) && (new_range matches Some(n) ==> n.before != n.until
                && (spec_range_key(n.before, n.until) == ok || !contains_range(
                m.ranges,
                spec_range_key(n.before, n.until),
            ))) {
                Some(spec_retry_signature_range(m, ok, new_range))
            } else {
                None
            }
        },
        EventModel::SignatureRangeRemoved(r) => {
            let k = spec_range_key(r.before, r.until);
            if contains_range(m.ranges, k) {
                Some(spec_remove_signature_range(m, k))
            } else {
                None
            }
        },
        EventModel::SignatureDiscovered(s) => {
            if contains_sig(m.signatures, s.sig) || (!contains_sig(m.invalid, s.sig)
                && !contains_dep(m.accepted, s.sig) && !contains_dep(m.minted, s.sig)) {
                Some(spec_record_or_retry_signature(m, s))
            } else {
                None
            }
        },
        EventModel::InvalidEventRecorded(s) => {
            if contains_sig(m.signatures, s.sig) {
                Some(spec_record_invalid(m, s))
            } else {
                None
            }
        },
        EventModel::AcceptedEventRecorded(d) => {
            if contains_dep(m.accepted, d.sig) {
                Some(spec_record_or_retry_accepted(m, d))
            } else if contains_sig(m.signatures, d.sig) && d.deposit_id < u64::MAX && (forall|
                i: int,
            |
                0 <= i < m.accepted.len() ==> #[trigger] m.accepted[i].deposit_id != d.deposit_id)
                && (forall|i: int|
                0 <= i < m.minted.len() ==> #[trigger] m.minted[i].deposit_id != d.deposit_id) {
                Some(
                    StateModel {
                        deposit_id_counter: spec_bump_counter(m.deposit_id_counter, d.deposit_id),
                        ..spec_record_or_retry_accepted(m, d)
                    },
                )
            } else {
                None
            }
        },
        EventModel::MintedEventRecorded(d) => {
            if contains_dep(m.accepted, d.sig) && m.accepted[dep_index(m.accepted, d.sig)].deposit_id
                == d.deposit_id {
                Some(spec_record_minted(m, d))
            } else {
                None
            }
        },
        EventModel::WithdrawalBurnedRecorded(w) => {
            if contains_wd(m.burned, w.burn_id) {
                Some(spec_record_or_retry_burned(m, w))
            } else if !contains_wd(m.redeemed, w.burn_id) && w.burn_id < u64::MAX && w.coupon is None {
                Some(
                    StateModel {
                        burn_id_counter: spec_bump_counter(m.burn_id_counter, w.burn_id),
                        ..spec_record_or_retry_burned(m, w)
                    },
                )
            } else {
                None
            }
        },
        EventModel::WithdrawalRedeemedRecorded(w) => {
            if contains_wd(m.burned, w.burn_id) && spec_coupon_matches_withdrawal(w) {
                Some(spec_record_redeemed(m, w))
            } else {
                None
            }
        },
    }
}

/// Replaying a log: the first event must be a valid `Init`; every further
/// event must be legal in the state it meets.
pub open spec fn spec_replay(events: Seq<EventModel>) -> Option<StateModel>
    decreases events.len(),
{
    if events.len() == 0 {
        None
    } else if events.len() == 1 {
        match events[0] {
            EventModel::Init(a) => {
                if spec_config_valid(spec_init_state(a)) {
                    Some(spec_init_state(a))
                } else {
                    None
                }
            },
            _ => None,
        }
    } else {
        match spec_replay(events.drop_last()) {
            Some(m) => spec_apply_event(m, events.last()),
            None => None,
        }
    }
}

/// The part of the state the log describes: everything but the runtime
/// caches (signer keys), the in-flight sets and the outcall counter.
pub open spec fn spec_persistent(m: StateModel) -> StateModel {
    StateModel {
        ecdsa_public_key: None,
        ecdsa_proxy_public_key: None,
        http_request_counter: 0u64,
        withdrawing: Seq::empty(),
        active_tasks: Seq::empty(),
        ..m
    }
}

// ---------------------------------------------------------------------------
// Executable legality checks
// ---------------------------------------------------------------------------

pub(crate) fn first_dep_id_not_below(v: &Vec<DepositEvent>, n: u64) -> (r: Option<usize>)
    ensures
        match r {
            None => forall|i: int| 0 <= i < v@.len() ==> (#[trigger] v@[i])@.deposit_id < n,
            Some(i) => i < v@.len() && v@[i as int]@.deposit_id >= n,
        },
{
    let len = v.len();
    let mut i: usize = 0;
    while i < len
        invariant
            len == v@.len(),
            i <= len,
            forall|j: int| 0 <= j < i ==> v@[j]@.deposit_id < n,
        decreases len - i,
    {
        if v[i].deposit_id >= n {
            return Some(i);
        }
        i += 1;
    }
    None
}

pub(crate) fn first_dep_id_equal(v: &Vec<DepositEvent>, id: u64) -> (r: Option<usize>)
    ensures
        match r {
            None => forall|i: int| 0 <= i < v@.len() ==> (#[trigger] v@[i])@.deposit_id != id,
            Some(i) => i < v@.len() && v@[i as int]@.deposit_id == id,
        },
{
    let len = v.len();
    let mut i: usize = 0;
    while i < len
        invariant
            len == v@.len(),
            i <= len,
            forall|j: int| 0 <= j < i ==> v@[j]@.deposit_id != id,
        decreases len - i,
    {
        if v[i].deposit_id == id {
            return Some(i);
        }
        i += 1;
    }
    None
}

pub(crate) fn first_wd_id_not_below(v: &Vec<WithdrawalEvent>, n: u64) -> (r: Option<usize>)
    ensures
        match r {
            None => forall|i: int| 0 <= i < v@.len() ==> (#[trigger] v@[i])@.burn_id < n,
            Some(i) => i < v@.len() && v@[i as int]@.burn_id >= n,
        },
{
    let len = v.len();
    let mut i: usize = 0;
    while i < len
        invariant
            len == v@.len(),
            i <= len,
            forall|j: int| 0 <= j < i ==> v@[j]@.burn_id < n,
        decreases len - i,
    {
        if v[i].burn_id >= n {
            return Some(i);
        }
        i += 1;
    }
    None
}

/// Runtime form of [`spec_coupon_matches_withdrawal`].
pub fn coupon_matches_withdrawal(w: &WithdrawalEvent) -> (r: bool)
    ensures
        r == spec_coupon_matches_withdrawal(w@),
{
    match &w.coupon {
        None => false,
        Some(c) => {
            if c.burn_id != w.burn_id {
                return false;
            }
            if !crate::bytes::bytes_eq(&c.recipient_sol_addr, &w.recipient_sol_addr) {
                return false;
            }
            if c.amount != w.amount {
                return false;
            }
            if c.message_hash.len() != 32 || c.signature.len() != 64 || c.signer_public_key.len()
                != 33 {
                return false;
            }
            let message = crate::coupon::coupon_message_bytes(
                c.burn_id,
                &c.recipient_sol_addr,
                c.amount,
            );
            let expected = crate::crypto::sha3_256(&message);
            if !crate::bytes::bytes_eq(&expected, &c.message_hash) {
                return false;
            }
            crate::crypto::verify_signature(&c.message_hash, &c.signature, &c.signer_public_key)
        },
    }
}

// ---------------------------------------------------------------------------
// Executable replay
// ---------------------------------------------------------------------------

/// Applies one event to a live state: `true` and the transition exactly
/// when the event is legal there, `false` and no change otherwise.
#[verifier::rlimit(100)]
pub fn apply_event(state: &mut State, event: &Event) -> (r: bool)
    requires
        wf(old(state)@),
    ensures
        wf(final(state)@),
        r == (spec_apply_event(old(state)@, event@) is Some),
        r ==> final(state)@ == spec_apply_event(old(state)@, event@).unwrap(),
        !r ==> final(state)@ == old(state)@,
{
    let ghost m0 = state@;
    match event {
        Event::Init(_) => {
            proof {
                assert(state@ == old(state)@);
                assert(spec_apply_event(old(state)@, event@) is None);
            }
            return false;
        },
        Event::Upgrade(a) => {
            // pre-check the provided fields so an invalid delta leaves the
            // state untouched
            let key_ok = match &a.ecdsa_key_name {
                Some(k) => !is_blank(k),
                None => !is_blank(&state.ecdsa_key_name),
            };
            let addr_ok = match &a.solana_contract_address {
                Some(k) => !is_blank(k),
                None => !is_blank(&state.solana_contract_address),
            };
            let sig_ok = match &a.solana_initial_signature {
                Some(k) => !is_blank(k),
                None => !is_blank(&state.solana_initial_signature),
            };
            let min_ok = match &a.minimum_withdrawal_amount {
                Some(v) => *v > 0,
                None => state.minimum_withdrawal_amount > 0,
            };
            if key_ok && addr_ok && sig_ok && min_ok {
                let args = UpgradeArg {
                    solana_rpc_url: match &a.solana_rpc_url {
                        Some(v) => Some(crate::events::clone_bytes(v)),
                        None => None,
                    },
                    solana_contract_address: match &a.solana_contract_address {
                        Some(v) => Some(crate::events::clone_bytes(v)),
                        None => None,
                    },
                    solana_initial_signature: match &a.solana_initial_signature {
                        Some(v) => Some(crate::events::clone_bytes(v)),
                        None => None,
                    },
                    ecdsa_key_name: match &a.ecdsa_key_name {
                        Some(v) => Some(crate::events::clone_bytes(v)),
                        None => None,
                    },
                    minimum_withdrawal_amount: a.minimum_withdrawal_amount,
                };
                proof {
                    assert(args@ =~= a@);
                }
                let _ = state.upgrade(args);
                proof {
                    assert(spec_config_valid(state@));
                }
                return true;
            } else {
                proof {
                    assert(!spec_config_valid(spec_apply_upgrade(m0, a@)));
                    assert(state@ =~= m0);
                }
                return false;
            }
        },
        Event::LastKnownSolanaSignature(s) => {
            state.record_solana_last_known_signature(s);
            return true;
        },
        Event::LastDepositIdCounter(n) => {
            let acc_bad = first_dep_id_not_below(&state.accepted_events, *n);
            let min_bad = first_dep_id_not_below(&state.minted_events, *n);
            proof {
                assert(forall|i: int|
                    0 <= i < m0.accepted.len() ==> #[trigger] m0.accepted[i]
                        == state.accepted_events@[i]@);
                assert(forall|i: int|
                    0 <= i < m0.minted.len() ==> #[trigger] m0.minted[i]
                        == state.minted_events@[i]@);
                if let Some(k) = acc_bad {
                    assert(m0.accepted[k as int].deposit_id >= *n);
                }
                if let Some(k) = min_bad {
                    assert(m0.minted[k as int].deposit_id >= *n);
                }
            }
            if acc_bad.is_none() && min_bad.is_none() {
                state.set_deposit_id_counter(*n);
                return true;
            } else {
                proof {
                    assert(state@ =~= m0);
                }
                return false;
            }
        },
        Event::LastBurnIdCounter(n) => {
            let b_bad = first_wd_id_not_below(&state.withdrawal_burned_events, *n);
            let r_bad = first_wd_id_not_below(&state.withdrawal_redeemed_events, *n);
            proof {
                assert(forall|i: int|
                    0 <= i < m0.burned.len() ==> #[trigger] m0.burned[i]
                        == state.withdrawal_burned_events@[i]@);
                assert(forall|i: int|
                    0 <= i < m0.redeemed.len() ==> #[trigger] m0.redeemed[i]
                        == state.withdrawal_redeemed_events@[i]@);
                if let Some(k) = b_bad {
                    assert(m0.burned[k as int].burn_id >= *n);
                }
                if let Some(k) = r_bad {
                    assert(m0.redeemed[k as int].burn_id >= *n);
                }
            }
            if b_bad.is_none() && r_bad.is_none() {
                state.set_burn_id_counter(*n);
                return true;
            } else {
                proof {
                    assert(state@ =~= m0);
                }
                return false;
            }
        },
        Event::SignatureRangeRecorded(r) => {
            if crate::bytes::bytes_eq(&r.before_sol_sig, &r.until_sol_sig) {
                proof {
                    assert(state@ =~= m0);
                }
                return false;
            }
            let key = range_key(&r.before_sol_sig, &r.until_sol_sig);
            match find_range_index(&state.solana_signature_ranges, &key) {
                Some(i) => {
                    proof {
                        assert(m0.ranges[i as int] == state.solana_signature_ranges@[i as int]@);
                        assert(contains_range(m0.ranges, spec_range_key(r@.before, r@.until)));
                        assert(state@ =~= m0);
                    }
                    return false;
                },
                None => {
                    state.record_solana_signature_range(r.clone_range());
                    return true;
                },
            }
        },
        Event::SignatureRangeRetried { old_range, new_range } => {
            let old_key = range_key(&old_range.before_sol_sig, &old_range.until_sol_sig);
            match find_range_index(&state.solana_signature_ranges, &old_key) {
                None => {
                    proof {
                        assert(state@ =~= m0);
                    }
                    return false;
                },
                Some(i) => {
                    proof {
                        lemma_range_index(
                            m0.ranges,
                            spec_range_key(old_range@.before, old_range@.until),
                            i as int,
                        );
                    }
                    let fresh_ok = match new_range {
                        Some(n) => {
                            if crate::bytes::bytes_eq(&n.before_sol_sig, &n.until_sol_sig) {
                                proof {
                                    assert(spec_apply_event(m0, event@) is None);
                                }
                                false
                            } else {
                            let new_key = range_key(&n.before_sol_sig, &n.until_sol_sig);
                            if crate::bytes::bytes_eq(&new_key, &old_key) {
                                true
                            } else {
                                let idx = find_range_index(
                                    &state.solana_signature_ranges,
                                    &new_key,
                                );
                                proof {
                                    if let Some(k) = idx {
                                        assert(m0.ranges[k as int]
                                            == state.solana_signature_ranges@[k as int]@);
                                        assert(contains_range(
                                            m0.ranges,
                                            spec_range_key(n@.before, n@.until),
                                        ));
                                    }
                                }
                                idx.is_none()
                            }
                            }
                        },
                        None => true,
                    };
                    if fresh_ok {
                        let cloned_new = match new_range {
                            Some(n) => Some(n.clone_range()),
                            None => None,
                        };
                        state.retry_solana_signature_range(old_range.clone_range(), cloned_new);
                        return true;
                    } else {
                        proof {
                            assert(state@ =~= m0);
                        }
                        return false;
                    }
                },
            }
        },
        Event::SignatureRangeRemoved(r) => {
            let key = range_key(&r.before_sol_sig, &r.until_sol_sig);
            match find_range_index(&state.solana_signature_ranges, &key) {
                None => {
                    proof {
                        assert(state@ =~= m0);
                    }
                    return false;
                },
                Some(i) => {
                    proof {
                        lemma_range_index(
                            m0.ranges,
                            spec_range_key(r@.before, r@.until),
                            i as int,
                        );
                    }
                    state.remove_solana_signature_range(r);
                    return true;
                },
            }
        },
        Event::SignatureDiscovered(s) => {
            let pending_idx = find_sig_index(&state.solana_signatures, &s.sol_sig);
            proof {
                if let Some(i) = pending_idx {
                    assert(m0.signatures[i as int] == state.solana_signatures@[i as int]@);
                    assert(contains_sig(m0.signatures, s@.sig));
                }
            }
            let fresh_ok = if pending_idx.is_some() {
                true
            } else {
                let inv_idx = find_sig_index(&state.invalid_events, &s.sol_sig);
                let acc_idx = find_dep_index(&state.accepted_events, &s.sol_sig);
                let min_idx = find_dep_index(&state.minted_events, &s.sol_sig);
                proof {
                    if let Some(i) = inv_idx {
                        assert(m0.invalid[i as int] == state.invalid_events@[i as int]@);
                        assert(contains_sig(m0.invalid, s@.sig));
                    }
                    if let Some(i) = acc_idx {
                        assert(m0.accepted[i as int] == state.accepted_events@[i as int]@);
                        assert(contains_dep(m0.accepted, s@.sig));
                    }
                    if let Some(i) = min_idx {
                        assert(m0.minted[i as int] == state.minted_events@[i as int]@);
                        assert(contains_dep(m0.minted, s@.sig));
                    }
                }
                inv_idx.is_none() && acc_idx.is_none() && min_idx.is_none()
            };
            if fresh_ok {
                state.record_or_retry_solana_signature(s.clone_signature());
                return true;
            } else {
                proof {
                    assert(state@ =~= m0);
                }
                return false;
            }
        },
        Event::InvalidEventRecorded(s) => {
            match find_sig_index(&state.solana_signatures, &s.sol_sig) {
                None => {
                    proof {
                        assert(state@ =~= m0);
                    }
                    return false;
                },
                Some(i) => {
                    proof {
                        lemma_sig_index(m0.signatures, s@.sig, i as int);
                    }
                    state.record_invalid_event(s.clone_signature());
                    return true;
                },
            }
        },
        Event::AcceptedEventRecorded(d) => {
            match find_dep_index(&state.accepted_events, &d.sol_sig) {
                Some(i) => {
                    proof {
                        lemma_dep_index(m0.accepted, d@.sig, i as int);
                    }
                    state.record_or_retry_accepted_event(d.clone_deposit());
                    proof {
                        assert(state@ =~= spec_apply_event(m0, event@).unwrap());
                    }
                    return true;
                },
                None => {
                    let in_sigs_idx = find_sig_index(&state.solana_signatures, &d.sol_sig);
                    proof {
                        if let Some(i) = in_sigs_idx {
                            assert(m0.signatures[i as int]
                                == state.solana_signatures@[i as int]@);
                            assert(contains_sig(m0.signatures, d@.sig));
                        }
                    }
                    let in_sigs = in_sigs_idx.is_some();
                    let acc_dup = first_dep_id_equal(&state.accepted_events, d.deposit_id);
                    let min_dup = first_dep_id_equal(&state.minted_events, d.deposit_id);
                    proof {
                        assert(forall|i: int|
                            0 <= i < m0.accepted.len() ==> #[trigger] m0.accepted[i]
                                == state.accepted_events@[i]@);
                        assert(forall|i: int|
                            0 <= i < m0.minted.len() ==> #[trigger] m0.minted[i]
                                == state.minted_events@[i]@);
                        if let Some(k) = acc_dup {
                            assert(m0.accepted[k as int].deposit_id == d@.deposit_id);
                        }
                        if let Some(k) = min_dup {
                            assert(m0.minted[k as int].deposit_id == d@.deposit_id);
                        }
                    }
                    let ok = in_sigs && d.deposit_id < u64::MAX && acc_dup.is_none()
                        && min_dup.is_none();
                    if ok {
                        let bumped = if d.deposit_id == u64::MAX {
                            state.deposit_id_counter
                        } else if d.deposit_id + 1 > state.deposit_id_counter {
                            d.deposit_id + 1
                        } else {
                            state.deposit_id_counter
                        };
                        state.set_deposit_id_counter(bumped);
                        state.record_or_retry_accepted_event(d.clone_deposit());
                        proof {
                            assert(state@ =~= spec_apply_event(m0, event@).unwrap());
                        }
                        return true;
                    } else {
                        proof {
                            assert(state@ =~= m0);
                        }
                        return false;
                    }
                },
            }
        },
        Event::MintedEventRecorded(d) => {
            match find_dep_index(&state.accepted_events, &d.sol_sig) {
                None => {
                    proof {
                        assert(state@ =~= m0);
                    }
                    return false;
                },
                Some(i) => {
                    proof {
                        lemma_dep_index(m0.accepted, d@.sig, i as int);
                        assert(m0.accepted[i as int] == state.accepted_events@[i as int]@);
                    }
                    if state.accepted_events[i].deposit_id == d.deposit_id {
                        state.record_minted_event(d.clone_deposit());
                        return true;
                    } else {
                        proof {
                            assert(state@ =~= m0);
                        }
                        return false;
                    }
                },
            }
        },
        Event::WithdrawalBurnedRecorded(w) => {
            match find_wd_index(&state.withdrawal_burned_events, w.burn_id) {
                Some(i) => {
                    proof {
                        lemma_wd_index(m0.burned, w@.burn_id, i as int);
                    }
                    state.record_or_retry_withdrawal_burned_event(w.clone_withdrawal());
                    proof {
                        assert(state@ =~= spec_apply_event(m0, event@).unwrap());
                    }
                    return true;
                },
                None => {
                    let red_idx = find_wd_index(&state.withdrawal_redeemed_events, w.burn_id);
                    proof {
                        if let Some(i) = red_idx {
                            assert(m0.redeemed[i as int]
                                == state.withdrawal_redeemed_events@[i as int]@);
                            assert(contains_wd(m0.redeemed, w@.burn_id));
                        }
                    }
                    let ok = red_idx.is_none() && w.burn_id < u64::MAX && w.coupon.is_none();
                    if ok {
                        let bumped = if w.burn_id == u64::MAX {
                            state.burn_id_counter
                        } else if w.burn_id + 1 > state.burn_id_counter {
                            w.burn_id + 1
                        } else {
                            state.burn_id_counter
                        };
                        state.set_burn_id_counter(bumped);
                        state.record_or_retry_withdrawal_burned_event(w.clone_withdrawal());
                        proof {
                            assert(state@ =~= spec_apply_event(m0, event@).unwrap());
                        }
                        return true;
                    } else {
                        proof {
                            assert(state@ =~= m0);
                        }
                        return false;
                    }
                },
            }
        },
        Event::WithdrawalRedeemedRecorded(w) => {
            match find_wd_index(&state.withdrawal_burned_events, w.burn_id) {
                None => {
                    proof {
                        assert(state@ =~= m0);
                    }
                    return false;
                },
                Some(i) => {
                    proof {
                        lemma_wd_index(m0.burned, w@.burn_id, i as int);
                    }
                    if coupon_matches_withdrawal(w) {
                        state.record_withdrawal_redeemed_event(w.clone_withdrawal());
                        return true;
                    } else {
                        proof {
                            assert(state@ =~= m0);
                        }
                        return false;
                    }
                },
            }
        },
    }
}

/// Rebuilds a state from a full log; `None` exactly where the log is not a
/// valid history.
pub fn replay(events: &Vec<Event>) -> (r: Option<State>)
    ensures
        r is Some <==> spec_replay(events@.map(|i: int, e: Event| e@)) is Some,
        r matches Some(s) ==> Some(s@) == spec_replay(events@.map(|i: int, e: Event| e@)) && wf(
            s@,
        ),
{
    let ghost evs = events@.map(|i: int, e: Event| e@);
    if events.len() == 0 {
        return None;
    }
    let first = &events[0];
    let mut state = match first {
        Event::Init(a) => {
            let args = InitArg {
                solana_rpc_url: crate::events::clone_bytes(&a.solana_rpc_url),
                solana_contract_address: crate::events::clone_bytes(&a.solana_contract_address),
                solana_initial_signature: crate::events::clone_bytes(&a.solana_initial_signature),
                ecdsa_key_name: crate::events::clone_bytes(&a.ecdsa_key_name),
                minimum_withdrawal_amount: a.minimum_withdrawal_amount,
            };
            proof {
                assert(args@ =~= a@);
            }
            match State::from_init(args) {
                Ok(s) => s,
                Err(_) => {
                    proof {
                        assert(evs.subrange(0, 1) =~= seq![evs[0]]);
                        lemma_replay_prefix_none(evs, 1);
                    }
                    return None;
                },
            }
        },
        _ => {
            proof {
                assert(evs.subrange(0, 1) =~= seq![evs[0]]);
                lemma_replay_prefix_none(evs, 1);
            }
            return None;
        },
    };
    proof {
        assert(evs.subrange(0, 1) =~= seq![evs[0]]);
    }
    let n = events.len();
    let mut i: usize = 1;
    while i < n
        invariant
            1 <= i <= n,
            n == events@.len(),
            evs == events@.map(|i: int, e: Event| e@),
            wf(state@),
            spec_replay(evs.subrange(0, i as int)) == Some(state@),
        decreases n - i,
    {
        let ok = apply_event(&mut state, &events[i]);
        proof {
            assert(evs.subrange(0, i + 1 as int).drop_last() =~= evs.subrange(0, i as int));
            assert(evs.subrange(0, i + 1 as int).last() == evs[i as int]);
            assert(evs[i as int] == events@[i as int]@);
        }
        if !ok {
            proof {
                lemma_replay_prefix_none(evs, i + 1 as int);
            }
            return None;
        }
        i += 1;
    }
    proof {
        assert(evs.subrange(0, n as int) =~= evs);
    }
    Some(state)
}

/// Once a prefix fails to replay, the whole log fails.
pub proof fn lemma_replay_prefix_none(events: Seq<EventModel>, i: int)
    requires
        0 < i <= events.len(),
        spec_replay(events.subrange(0, i)) is None,
    ensures
        spec_replay(events) is None,
    decreases events.len() - i,
{
    if i == events.len() {
        assert(events.subrange(0, i) =~= events);
    } else {
        assert(events.subrange(0, i + 1).drop_last() =~= events.subrange(0, i));
        lemma_replay_prefix_none(events, i + 1);
    }
}


/// Extending a replayable log by one event replays to that event's
/// transition.
pub proof fn lemma_replay_snoc(events: Seq<EventModel>, e: EventModel)
    requires
        events.len() >= 1,
    ensures
        spec_replay(events.push(e)) == match spec_replay(events) {
            Some(m) => spec_apply_event(m, e),
            None => None::<StateModel>,
        },
{
    assert(events.push(e).drop_last() =~= events);
    assert(events.push(e).last() == e);
}

/// The log records the effective watermark, so a replayed state may carry
/// `Some(..)` where a live state that never advanced its watermark still
/// holds `None`; every other combination must agree exactly.
pub open spec fn watermark_matches(r_wm: Option<Seq<u8>>, m: StateModel) -> bool {
    r_wm == m.solana_last_known_signature || (m.solana_last_known_signature is None && r_wm
        is Some)
}

/// How a replayed state matches the live one: equal on every persistent
/// field, except that the burn counter may lag while a burn identifier is
/// granted but its ledger call has not returned, and the raw watermark may
/// be the recorded (normalized) form of one the live state never set.
pub open spec fn replay_matches(r: StateModel, m: StateModel) -> bool {
    &&& r.burn_id_counter <= m.burn_id_counter
    &&& watermark_matches(r.solana_last_known_signature, m)
    &&& r == (StateModel {
        burn_id_counter: r.burn_id_counter,
        solana_last_known_signature: r.solana_last_known_signature,
        ..spec_persistent(m)
    })
}

/// A live state coupled with its event log. Its well-formedness carries
/// the recovery contract: replaying the log rebuilds the persistent part
/// of the state.
pub struct Audited {
    pub state: State,
    pub log: Vec<Event>,
}

impl Audited {
    pub open spec fn events(&self) -> Seq<EventModel> {
        self.log@.map(|i: int, e: Event| e@)
    }

    pub open spec fn wf(&self) -> bool {
        &&& wf(self.state@)
        &&& spec_config_valid(self.state@)
        &&& match spec_replay(self.events()) {
            Some(r) => replay_matches(r, self.state@),
            None => false,
        }
    }

    /// Fresh install: validates the configuration, then starts the log
    /// with its `Init` event.
    pub fn new(args: InitArg) -> (r: Result<Audited, InvalidStateError>)
        ensures
            r matches Ok(a) ==> a.wf() && a.state@ == spec_init_state(args@) && a.events()
                == seq![EventModel::Init(args@)],
            r is Err ==> !spec_config_valid(spec_init_state(args@)),
    {
        let args_copy = InitArg {
            solana_rpc_url: crate::events::clone_bytes(&args.solana_rpc_url),
            solana_contract_address: crate::events::clone_bytes(&args.solana_contract_address),
            solana_initial_signature: crate::events::clone_bytes(&args.solana_initial_signature),
            ecdsa_key_name: crate::events::clone_bytes(&args.ecdsa_key_name),
            minimum_withdrawal_amount: args.minimum_withdrawal_amount,
        };
        proof {
            assert(args_copy@ =~= args@);
        }
        match State::from_init(args) {
            Ok(state) => {
                let mut log: Vec<Event> = Vec::new();
                log.push(Event::Init(args_copy));
                let a = Audited { state, log };
                proof {
                    assert(a.events() =~= seq![EventModel::Init(args_copy@)]);
                    assert(spec_replay(a.events()) == Some(spec_init_state(args_copy@)));
                    assert(spec_init_state(args_copy@) =~= (StateModel {
                        burn_id_counter: 0u64,
                        ..spec_persistent(a.state@)
                    }));
                }
                Ok(a)
            },
            Err(e) => Err(e),
        }
    }

    /// Replay a persisted log into a live pairing; `None` where the log is
    /// not a valid history.
    pub fn from_log(log: Vec<Event>) -> (r: Option<Audited>)
        ensures
            r is Some <==> spec_replay(log@.map(|i: int, e: Event| e@)) is Some,
            r matches Some(a) ==> a.wf() && Some(spec_persistent(a.state@)) == spec_replay(
                a.events(),
            ) && a.log@ == log@,
    {
        match replay(&log) {
            Some(state) => {
                let a = Audited { state, log };
                proof {
                    assert(spec_replay(a.events()) == Some(a.state@));
                    let r = spec_replay(a.events()).unwrap();
                    assert(r == a.state@);
                    // a replayed state has no volatile part
                    lemma_replay_volatile_clear(a.events(), r);
                    assert(r =~= (StateModel {
                        burn_id_counter: r.burn_id_counter,
                        ..spec_persistent(a.state@)
                    }));
                    assert(spec_persistent(a.state@) =~= r);
                    assert(spec_config_valid(a.state@));
                }
                Some(a)
            },
            None => None,
        }
    }
}

/// A replayed state carries empty volatile parts: no cached keys, no
/// in-flight withdrawals or tasks, a zero outcall counter.
pub open spec fn spec_replay_volatile_clear(events: Seq<EventModel>, r: StateModel) -> bool {
    spec_replay(events) == Some(r) ==> r.ecdsa_public_key is None && r.ecdsa_proxy_public_key
        is None && r.http_request_counter == 0 && r.withdrawing == Seq::<Seq<u8>>::empty()
        && r.active_tasks == Seq::<crate::state::TaskType>::empty() && spec_config_valid(r)
}

/// Every replayable log yields a state with empty volatile parts and a
/// valid configuration.
pub proof fn lemma_replay_volatile_clear(events: Seq<EventModel>, r: StateModel)
    requires
        spec_replay(events) == Some(r),
    ensures
        spec_replay_volatile_clear(events, r),
    decreases events.len(),
{
    if events.len() == 0 {
    } else if events.len() == 1 {
    } else {
        let prev = spec_replay(events.drop_last());
        if prev is Some {
            lemma_replay_volatile_clear(events.drop_last(), prev.unwrap());
        }
    }
}


impl Audited {
    /// Applies a configuration delta and records it; an invalid delta is
    /// rejected with the state untouched.
    pub fn upgrade_config(&mut self, args: UpgradeArg) -> (r: Result<(), InvalidStateError>)
        requires
            old(self).wf(),
        ensures
            final(self).wf(),
            r is Ok <==> spec_config_valid(spec_apply_upgrade(old(self).state@, args@)),
            r is Ok ==> final(self).state@ == spec_apply_upgrade(old(self).state@, args@)
                && final(self).events() == old(self).events().push(EventModel::Upgrade(args@)),
            r is Err ==> *final(self) == *old(self),
    {
        let ghost evs0 = old(self).events();
        let ghost r0 = spec_replay(evs0).unwrap();
        let key_ok = match &args.ecdsa_key_name {
            Some(k) => !is_blank(k),
            None => !is_blank(&self.state.ecdsa_key_name),
        };
        let addr_ok = match &args.solana_contract_address {
            Some(k) => !is_blank(k),
            None => !is_blank(&self.state.solana_contract_address),
        };
        let sig_ok = match &args.solana_initial_signature {
            Some(k) => !is_blank(k),
            None => !is_blank(&self.state.solana_initial_signature),
        };
        let min_ok = match &args.minimum_withdrawal_amount {
            Some(v) => *v > 0,
            None => self.state.minimum_withdrawal_amount > 0,
        };
        if !(key_ok && addr_ok && sig_ok && min_ok) {
            proof {
                assert(!spec_config_valid(spec_apply_upgrade(old(self).state@, args@)));
            }
            let e = if !key_ok {
                InvalidStateError::InvalidEcdsaKeyName(Vec::new())
            } else if !addr_ok {
                InvalidStateError::InvalidSolanaContractAddress(Vec::new())
            } else if !sig_ok {
                InvalidStateError::InvalidSolanaInitialSignature(Vec::new())
            } else {
                InvalidStateError::InvalidMinimumWithdrawalAmount(Vec::new())
            };
            return Err(e);
        }
        let args_copy = UpgradeArg {
            solana_rpc_url: match &args.solana_rpc_url {
                Some(v) => Some(crate::events::clone_bytes(v)),
                None => None,
            },
            solana_contract_address: match &args.solana_contract_address {
                Some(v) => Some(crate::events::clone_bytes(v)),
                None => None,
            },
            solana_initial_signature: match &args.solana_initial_signature {
                Some(v) => Some(crate::events::clone_bytes(v)),
                None => None,
            },
            ecdsa_key_name: match &args.ecdsa_key_name {
                Some(v) => Some(crate::events::clone_bytes(v)),
                None => None,
            },
            minimum_withdrawal_amount: args.minimum_withdrawal_amount,
        };
        proof {
            assert(args_copy@ =~= args@);
        }
        let ghost am = args@;
        let _ = self.state.upgrade(args);
        self.log.push(Event::Upgrade(args_copy));
        proof {
            assert forall|j: int| 0 <= j < self.log@.len() implies self.events()[j] == evs0.push(
                EventModel::Upgrade(am),
            )[j] by {
                assert(self.events()[j] == self.log@[j]@);
                if j < old(self).log@.len() {
                    assert(evs0[j] == old(self).log@[j]@);
                }
            }
            assert(self.events() =~= evs0.push(EventModel::Upgrade(am)));
            lemma_replay_snoc(evs0, EventModel::Upgrade(am));
            assert(spec_apply_upgrade(r0, am) =~= (StateModel {
                burn_id_counter: r0.burn_id_counter,
                solana_last_known_signature: spec_apply_upgrade(r0, am).solana_last_known_signature,
                ..spec_persistent(self.state@)
            }));
        }
        Ok(())
    }

    /// Advances the discovery watermark and records it.
    pub fn record_last_known_signature(&mut self, sig: &Vec<u8>)
        requires
            old(self).wf(),
        ensures
            final(self).wf(),
            final(self).state@ == (StateModel {
                solana_last_known_signature: Some(sig@),
                ..old(self).state@
            }),
            final(self).events() == old(self).events().push(
                EventModel::LastKnownSolanaSignature(sig@),
            ),
    {
        let ghost evs0 = old(self).events();
        let ghost r0 = spec_replay(evs0).unwrap();
        self.state.record_solana_last_known_signature(sig);
        self.log.push(Event::LastKnownSolanaSignature(crate::events::clone_bytes(sig)));
        proof {
            let ev = EventModel::LastKnownSolanaSignature(sig@);
            assert forall|j: int| 0 <= j < self.log@.len() implies self.events()[j] == evs0.push(
                ev,
            )[j] by {
                assert(self.events()[j] == self.log@[j]@);
                if j < old(self).log@.len() {
                    assert(evs0[j] == old(self).log@[j]@);
                }
            }
            assert(self.events() =~= evs0.push(ev));
            lemma_replay_snoc(evs0, ev);
            assert(spec_apply_event(r0, ev).unwrap() =~= (StateModel {
                burn_id_counter: r0.burn_id_counter,
                solana_last_known_signature: spec_apply_event(r0, ev).unwrap().solana_last_known_signature,
                ..spec_persistent(self.state@)
            }));
        }
    }

    /// Snapshots the effective watermark and both identifier counters, as
    /// the pre-upgrade hook does: exactly three events are appended, in
    /// order, and the state itself is not touched. Afterwards the log
    /// replays to the persistent part of the live state, with the recorded
    /// watermark in its normalized `Some` form: the recovery contract.
    pub fn snapshot_counters(&mut self)
        requires
            old(self).wf(),
        ensures
            final(self).wf(),
            final(self).state@ == old(self).state@,
            final(self).events() == old(self).events().push(
                EventModel::LastKnownSolanaSignature(
                    crate::state::State::spec_watermark(old(self).state@),
                ),
            ).push(EventModel::LastDepositIdCounter(old(self).state@.deposit_id_counter)).push(
                EventModel::LastBurnIdCounter(old(self).state@.burn_id_counter),
            ),
            spec_replay(final(self).events()) == Some(
                StateModel {
                    solana_last_known_signature: Some(
                        crate::state::State::spec_watermark(old(self).state@),
                    ),
                    ..spec_persistent(old(self).state@)
                },
            ),
    {
        let ghost evs0 = self.events();
        let ghost r0 = spec_replay(evs0).unwrap();
        let wm = self.state.get_solana_last_known_signature();
        self.log.push(Event::LastKnownSolanaSignature(wm));
        let ghost evs1 = self.events();
        proof {
            let ev = EventModel::LastKnownSolanaSignature(
                crate::state::State::spec_watermark(self.state@),
            );
            assert forall|j: int| 0 <= j < self.log@.len() implies self.events()[j] == evs0.push(
                ev,
            )[j] by {
                assert(self.events()[j] == self.log@[j]@);
                if j < old(self).log@.len() {
                    assert(evs0[j] == old(self).log@[j]@);
                }
            }
            assert(evs1 =~= evs0.push(ev));
            lemma_replay_snoc(evs0, ev);
        }
        let ghost r1 = spec_replay(evs1).unwrap();
        let dc = self.state.deposit_id_counter;
        self.log.push(Event::LastDepositIdCounter(dc));
        let ghost evs2 = self.events();
        proof {
            let ev = EventModel::LastDepositIdCounter(dc);
            assert forall|j: int| 0 <= j < self.log@.len() implies self.events()[j] == evs1.push(
                ev,
            )[j] by {
                assert(self.events()[j] == self.log@[j]@);
                if j < evs1.len() {
                    assert(evs1[j] == self.log@[j]@);
                }
            }
            assert(evs2 =~= evs1.push(ev));
            lemma_replay_snoc(evs1, ev);
            // every granted deposit identifier sits below the snapshot
            assert(forall|i: int|
                0 <= i < self.state@.accepted.len() ==> #[trigger] self.state@.accepted[i].deposit_id
                    < dc);
            assert(forall|i: int|
                0 <= i < self.state@.minted.len() ==> #[trigger] self.state@.minted[i].deposit_id
                    < dc);
            assert(r1.accepted == self.state@.accepted && r1.minted == self.state@.minted);
            assert(spec_apply_event(r1, ev) is Some);
        }
        let ghost r2 = spec_replay(evs2).unwrap();
        let bc = self.state.burn_id_counter;
        self.log.push(Event::LastBurnIdCounter(bc));
        proof {
            let ev = EventModel::LastBurnIdCounter(bc);
            assert forall|j: int| 0 <= j < self.log@.len() implies self.events()[j] == evs2.push(
                ev,
            )[j] by {
                assert(self.events()[j] == self.log@[j]@);
                if j < evs2.len() {
                    assert(evs2[j] == self.log@[j]@);
                }
            }
            assert(self.events() =~= evs2.push(ev));
            lemma_replay_snoc(evs2, ev);
            assert(forall|i: int|
                0 <= i < self.state@.burned.len() ==> #[trigger] self.state@.burned[i].burn_id
                    < bc);
            assert(forall|i: int|
                0 <= i < self.state@.redeemed.len() ==> #[trigger] self.state@.redeemed[i].burn_id
                    < bc);
            assert(r2.burned == self.state@.burned && r2.redeemed == self.state@.redeemed);
            assert(spec_apply_event(r2, ev) is Some);
            let r3 = spec_apply_event(r2, ev).unwrap();
            assert(r3 =~= (StateModel {
                solana_last_known_signature: Some(
                    crate::state::State::spec_watermark(old(self).state@),
                ),
                ..spec_persistent(self.state@)
            }));
        }
    }

    /// Records a fresh pending range; its two markers must differ.
    pub fn record_signature_range(&mut self, range: SolanaSignatureRange)
        requires
            old(self).wf(),
            range@.before != range@.until,
            !contains_range(
                old(self).state@.ranges,
                spec_range_key(range@.before, range@.until),
            ),
        ensures
            final(self).wf(),
            final(self).state@ == spec_record_signature_range(old(self).state@, range@),
            final(self).events() == old(self).events().push(
                EventModel::SignatureRangeRecorded(range@),
            ),
    {
        let ghost evs0 = old(self).events();
        let ghost r0 = spec_replay(evs0).unwrap();
        let ghost rm = range@;
        let copy = range.clone_range();
        self.state.record_solana_signature_range(range);
        self.log.push(Event::SignatureRangeRecorded(copy));
        proof {
            let ev = EventModel::SignatureRangeRecorded(rm);
            assert forall|j: int| 0 <= j < self.log@.len() implies self.events()[j] == evs0.push(
                ev,
            )[j] by {
                assert(self.events()[j] == self.log@[j]@);
                if j < old(self).log@.len() {
                    assert(evs0[j] == old(self).log@[j]@);
                }
            }
            assert(self.events() =~= evs0.push(ev));
            lemma_replay_snoc(evs0, ev);
            assert(spec_apply_event(r0, ev).unwrap() =~= (StateModel {
                burn_id_counter: r0.burn_id_counter,
                solana_last_known_signature: spec_apply_event(r0, ev).unwrap().solana_last_known_signature,
                ..spec_persistent(self.state@)
            }));
        }
    }

    /// Subdivides or retries a pending range, recording the step.
    pub fn retry_signature_range(
        &mut self,
        old_range: SolanaSignatureRange,
        new_range: Option<SolanaSignatureRange>,
    )
        requires
            old(self).wf(),
            contains_range(
                old(self).state@.ranges,
                spec_range_key(old_range@.before, old_range@.until),
            ),
            new_range matches Some(n) ==> n@.before != n@.until && (spec_range_key(
                n@.before,
                n@.until,
            ) == spec_range_key(old_range@.before, old_range@.until) || !contains_range(
                old(self).state@.ranges,
                spec_range_key(n@.before, n@.until),
            )),
        ensures
            final(self).wf(),
            final(self).state@ == spec_retry_signature_range(
                old(self).state@,
                spec_range_key(old_range@.before, old_range@.until),
                match new_range {
                    Some(n) => Some(n@),
                    None => None,
                },
            ),
            final(self).events() == old(self).events().push(
                EventModel::SignatureRangeRetried {
                    old_range: old_range@,
                    new_range: match new_range {
                        Some(n) => Some(n@),
                        None => None,
                    },
                },
            ),
    {
        let ghost evs0 = old(self).events();
        let ghost r0 = spec_replay(evs0).unwrap();
        let ghost om = old_range@;
        let ghost nm = match new_range {
            Some(ref n) => Some(n@),
            None => None,
        };
        let old_copy = old_range.clone_range();
        let new_copy = match &new_range {
            Some(n) => Some(n.clone_range()),
            None => None,
        };
        self.state.retry_solana_signature_range(old_range, new_range);
        self.log.push(Event::SignatureRangeRetried { old_range: old_copy, new_range: new_copy });
        proof {
            let ev = EventModel::SignatureRangeRetried { old_range: om, new_range: nm };
            assert forall|j: int| 0 <= j < self.log@.len() implies self.events()[j] == evs0.push(
                ev,
            )[j] by {
                assert(self.events()[j] == self.log@[j]@);
                if j < old(self).log@.len() {
                    assert(evs0[j] == old(self).log@[j]@);
                }
            }
            assert(self.events() =~= evs0.push(ev));
            lemma_replay_snoc(evs0, ev);
            assert(spec_apply_event(r0, ev).unwrap() =~= (StateModel {
                burn_id_counter: r0.burn_id_counter,
                solana_last_known_signature: spec_apply_event(r0, ev).unwrap().solana_last_known_signature,
                ..spec_persistent(self.state@)
            }));
        }
    }

    /// Drops a resolved or abandoned range, recording the removal.
    pub fn remove_signature_range(&mut self, range: &SolanaSignatureRange)
        requires
            old(self).wf(),
            contains_range(old(self).state@.ranges, spec_range_key(range@.before, range@.until)),
        ensures
            final(self).wf(),
            final(self).state@ == spec_remove_signature_range(
                old(self).state@,
                spec_range_key(range@.before, range@.until),
            ),
            final(self).events() == old(self).events().push(
                EventModel::SignatureRangeRemoved(range@),
            ),
    {
        let ghost evs0 = old(self).events();
        let ghost r0 = spec_replay(evs0).unwrap();
        let copy = range.clone_range();
        self.state.remove_solana_signature_range(range);
        self.log.push(Event::SignatureRangeRemoved(copy));
        proof {
            let ev = EventModel::SignatureRangeRemoved(range@);
            assert forall|j: int| 0 <= j < self.log@.len() implies self.events()[j] == evs0.push(
                ev,
            )[j] by {
                assert(self.events()[j] == self.log@[j]@);
                if j < old(self).log@.len() {
                    assert(evs0[j] == old(self).log@[j]@);
                }
            }
            assert(self.events() =~= evs0.push(ev));
            lemma_replay_snoc(evs0, ev);
            assert(spec_apply_event(r0, ev).unwrap() =~= (StateModel {
                burn_id_counter: r0.burn_id_counter,
                solana_last_known_signature: spec_apply_event(r0, ev).unwrap().solana_last_known_signature,
                ..spec_persistent(self.state@)
            }));
        }
    }

    /// Records a discovered signature, or bumps the retry counter of one
    /// already pending.
    pub fn record_or_retry_signature(&mut self, sig: SolanaSignature)
        requires
            old(self).wf(),
            !contains_sig(old(self).state@.signatures, sig@.sig) ==> !contains_sig(
                old(self).state@.invalid,
                sig@.sig,
            ) && !contains_dep(old(self).state@.accepted, sig@.sig) && !contains_dep(
                old(self).state@.minted,
                sig@.sig,
            ),
        ensures
            final(self).wf(),
            final(self).state@ == spec_record_or_retry_signature(old(self).state@, sig@),
            final(self).events() == old(self).events().push(
                EventModel::SignatureDiscovered(sig@),
            ),
    {
        let ghost evs0 = old(self).events();
        let ghost r0 = spec_replay(evs0).unwrap();
        let ghost sm = sig@;
        let copy = sig.clone_signature();
        self.state.record_or_retry_solana_signature(sig);
        self.log.push(Event::SignatureDiscovered(copy));
        proof {
            let ev = EventModel::SignatureDiscovered(sm);
            assert forall|j: int| 0 <= j < self.log@.len() implies self.events()[j] == evs0.push(
                ev,
            )[j] by {
                assert(self.events()[j] == self.log@[j]@);
                if j < old(self).log@.len() {
                    assert(evs0[j] == old(self).log@[j]@);
                }
            }
            assert(self.events() =~= evs0.push(ev));
            lemma_replay_snoc(evs0, ev);
            assert(spec_apply_event(r0, ev).unwrap() =~= (StateModel {
                burn_id_counter: r0.burn_id_counter,
                solana_last_known_signature: spec_apply_event(r0, ev).unwrap().solana_last_known_signature,
                ..spec_persistent(self.state@)
            }));
        }
    }

    /// Classifies a pending signature as invalid, recording the terminal
    /// step.
    pub fn record_invalid(&mut self, sig: SolanaSignature)
        requires
            old(self).wf(),
            contains_sig(old(self).state@.signatures, sig@.sig),
        ensures
            final(self).wf(),
            final(self).state@ == spec_record_invalid(old(self).state@, sig@),
            final(self).events() == old(self).events().push(
                EventModel::InvalidEventRecorded(sig@),
            ),
    {
        let ghost evs0 = old(self).events();
        let ghost r0 = spec_replay(evs0).unwrap();
        let ghost sm = sig@;
        let copy = sig.clone_signature();
        self.state.record_invalid_event(sig);
        self.log.push(Event::InvalidEventRecorded(copy));
        proof {
            let ev = EventModel::InvalidEventRecorded(sm);
            assert forall|j: int| 0 <= j < self.log@.len() implies self.events()[j] == evs0.push(
                ev,
            )[j] by {
                assert(self.events()[j] == self.log@[j]@);
                if j < old(self).log@.len() {
                    assert(evs0[j] == old(self).log@[j]@);
                }
            }
            assert(self.events() =~= evs0.push(ev));
            lemma_replay_snoc(evs0, ev);
            assert(spec_apply_event(r0, ev).unwrap() =~= (StateModel {
                burn_id_counter: r0.burn_id_counter,
                solana_last_known_signature: spec_apply_event(r0, ev).unwrap().solana_last_known_signature,
                ..spec_persistent(self.state@)
            }));
        }
    }
}

/// A fresh valid deposit is granted the next identifier and accepted; one
/// already accepted gets its retry counter bumped instead.
pub open spec fn spec_accept_deposit(m: StateModel, d: DepositModel) -> StateModel {
    if contains_dep(m.accepted, d.sig) {
        spec_record_or_retry_accepted(m, d)
    } else {
        let d2 = DepositModel { deposit_id: m.deposit_id_counter, ..d };
        let m2 = StateModel { deposit_id_counter: (m.deposit_id_counter + 1) as u64, ..m };
        spec_record_or_retry_accepted(m2, d2)
    }
}

impl Audited {
    /// Promotes a parsed deposit out of the pending signatures, assigning
    /// its deposit identifier; repeated promotion only bumps the retry
    /// counter.
    pub fn accept_deposit(&mut self, deposit: DepositEvent)
        requires
            old(self).wf(),
            !contains_dep(old(self).state@.accepted, deposit@.sig) ==> contains_sig(
                old(self).state@.signatures,
                deposit@.sig,
            ) && old(self).state@.deposit_id_counter < u64::MAX,
        ensures
            final(self).wf(),
            final(self).state@ == spec_accept_deposit(old(self).state@, deposit@),
            final(self).events().len() == old(self).events().len() + 1,
    {
        let ghost evs0 = old(self).events();
        let ghost r0 = spec_replay(evs0).unwrap();
        let ghost dm0 = deposit@;
        let fresh = find_dep_index(&self.state.accepted_events, &deposit.sol_sig).is_none();
        let mut deposit = deposit;
        if fresh {
            proof {
                assert(!contains_dep(self.state@.accepted, deposit@.sig));
            }
            let id = self.state.next_deposit_id();
            deposit.deposit_id = id;
        } else {
            proof {
                let k = choose|k: int|
                    0 <= k < self.state.accepted_events@.len()
                        && self.state.accepted_events@[k]@.sig == dm0.sig;
                assert(self.state@.accepted[k] == self.state.accepted_events@[k]@);
                assert(contains_dep(self.state@.accepted, dm0.sig));
            }
        }
        let ghost dm = deposit@;
        let copy = deposit.clone_deposit();
        self.state.record_or_retry_accepted_event(deposit);
        self.log.push(Event::AcceptedEventRecorded(copy));
        proof {
            let ev = EventModel::AcceptedEventRecorded(dm);
            assert forall|j: int| 0 <= j < self.log@.len() implies self.events()[j] == evs0.push(
                ev,
            )[j] by {
                assert(self.events()[j] == self.log@[j]@);
                if j < old(self).log@.len() {
                    assert(evs0[j] == old(self).log@[j]@);
                }
            }
            assert(self.events() =~= evs0.push(ev));
            lemma_replay_snoc(evs0, ev);
            if fresh {
                assert(spec_bump_counter(r0.deposit_id_counter, dm.deposit_id)
                    == self.state@.deposit_id_counter);
                assert(spec_apply_event(r0, ev).unwrap() =~= (StateModel {
                    burn_id_counter: r0.burn_id_counter,
                    solana_last_known_signature: spec_apply_event(r0, ev).unwrap().solana_last_known_signature,
                    ..spec_persistent(self.state@)
                }));
                assert(self.state@ =~= spec_accept_deposit(old(self).state@, dm0));
            } else {
                assert(spec_apply_event(r0, ev).unwrap() =~= (StateModel {
                    burn_id_counter: r0.burn_id_counter,
                    solana_last_known_signature: spec_apply_event(r0, ev).unwrap().solana_last_known_signature,
                    ..spec_persistent(self.state@)
                }));
            }
        }
    }

    /// Promotes an accepted deposit to minted, recording the step.
    pub fn record_minted(&mut self, deposit: DepositEvent)
        requires
            old(self).wf(),
            contains_dep(old(self).state@.accepted, deposit@.sig),
            old(self).state@.accepted[dep_index(
                old(self).state@.accepted,
                deposit@.sig,
            )].deposit_id == deposit@.deposit_id,
        ensures
            final(self).wf(),
            final(self).state@ == spec_record_minted(old(self).state@, deposit@),
            final(self).events() == old(self).events().push(
                EventModel::MintedEventRecorded(deposit@),
            ),
    {
        let ghost evs0 = old(self).events();
        let ghost r0 = spec_replay(evs0).unwrap();
        let ghost dm = deposit@;
        let copy = deposit.clone_deposit();
        self.state.record_minted_event(deposit);
        self.log.push(Event::MintedEventRecorded(copy));
        proof {
            let ev = EventModel::MintedEventRecorded(dm);
            assert forall|j: int| 0 <= j < self.log@.len() implies self.events()[j] == evs0.push(
                ev,
            )[j] by {
                assert(self.events()[j] == self.log@[j]@);
                if j < old(self).log@.len() {
                    assert(evs0[j] == old(self).log@[j]@);
                }
            }
            assert(self.events() =~= evs0.push(ev));
            lemma_replay_snoc(evs0, ev);
            assert(spec_apply_event(r0, ev).unwrap() =~= (StateModel {
                burn_id_counter: r0.burn_id_counter,
                solana_last_known_signature: spec_apply_event(r0, ev).unwrap().solana_last_known_signature,
                ..spec_persistent(self.state@)
            }));
        }
    }

    /// Records a successful ledger burn, or bumps the retry counter of one
    /// already recorded.
    pub fn record_burned(&mut self, withdrawal: WithdrawalEvent)
        requires
            old(self).wf(),
            !contains_wd(old(self).state@.burned, withdrawal@.burn_id) ==> {
                &&& !contains_wd(old(self).state@.redeemed, withdrawal@.burn_id)
                &&& withdrawal@.burn_id < old(self).state@.burn_id_counter
                &&& withdrawal@.coupon is None
            },
        ensures
            final(self).wf(),
            final(self).state@ == spec_record_or_retry_burned(old(self).state@, withdrawal@),
            final(self).events() == old(self).events().push(
                EventModel::WithdrawalBurnedRecorded(withdrawal@),
            ),
    {
        let ghost evs0 = old(self).events();
        let ghost r0 = spec_replay(evs0).unwrap();
        let ghost wm = withdrawal@;
        let copy = withdrawal.clone_withdrawal();
        self.state.record_or_retry_withdrawal_burned_event(withdrawal);
        self.log.push(Event::WithdrawalBurnedRecorded(copy));
        proof {
            let ev = EventModel::WithdrawalBurnedRecorded(wm);
            assert forall|j: int| 0 <= j < self.log@.len() implies self.events()[j] == evs0.push(
                ev,
            )[j] by {
                assert(self.events()[j] == self.log@[j]@);
                if j < old(self).log@.len() {
                    assert(evs0[j] == old(self).log@[j]@);
                }
            }
            assert(self.events() =~= evs0.push(ev));
            lemma_replay_snoc(evs0, ev);
            if contains_wd(r0.burned, wm.burn_id) {
                assert(spec_apply_event(r0, ev).unwrap() =~= (StateModel {
                    burn_id_counter: r0.burn_id_counter,
                    solana_last_known_signature: spec_apply_event(r0, ev).unwrap().solana_last_known_signature,
                    ..spec_persistent(self.state@)
                }));
            } else {
                let r1 = spec_apply_event(r0, ev).unwrap();
                assert(r1.burn_id_counter == spec_bump_counter(
                    r0.burn_id_counter,
                    wm.burn_id,
                ));
                assert(r1.burn_id_counter <= self.state@.burn_id_counter);
                assert(r1 =~= (StateModel {
                    burn_id_counter: r1.burn_id_counter,
                    solana_last_known_signature: r1.solana_last_known_signature,
                    ..spec_persistent(self.state@)
                }));
            }
        }
    }

    /// Attaches the signed coupon and promotes the withdrawal to redeemed,
    /// recording the step.
    pub fn record_redeemed(&mut self, withdrawal: WithdrawalEvent)
        requires
            old(self).wf(),
            contains_wd(old(self).state@.burned, withdrawal@.burn_id),
            spec_coupon_matches_withdrawal(withdrawal@),
        ensures
            final(self).wf(),
            final(self).state@ == spec_record_redeemed(old(self).state@, withdrawal@),
            final(self).events() == old(self).events().push(
                EventModel::WithdrawalRedeemedRecorded(withdrawal@),
            ),
    {
        let ghost evs0 = old(self).events();
        let ghost r0 = spec_replay(evs0).unwrap();
        let ghost wm = withdrawal@;
        let copy = withdrawal.clone_withdrawal();
        self.state.record_withdrawal_redeemed_event(withdrawal);
        self.log.push(Event::WithdrawalRedeemedRecorded(copy));
        proof {
            let ev = EventModel::WithdrawalRedeemedRecorded(wm);
            assert forall|j: int| 0 <= j < self.log@.len() implies self.events()[j] == evs0.push(
                ev,
            )[j] by {
                assert(self.events()[j] == self.log@[j]@);
                if j < old(self).log@.len() {
                    assert(evs0[j] == old(self).log@[j]@);
                }
            }
            assert(self.events() =~= evs0.push(ev));
            lemma_replay_snoc(evs0, ev);
            assert(spec_apply_event(r0, ev).unwrap() =~= (StateModel {
                burn_id_counter: r0.burn_id_counter,
                solana_last_known_signature: spec_apply_event(r0, ev).unwrap().solana_last_known_signature,
                ..spec_persistent(self.state@)
            }));
        }
    }

    /// Grants a burn identifier. No event is recorded: the identifier is
    /// only meaningful once its burn is, and replay recomputes the counter
    /// from recorded identifiers.
    pub fn next_burn_id(&mut self) -> (r: u64)
        requires
            old(self).wf(),
            old(self).state@.burn_id_counter < u64::MAX,
        ensures
            final(self).wf(),
            r == old(self).state@.burn_id_counter,
            final(self).state@ == (StateModel {
                burn_id_counter: (old(self).state@.burn_id_counter + 1) as u64,
                ..old(self).state@
            }),
            final(self).events() == old(self).events(),
    {
        let r = self.state.next_burn_id();
        proof {
            let r0 = spec_replay(self.events()).unwrap();
            assert(r0 =~= (StateModel {
                burn_id_counter: r0.burn_id_counter,
                solana_last_known_signature: r0.solana_last_known_signature,
                ..spec_persistent(self.state@)
            }));
        }
        r
    }

    /// Takes the per-principal withdrawal slot (volatile; not replayed).
    pub fn insert_withdrawing(&mut self, p: &crate::events::PrincipalId)
        requires
            old(self).wf(),
            !contains_principal(old(self).state@.withdrawing, p@),
        ensures
            final(self).wf(),
            final(self).state@ == crate::state::spec_insert_withdrawing(old(self).state@, p@),
            final(self).events() == old(self).events(),
    {
        self.state.insert_withdrawing(p);
        proof {
            let r0 = spec_replay(self.events()).unwrap();
            assert(r0 =~= (StateModel {
                burn_id_counter: r0.burn_id_counter,
                solana_last_known_signature: r0.solana_last_known_signature,
                ..spec_persistent(self.state@)
            }));
        }
    }

    /// Releases the per-principal withdrawal slot (volatile; not
    /// replayed).
    pub fn remove_withdrawing(&mut self, p: &crate::events::PrincipalId)
        requires
            old(self).wf(),
            contains_principal(old(self).state@.withdrawing, p@),
        ensures
            final(self).wf(),
            final(self).state@ == crate::state::spec_remove_withdrawing(old(self).state@, p@),
            final(self).events() == old(self).events(),
    {
        self.state.remove_withdrawing(p);
        proof {
            let r0 = spec_replay(self.events()).unwrap();
            assert(r0 =~= (StateModel {
                burn_id_counter: r0.burn_id_counter,
                solana_last_known_signature: r0.solana_last_known_signature,
                ..spec_persistent(self.state@)
            }));
        }
    }

    /// Takes a task lock (volatile; not replayed).
    pub fn acquire_task(&mut self, t: crate::state::TaskType) -> (r: bool)
        requires
            old(self).wf(),
        ensures
            final(self).wf(),
            r == !old(self).state@.active_tasks.contains(t),
            r ==> final(self).state@ == crate::state::spec_acquire_task(old(self).state@, t),
            !r ==> final(self).state@ == old(self).state@,
            final(self).events() == old(self).events(),
    {
        let r = self.state.acquire_task(t);
        proof {
            let r0 = spec_replay(self.events()).unwrap();
            assert(r0 =~= (StateModel {
                burn_id_counter: r0.burn_id_counter,
                solana_last_known_signature: r0.solana_last_known_signature,
                ..spec_persistent(self.state@)
            }));
        }
        r
    }

    /// Releases a task lock (volatile; not replayed).
    pub fn release_task(&mut self, t: crate::state::TaskType)
        requires
            old(self).wf(),
            old(self).state@.active_tasks.contains(t),
        ensures
            final(self).wf(),
            final(self).state@ == crate::state::spec_release_task(old(self).state@, t),
            final(self).events() == old(self).events(),
    {
        self.state.release_task(t);
        proof {
            let r0 = spec_replay(self.events()).unwrap();
            assert(r0 =~= (StateModel {
                burn_id_counter: r0.burn_id_counter,
                solana_last_known_signature: r0.solana_last_known_signature,
                ..spec_persistent(self.state@)
            }));
        }
    }

    /// Caches the proxy-token public key (volatile; not replayed).
    pub fn set_proxy_public_key(&mut self, pk: Vec<u8>)
        requires
            old(self).wf(),
        ensures
            final(self).wf(),
            final(self).state@ == (StateModel {
                ecdsa_proxy_public_key: Some(pk@),
                ..old(self).state@
            }),
            final(self).events() == old(self).events(),
    {
        let ghost pkm = pk@;
        self.state.ecdsa_proxy_public_key = Some(pk);
        proof {
            assert(self.state@ =~= (StateModel {
                ecdsa_proxy_public_key: Some(pkm),
                ..old(self).state@
            }));
            let r0 = spec_replay(self.events()).unwrap();
            assert(r0 =~= (StateModel {
                burn_id_counter: r0.burn_id_counter,
                solana_last_known_signature: r0.solana_last_known_signature,
                ..spec_persistent(self.state@)
            }));
        }
    }

    /// Caches the derived signing key (volatile; not replayed).
    pub fn set_ecdsa_public_key(&mut self, pk: Vec<u8>)
        requires
            old(self).wf(),
        ensures
            final(self).wf(),
            final(self).state@ == (StateModel {
                ecdsa_public_key: Some(pk@),
                ..old(self).state@
            }),
            final(self).events() == old(self).events(),
    {
        let ghost pkm = pk@;
        self.state.ecdsa_public_key = Some(pk);
        proof {
            assert(self.state@ =~= (StateModel { ecdsa_public_key: Some(pkm), ..old(self).state@ }));
            let r0 = spec_replay(self.events()).unwrap();
            assert(r0 =~= (StateModel {
                burn_id_counter: r0.burn_id_counter,
                solana_last_known_signature: r0.solana_last_known_signature,
                ..spec_persistent(self.state@)
            }));
        }
    }
}

} // verus!
