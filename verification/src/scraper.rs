//! The log scraper's decisions: signature discovery against the
//! watermark, range subdivision, transaction classification, and the
//! promotion of accepted deposits after a mint.
//!
//! All RPC and ledger calls are suspension points driven from outside;
//! each function here applies one decision step to the audited state.

use vstd::prelude::*;

use crate::audit::{spec_accept_deposit, Audited};
use crate::cbor::{parse_deposit_memo, spec_parse_memo};
use crate::events::{
    spec_is_anonymous, DepositEvent, PrincipalId, SigModel, SolanaSignature, SolanaSignatureRange,
};
use crate::state::{
    contains_dep, contains_range, contains_sig, dep_index, spec_range_key,
    spec_record_invalid, spec_record_minted, spec_record_or_retry_signature,
    spec_remove_signature_range, spec_retry_signature_range, State, StateModel,
};

verus! {

/// One entry of a `getSignaturesForAddress` reply, newest first.
pub struct SignatureInfo {
    pub signature: Vec<u8>,
    pub slot: u64,
}

#[verifier::ext_equal]
pub ghost struct SigInfoModel {
    pub sig: Seq<u8>,
    pub slot: u64,
}

impl View for SignatureInfo {
    type V = SigInfoModel;

    open spec fn view(&self) -> SigInfoModel {
        SigInfoModel { sig: self.signature@, slot: self.slot }
    }
}

/// The model of a reply, entry by entry.
pub open spec fn infos_of(v: Seq<SignatureInfo>) -> Seq<SigInfoModel> {
    v.map(|j: int, e: SignatureInfo| e@)
}

/// Recording a batch of discovered signatures, oldest decision last.
pub open spec fn spec_record_sigs(m: StateModel, infos: Seq<SigInfoModel>) -> StateModel
    decreases infos.len(),
{
    if infos.len() == 0 {
        m
    } else {
        spec_record_or_retry_signature(
            spec_record_sigs(m, infos.drop_last()),
            SigModel { sig: infos.last().sig, slot: infos.last().slot, retry: 0u64 },
        )
    }
}

/// Recording signatures touches nothing but the pending-signature table.
pub proof fn lemma_record_sigs_frame(m: StateModel, infos: Seq<SigInfoModel>)
    ensures
        spec_record_sigs(m, infos) == (StateModel {
            signatures: spec_record_sigs(m, infos).signatures,
            ..m
        }),
    decreases infos.len(),
{
    if infos.len() > 0 {
        lemma_record_sigs_frame(m, infos.drop_last());
    }
}

/// A signature new to the pending table must be new to the later stages
/// too, or recording it would tear the lifecycle apart.
pub open spec fn spec_sig_admissible(m: StateModel, sig: Seq<u8>) -> bool {
    !contains_sig(m.signatures, sig) ==> !contains_sig(m.invalid, sig) && !contains_dep(
        m.accepted,
        sig,
    ) && !contains_dep(m.minted, sig)
}

/// One discovery pass: `response` is the newest-first reply for the
/// window ending at the current watermark.
///
/// Nothing happens on an empty reply. Otherwise every signature is
/// recorded; a full page additionally records the pending range
/// `(before = last, until = watermark)` for later subdivision; and the
/// watermark advances to the newest signature.
pub fn apply_signature_discovery(a: &mut Audited, response: Vec<SignatureInfo>, limit: usize)
    requires
        old(a).wf(),
        limit >= 1,
        response@.len() <= limit,
        forall|i: int|
            0 <= i < response@.len() ==> spec_sig_admissible(
                #[trigger] spec_record_sigs(old(a).state@, infos_of(response@).subrange(0, i)),
                infos_of(response@)[i].sig,
            ),
        response@.len() == limit ==> infos_of(response@).last().sig != State::spec_watermark(
            old(a).state@,
        ) && !contains_range(
            old(a).state@.ranges,
            spec_range_key(
                infos_of(response@).last().sig,
                State::spec_watermark(old(a).state@),
            ),
        ),
    ensures
        final(a).wf(),
        response@.len() == 0 ==> *final(a) == *old(a),
        response@.len() > 0 ==> final(a).state@ == spec_discovery(
            old(a).state@,
            infos_of(response@),
            limit as int,
        ),
        // a full page leaves a pending range; a shorter page leaves none
        response@.len() > 0 ==> final(a).state@.ranges == if response@.len() == limit {
            old(a).state@.ranges.push(
                crate::events::SigRangeModel {
                    before: infos_of(response@).last().sig,
                    until: State::spec_watermark(old(a).state@),
                    retry: 0u64,
                },
            )
        } else {
            old(a).state@.ranges
        },
        // the watermark advances to the newest signature
        response@.len() > 0 ==> final(a).state@.solana_last_known_signature == Some(
            infos_of(response@)[0].sig,
        ),
        // one event per signature, one for the watermark, one for the range
        final(a).events().len() == old(a).events().len() + (if response@.len() == 0 {
            0int
        } else if response@.len() == limit {
            response@.len() as int + 2
        } else {
            response@.len() as int + 1
        }),
{
    let ghost m0 = a.state@;
    let ghost infos = infos_of(response@);
    let k = response.len();
    if k == 0 {
        return ;
    }
    let until = a.state.get_solana_last_known_signature();
    let newest = crate::events::clone_bytes(&response[0].signature);
    let last_sig = crate::events::clone_bytes(&response[k - 1].signature);
    let mut i: usize = 0;
    while i < k
        invariant
            a.wf(),
            k == response@.len(),
            i <= k,
            infos == infos_of(response@),
            a.state@ == spec_record_sigs(m0, infos.subrange(0, i as int)),
            a.events().len() == old(a).events().len() + i,
            forall|j: int|
                0 <= j < response@.len() ==> spec_sig_admissible(
                    #[trigger] spec_record_sigs(m0, infos.subrange(0, j)),
                    infos[j].sig,
                ),
        decreases k - i,
    {
        let entry = SolanaSignature::new(
            crate::events::clone_bytes(&response[i].signature),
            response[i].slot,
        );
        proof {
            assert(spec_sig_admissible(
                spec_record_sigs(m0, infos.subrange(0, i as int)),
                infos[i as int].sig,
            ));
            assert(entry@ =~= (SigModel { sig: infos[i as int].sig, slot: infos[i as int].slot, retry: 0u64 }));
        }
        a.record_or_retry_signature(entry);
        proof {
            assert(infos.subrange(0, i + 1 as int).drop_last() =~= infos.subrange(0, i as int));
            assert(infos.subrange(0, i + 1 as int).last() == infos[i as int]);
        }
        i += 1;
    }
    proof {
        assert(infos.subrange(0, k as int) =~= infos);
        lemma_record_sigs_frame(m0, infos);
    }
    if k == limit {
        let range = SolanaSignatureRange::new(last_sig, until);
        proof {
            assert(range@.before == infos.last().sig);
            assert(range@.until == State::spec_watermark(m0));
        }
        a.record_signature_range(range);
    }
    a.record_last_known_signature(&newest);
    proof {
        assert(final(a).state@ =~= spec_discovery(m0, infos, limit as int));
    }
}

/// The state one discovery pass leads to, for a non-empty newest-first
/// reply.
pub open spec fn spec_discovery(m: StateModel, infos: Seq<SigInfoModel>, limit: int) -> StateModel {
    let recorded = spec_record_sigs(m, infos);
    let ranged = if infos.len() == limit {
        crate::state::spec_record_signature_range(
            recorded,
            crate::events::SigRangeModel {
                before: infos.last().sig,
                until: State::spec_watermark(m),
                retry: 0u64,
            },
        )
    } else {
        recorded
    };
    StateModel { solana_last_known_signature: Some(infos[0].sig), ..ranged }
}

/// One resolver pass over a pending range: the page's signatures
/// are recorded; a full page replaces the range by the narrower window
/// `(before = last of page, until = range.until)` (subdivision); a short
/// page resolves the range, which is removed.
pub fn apply_range_page(
    a: &mut Audited,
    range: &SolanaSignatureRange,
    page: Vec<SignatureInfo>,
    limit: usize,
)
    requires
        old(a).wf(),
        limit >= 1,
        page@.len() <= limit,
        contains_range(old(a).state@.ranges, spec_range_key(range@.before, range@.until)),
        forall|i: int|
            0 <= i < page@.len() ==> spec_sig_admissible(
                #[trigger] spec_record_sigs(old(a).state@, infos_of(page@).subrange(0, i)),
                infos_of(page@)[i].sig,
            ),
        page@.len() == limit ==> infos_of(page@).last().sig != range@.until && (spec_range_key(
            infos_of(page@).last().sig,
            range@.until,
        ) == spec_range_key(range@.before, range@.until) || !contains_range(
            old(a).state@.ranges,
            spec_range_key(infos_of(page@).last().sig, range@.until),
        )),
    ensures
        final(a).wf(),
        final(a).state@ == {
            let recorded = spec_record_sigs(
                old(a).state@,
                infos_of(page@),
            );
            if page@.len() == limit {
                spec_retry_signature_range(
                    recorded,
                    spec_range_key(range@.before, range@.until),
                    Some(
                        crate::events::SigRangeModel {
                            before: infos_of(page@).last().sig,
                            until: range@.until,
                            retry: 0u64,
                        },
                    ),
                )
            } else {
                spec_remove_signature_range(
                    recorded,
                    spec_range_key(range@.before, range@.until),
                )
            }
        },
{
    let ghost m0 = a.state@;
    let ghost infos = infos_of(page@);
    let k = page.len();
    let mut i: usize = 0;
    while i < k
        invariant
            a.wf(),
            k == page@.len(),
            i <= k,
            infos == infos_of(page@),
            a.state@ == spec_record_sigs(m0, infos.subrange(0, i as int)),
            forall|j: int|
                0 <= j < page@.len() ==> spec_sig_admissible(
                    #[trigger] spec_record_sigs(m0, infos.subrange(0, j)),
                    infos[j].sig,
                ),
        decreases k - i,
    {
        let entry = SolanaSignature::new(
            crate::events::clone_bytes(&page[i].signature),
            page[i].slot,
        );
        proof {
            assert(spec_sig_admissible(
                spec_record_sigs(m0, infos.subrange(0, i as int)),
                infos[i as int].sig,
            ));
            assert(entry@ =~= (SigModel { sig: infos[i as int].sig, slot: infos[i as int].slot, retry: 0u64 }));
        }
        a.record_or_retry_signature(entry);
        proof {
            assert(infos.subrange(0, i + 1 as int).drop_last() =~= infos.subrange(0, i as int));
            assert(infos.subrange(0, i + 1 as int).last() == infos[i as int]);
        }
        i += 1;
    }
    proof {
        assert(infos.subrange(0, k as int) =~= infos);
        lemma_record_sigs_frame(m0, infos);
    }
    if k == limit {
        let sub = SolanaSignatureRange::new(
            crate::events::clone_bytes(&page[k - 1].signature),
            crate::events::clone_bytes(&range.until_sol_sig),
        );
        proof {
            assert(sub@.before == infos.last().sig && sub@.until == range@.until);
        }
        a.retry_signature_range(range.clone_range(), Some(sub));
    } else {
        a.remove_signature_range(range);
    }
}

/// A failed resolver pass (a transient transport error): bump the range's retry
/// counter, or drop the range once its budget is spent. A dropped range
/// loses its signatures for good, which the caller must surface loudly.
pub fn apply_range_failure(a: &mut Audited, range: &SolanaSignatureRange, max_retries: u64) -> (r:
    bool)
    requires
        old(a).wf(),
        contains_range(old(a).state@.ranges, spec_range_key(range@.before, range@.until)),
    ensures
        final(a).wf(),
        r == (range@.retry >= max_retries),
        r ==> final(a).state@ == spec_remove_signature_range(
            old(a).state@,
            spec_range_key(range@.before, range@.until),
        ),
        !r ==> final(a).state@ == spec_retry_signature_range(
            old(a).state@,
            spec_range_key(range@.before, range@.until),
            None,
        ),
{
    if range.retry >= max_retries {
        a.remove_signature_range(range);
        true
    } else {
        a.retry_signature_range(range.clone_range(), None);
        false
    }
}

/// The outcome of one `getTransaction` fetch, after transport decoding.
pub enum TransactionFetch {
    /// RPC error or missing transaction.
    Unavailable,
    /// The transaction is present: its fee payer and the deposit
    /// instruction's memo bytes.
    Present { fee_payer: Vec<u8>, memo: Vec<u8> },
}

#[verifier::ext_equal]
pub ghost enum FetchModel {
    Unavailable,
    Present { fee_payer: Seq<u8>, memo: Seq<u8> },
}

impl View for TransactionFetch {
    type V = FetchModel;

    open spec fn view(&self) -> FetchModel {
        match self {
            TransactionFetch::Unavailable => FetchModel::Unavailable,
            TransactionFetch::Present { fee_payer, memo } => FetchModel::Present {
                fee_payer: fee_payer@,
                memo: memo@,
            },
        }
    }
}

/// How one pending signature is classified.
#[verifier::ext_equal]
pub ghost enum Classification {
    /// Transient: leave it pending with a bumped retry counter.
    Retry,
    /// Terminal: no deposit can come of it.
    Invalid,
    /// A valid deposit for `recipient` over `amount`.
    Accepted { recipient: Seq<u8>, amount: u64 },
}

/// The classification rule: an unavailable transaction retries until the
/// budget is spent; a present one is a deposit exactly when its memo
/// parses, the amount is positive and the recipient is a real principal.
pub open spec fn spec_classify(sig: SigModel, fetch: FetchModel, max_retries: u64) -> Classification {
    match fetch {
        FetchModel::Unavailable => {
            if sig.retry >= max_retries {
                Classification::Invalid
            } else {
                Classification::Retry
            }
        },
        FetchModel::Present { fee_payer, memo } => {
            match spec_parse_memo(memo) {
                None => Classification::Invalid,
                Some((recipient, amount)) => {
                    if amount == 0 || recipient.len() == 0 || spec_is_anonymous(recipient) {
                        Classification::Invalid
                    } else {
                        Classification::Accepted { recipient, amount }
                    }
                },
            }
        },
    }
}

/// Classifies one pending signature and applies the outcome: a retry
/// bumps its counter, an invalid one moves it to the invalid table, and a
/// valid deposit is accepted under a fresh deposit identifier. No
/// identifier is consumed unless the deposit is accepted.
pub fn apply_classification(
    a: &mut Audited,
    sig: &SolanaSignature,
    fetch: &TransactionFetch,
    max_retries: u64,
) -> (r: bool)
    requires
        old(a).wf(),
        contains_sig(old(a).state@.signatures, sig@.sig),
        old(a).state@.deposit_id_counter < u64::MAX,
        !contains_dep(old(a).state@.accepted, sig@.sig),
    ensures
        final(a).wf(),
        match spec_classify(sig@, fetch@, max_retries) {
            Classification::Retry => r == false && final(a).state@
                == spec_record_or_retry_signature(old(a).state@, sig@),
            Classification::Invalid => r == false && final(a).state@ == spec_record_invalid(
                old(a).state@,
                sig@,
            ),
            Classification::Accepted { recipient, amount } => r == true && final(a).state@
                == spec_accept_deposit(
                old(a).state@,
                crate::events::DepositModel {
                    sig: sig@.sig,
                    slot: sig@.slot,
                    sender: match fetch@ {
                        FetchModel::Present { fee_payer, .. } => fee_payer,
                        FetchModel::Unavailable => Seq::empty(),
                    },
                    recipient: recipient,
                    amount: amount,
                    deposit_id: 0u64,
                    memo: match fetch@ {
                        FetchModel::Present { memo, .. } => memo,
                        FetchModel::Unavailable => Seq::empty(),
                    },
                    retry: 0u64,
                },
            ),
        },
{
    match fetch {
        TransactionFetch::Unavailable => {
            if sig.retry >= max_retries {
                a.record_invalid(sig.clone_signature());
            } else {
                a.record_or_retry_signature(sig.clone_signature());
            }
            false
        },
        TransactionFetch::Present { fee_payer, memo } => {
            match parse_deposit_memo(memo) {
                None => {
                    a.record_invalid(sig.clone_signature());
                    false
                },
                Some((recipient, amount)) => {
                    let recipient_id = PrincipalId::new(recipient);
                    if amount == 0 || recipient_id.bytes.len() == 0 || recipient_id.is_anonymous() {
                        a.record_invalid(sig.clone_signature());
                        false
                    } else {
                        let deposit = DepositEvent {
                            sol_sig: crate::events::clone_bytes(&sig.sol_sig),
                            slot: sig.slot,
                            sender_sol_addr: crate::events::clone_bytes(fee_payer),
                            recipient_principal: recipient_id,
                            amount,
                            deposit_id: 0,
                            memo_bytes: crate::events::clone_bytes(memo),
                            retry: 0,
                        };
                        a.accept_deposit(deposit);
                        true
                    }
                },
            }
        },
    }
}

/// The ledger's answer to one mint attempt.
pub enum MintOutcome {
    /// The transfer went through.
    Success,
    /// The memo was already used: an earlier attempt succeeded, treat as
    /// minted.
    DuplicateMemo,
    /// A transient ledger error: retry later.
    Transient,
}

/// Applies one mint outcome to an accepted deposit: success (first-hand
/// or by memo collision) promotes it to minted; a transient error bumps
/// its retry counter.
pub fn apply_mint_outcome(a: &mut Audited, deposit: &DepositEvent, outcome: &MintOutcome)
    requires
        old(a).wf(),
        contains_dep(old(a).state@.accepted, deposit@.sig),
        old(a).state@.accepted[dep_index(old(a).state@.accepted, deposit@.sig)].deposit_id
            == deposit@.deposit_id,
        old(a).state@.deposit_id_counter < u64::MAX,
    ensures
        final(a).wf(),
        match outcome {
            MintOutcome::Success | MintOutcome::DuplicateMemo => final(a).state@
                == spec_record_minted(old(a).state@, deposit@),
            MintOutcome::Transient => final(a).state@ == spec_accept_deposit(
                old(a).state@,
                deposit@,
            ),
        },
{
    match outcome {
        MintOutcome::Success | MintOutcome::DuplicateMemo => {
            a.record_minted(deposit.clone_deposit());
        },
        MintOutcome::Transient => {
            a.accept_deposit(deposit.clone_deposit());
        },
    }
}

// ---------------------------------------------------------------------------
// Transport budget (the hard contract with the HTTP outcall layer)
// ---------------------------------------------------------------------------

/// Estimated bytes of one signature entry in a reply.
pub const SIGNATURE_RESPONSE_SIZE_ESTIMATE: u64 = 500;

/// Estimated bytes of one transaction in a reply.
pub const TRANSACTION_RESPONSE_SIZE_ESTIMATE: u64 = 4096;

/// Room for the response headers.
pub const HEADER_SIZE_LIMIT: u64 = 2048;

/// Response budget of one `getSignaturesForAddress` call.
pub fn signatures_response_size_estimate(limit: u8) -> (r: u64)
    ensures
        r == limit * SIGNATURE_RESPONSE_SIZE_ESTIMATE + HEADER_SIZE_LIMIT,
{
    (limit as u64) * SIGNATURE_RESPONSE_SIZE_ESTIMATE + HEADER_SIZE_LIMIT
}

/// Response budget of one batched `getTransaction` call.
pub fn transactions_response_size_estimate(batch: u64) -> (r: u64)
    requires
        batch <= 1024,
    ensures
        r == batch * TRANSACTION_RESPONSE_SIZE_ESTIMATE + HEADER_SIZE_LIMIT,
{
    batch * TRANSACTION_RESPONSE_SIZE_ESTIMATE + HEADER_SIZE_LIMIT
}

/// Cycles paid for one outcall of the given response budget, scaled from
/// the 13-node base subnet to the 34-node one.
pub fn rpc_cycles_cost(effective_size_estimate: u64) -> (r: u128)
    ensures
        r == (400_000_000u128 + 100_000u128 * (2 * effective_size_estimate as u128)) * 34 / 13,
{
    let base: u128 = 400_000_000u128 + 100_000u128 * (2 * effective_size_estimate as u128);
    base * 34 / 13
}

/// The manual re-check throttle: a new sweep may start only when more
/// than `min_gap` nanoseconds have passed since the last one.
pub fn should_trigger(last_checked: u64, now: u64, min_gap: u64) -> (r: bool)
    ensures
        r == (now > last_checked && (now - last_checked) as u64 > min_gap),
{
    now > last_checked && now - last_checked > min_gap
}

} // verus!
