//! The authoritative in-memory state and its transition functions.
//!
//! Every table is a vector with distinct keys; the well-formedness
//! predicate [`wf`] carries the lifecycle invariants: a signature sits in at
//! most one of the four deposit stages, a withdrawal sits in exactly one of
//! burned/redeemed and carries a coupon exactly when redeemed, and deposit
//! and burn identifiers are injective below their counters.

use vstd::prelude::*;

use crate::bytes::bytes_eq;
use crate::coupon::spec_coupon_matches_withdrawal;
use crate::events::{
    spec_inc_retry,
    DepositEvent, DepositModel, PrincipalId, SigModel, SigRangeModel, SolanaSignature,
    SolanaSignatureRange, WithdrawalEvent, WithdrawalModel,
};

verus! {

/// The four periodic scraper/minter tasks; each holds a slot in
/// `active_tasks` for the duration of one cycle.
#[derive(Debug, Hash, Copy, Clone, PartialEq, Eq, Structural)]
pub enum TaskType {
    GetLatestSignature,
    ScrapSignatureRanges,
    ScrapSignatures,
    MintGSol,
}

/// A configuration field that failed validation; the payload is the
/// human-readable reason as bytes.
#[derive(Debug, PartialEq, Eq)]
pub enum InvalidStateError {
    InvalidEcdsaKeyName(Vec<u8>),
    InvalidLedgerId(Vec<u8>),
    InvalidSolanaContractAddress(Vec<u8>),
    InvalidMinimumWithdrawalAmount(Vec<u8>),
    InvalidSolanaInitialSignature(Vec<u8>),
}

/// Initial configuration.
pub struct InitArg {
    pub solana_rpc_url: Vec<u8>,
    pub solana_contract_address: Vec<u8>,
    pub solana_initial_signature: Vec<u8>,
    pub ecdsa_key_name: Vec<u8>,
    pub minimum_withdrawal_amount: u128,
}

#[verifier::ext_equal]
pub ghost struct InitModel {
    pub solana_rpc_url: Seq<u8>,
    pub solana_contract_address: Seq<u8>,
    pub solana_initial_signature: Seq<u8>,
    pub ecdsa_key_name: Seq<u8>,
    pub minimum_withdrawal_amount: u128,
}

impl View for InitArg {
    type V = InitModel;

    open spec fn view(&self) -> InitModel {
        InitModel {
            solana_rpc_url: self.solana_rpc_url@,
            solana_contract_address: self.solana_contract_address@,
            solana_initial_signature: self.solana_initial_signature@,
            ecdsa_key_name: self.ecdsa_key_name@,
            minimum_withdrawal_amount: self.minimum_withdrawal_amount,
        }
    }
}

/// Field-by-field configuration delta applied on upgrade.
pub struct UpgradeArg {
    pub solana_rpc_url: Option<Vec<u8>>,
    pub solana_contract_address: Option<Vec<u8>>,
    pub solana_initial_signature: Option<Vec<u8>>,
    pub ecdsa_key_name: Option<Vec<u8>>,
    pub minimum_withdrawal_amount: Option<u128>,
}

#[verifier::ext_equal]
pub ghost struct UpgradeModel {
    pub solana_rpc_url: Option<Seq<u8>>,
    pub solana_contract_address: Option<Seq<u8>>,
    pub solana_initial_signature: Option<Seq<u8>>,
    pub ecdsa_key_name: Option<Seq<u8>>,
    pub minimum_withdrawal_amount: Option<u128>,
}

impl View for UpgradeArg {
    type V = UpgradeModel;

    open spec fn view(&self) -> UpgradeModel {
        UpgradeModel {
            solana_rpc_url: match self.solana_rpc_url {
                Some(ref v) => Some(v@),
                None => None,
            },
            solana_contract_address: match self.solana_contract_address {
                Some(ref v) => Some(v@),
                None => None,
            },
            solana_initial_signature: match self.solana_initial_signature {
                Some(ref v) => Some(v@),
                None => None,
            },
            ecdsa_key_name: match self.ecdsa_key_name {
                Some(ref v) => Some(v@),
                None => None,
            },
            minimum_withdrawal_amount: self.minimum_withdrawal_amount,
        }
    }
}

/// The aggregate state.
pub struct State {
    pub solana_rpc_url: Vec<u8>,
    pub solana_contract_address: Vec<u8>,
    pub solana_initial_signature: Vec<u8>,
    pub ecdsa_key_name: Vec<u8>,
    /// Raw sec1-compressed bytes of the derived threshold-ECDSA public key.
    pub ecdsa_public_key: Option<Vec<u8>>,
    pub ecdsa_proxy_public_key: Option<Vec<u8>>,
    pub minimum_withdrawal_amount: u128,
    pub solana_last_known_signature: Option<Vec<u8>>,
    pub solana_signature_ranges: Vec<SolanaSignatureRange>,
    pub solana_signatures: Vec<SolanaSignature>,
    pub invalid_events: Vec<SolanaSignature>,
    pub accepted_events: Vec<DepositEvent>,
    pub minted_events: Vec<DepositEvent>,
    pub withdrawal_burned_events: Vec<WithdrawalEvent>,
    pub withdrawal_redeemed_events: Vec<WithdrawalEvent>,
    pub withdrawing_principals: Vec<PrincipalId>,
    pub deposit_id_counter: u64,
    pub burn_id_counter: u64,
    pub http_request_counter: u64,
    pub active_tasks: Vec<TaskType>,
}

#[verifier::ext_equal]
pub ghost struct StateModel {
    pub solana_rpc_url: Seq<u8>,
    pub solana_contract_address: Seq<u8>,
    pub solana_initial_signature: Seq<u8>,
    pub ecdsa_key_name: Seq<u8>,
    pub ecdsa_public_key: Option<Seq<u8>>,
    pub ecdsa_proxy_public_key: Option<Seq<u8>>,
    pub minimum_withdrawal_amount: u128,
    pub solana_last_known_signature: Option<Seq<u8>>,
    pub ranges: Seq<SigRangeModel>,
    pub signatures: Seq<SigModel>,
    pub invalid: Seq<SigModel>,
    pub accepted: Seq<DepositModel>,
    pub minted: Seq<DepositModel>,
    pub burned: Seq<WithdrawalModel>,
    pub redeemed: Seq<WithdrawalModel>,
    pub withdrawing: Seq<Seq<u8>>,
    pub deposit_id_counter: u64,
    pub burn_id_counter: u64,
    pub http_request_counter: u64,
    pub active_tasks: Seq<TaskType>,
}

impl View for State {
    type V = StateModel;

    open spec fn view(&self) -> StateModel {
        StateModel {
            solana_rpc_url: self.solana_rpc_url@,
            solana_contract_address: self.solana_contract_address@,
            solana_initial_signature: self.solana_initial_signature@,
            ecdsa_key_name: self.ecdsa_key_name@,
            ecdsa_public_key: match self.ecdsa_public_key {
                Some(ref v) => Some(v@),
                None => None,
            },
            ecdsa_proxy_public_key: match self.ecdsa_proxy_public_key {
                Some(ref v) => Some(v@),
                None => None,
            },
            minimum_withdrawal_amount: self.minimum_withdrawal_amount,
            solana_last_known_signature: match self.solana_last_known_signature {
                Some(ref v) => Some(v@),
                None => None,
            },
            ranges: self.solana_signature_ranges@.map(|i: int, r: SolanaSignatureRange| r@),
            signatures: self.solana_signatures@.map(|i: int, s: SolanaSignature| s@),
            invalid: self.invalid_events@.map(|i: int, s: SolanaSignature| s@),
            accepted: self.accepted_events@.map(|i: int, d: DepositEvent| d@),
            minted: self.minted_events@.map(|i: int, d: DepositEvent| d@),
            burned: self.withdrawal_burned_events@.map(|i: int, w: WithdrawalEvent| w@),
            redeemed: self.withdrawal_redeemed_events@.map(|i: int, w: WithdrawalEvent| w@),
            withdrawing: self.withdrawing_principals@.map(|i: int, p: PrincipalId| p@),
            deposit_id_counter: self.deposit_id_counter,
            burn_id_counter: self.burn_id_counter,
            http_request_counter: self.http_request_counter,
            active_tasks: self.active_tasks@,
        }
    }
}

// ---------------------------------------------------------------------------
// Keys and membership
// ---------------------------------------------------------------------------

/// A range is keyed by its two markers joined with `-`, as the scraper
/// stores it.
pub open spec fn spec_range_key(before: Seq<u8>, until: Seq<u8>) -> Seq<u8> {
    before + seq![45u8] + until
}

/// Key of the pending-range table entry.
pub fn range_key(start: &Vec<u8>, end: &Vec<u8>) -> (r: Vec<u8>)
    ensures
        r@ == spec_range_key(start@, end@),
{
    let mut r = crate::events::clone_bytes(start);
    r.push(45u8);
    crate::bytes::push_all(&mut r, end);
    proof {
        assert(r@ =~= spec_range_key(start@, end@));
    }
    r
}

pub open spec fn contains_range(s: Seq<SigRangeModel>, k: Seq<u8>) -> bool {
    exists|i: int| 0 <= i < s.len() && spec_range_key(s[i].before, s[i].until) == k
}

pub open spec fn range_index(s: Seq<SigRangeModel>, k: Seq<u8>) -> int {
    choose|i: int| 0 <= i < s.len() && spec_range_key(s[i].before, s[i].until) == k
}

pub open spec fn contains_sig(s: Seq<SigModel>, k: Seq<u8>) -> bool {
    exists|i: int| 0 <= i < s.len() && s[i].sig == k
}

pub open spec fn sig_index(s: Seq<SigModel>, k: Seq<u8>) -> int {
    choose|i: int| 0 <= i < s.len() && s[i].sig == k
}

pub open spec fn contains_dep(s: Seq<DepositModel>, k: Seq<u8>) -> bool {
    exists|i: int| 0 <= i < s.len() && s[i].sig == k
}

pub open spec fn dep_index(s: Seq<DepositModel>, k: Seq<u8>) -> int {
    choose|i: int| 0 <= i < s.len() && s[i].sig == k
}

pub open spec fn contains_wd(s: Seq<WithdrawalModel>, id: u64) -> bool {
    exists|i: int| 0 <= i < s.len() && s[i].burn_id == id
}

pub open spec fn wd_index(s: Seq<WithdrawalModel>, id: u64) -> int {
    choose|i: int| 0 <= i < s.len() && s[i].burn_id == id
}

pub open spec fn contains_principal(s: Seq<Seq<u8>>, p: Seq<u8>) -> bool {
    exists|i: int| 0 <= i < s.len() && s[i] == p
}

pub open spec fn principal_index(s: Seq<Seq<u8>>, p: Seq<u8>) -> int {
    choose|i: int| 0 <= i < s.len() && s[i] == p
}

pub open spec fn contains_dep_id(s: Seq<DepositModel>, id: u64) -> bool {
    exists|i: int| 0 <= i < s.len() && s[i].deposit_id == id
}

// ---------------------------------------------------------------------------
// Well-formedness
// ---------------------------------------------------------------------------

pub open spec fn distinct_ranges(s: Seq<SigRangeModel>) -> bool {
    forall|i: int, j: int|
        0 <= i < j < s.len() ==> spec_range_key(s[i].before, s[i].until) != spec_range_key(
            s[j].before,
            s[j].until,
        )
}

pub open spec fn distinct_sigs(s: Seq<SigModel>) -> bool {
    forall|i: int, j: int| 0 <= i < j < s.len() ==> s[i].sig != s[j].sig
}

pub open spec fn distinct_deps(s: Seq<DepositModel>) -> bool {
    forall|i: int, j: int| 0 <= i < j < s.len() ==> s[i].sig != s[j].sig
}

pub open spec fn distinct_wds(s: Seq<WithdrawalModel>) -> bool {
    forall|i: int, j: int| 0 <= i < j < s.len() ==> s[i].burn_id != s[j].burn_id
}

pub open spec fn distinct_principals(s: Seq<Seq<u8>>) -> bool {
    forall|i: int, j: int| 0 <= i < j < s.len() ==> s[i] != s[j]
}

pub open spec fn distinct_tasks(s: Seq<TaskType>) -> bool {
    forall|i: int, j: int| 0 <= i < j < s.len() ==> s[i] != s[j]
}

/// A discovered signature belongs to at most one of the four deposit
/// lifecycle stages.
pub open spec fn stages_disjoint(m: StateModel) -> bool {
    &&& forall|i: int, j: int|
        0 <= i < m.signatures.len() && 0 <= j < m.invalid.len() ==> m.signatures[i].sig
            != m.invalid[j].sig
    &&& forall|i: int, j: int|
        0 <= i < m.signatures.len() && 0 <= j < m.accepted.len() ==> m.signatures[i].sig
            != m.accepted[j].sig
    &&& forall|i: int, j: int|
        0 <= i < m.signatures.len() && 0 <= j < m.minted.len() ==> m.signatures[i].sig
            != m.minted[j].sig
    &&& forall|i: int, j: int|
        0 <= i < m.invalid.len() && 0 <= j < m.accepted.len() ==> m.invalid[i].sig
            != m.accepted[j].sig
    &&& forall|i: int, j: int|
        0 <= i < m.invalid.len() && 0 <= j < m.minted.len() ==> m.invalid[i].sig
            != m.minted[j].sig
    &&& forall|i: int, j: int|
        0 <= i < m.accepted.len() && 0 <= j < m.minted.len() ==> m.accepted[i].sig
            != m.minted[j].sig
}

/// A withdrawal is burned or redeemed, never both; it carries a coupon
/// exactly when redeemed, and the coupon repeats the withdrawal's fields
/// and verifies.
pub open spec fn withdrawals_wf(m: StateModel) -> bool {
    &&& forall|i: int, j: int|
        0 <= i < m.burned.len() && 0 <= j < m.redeemed.len() ==> m.burned[i].burn_id
            != m.redeemed[j].burn_id
    &&& forall|i: int| 0 <= i < m.burned.len() ==> #[trigger] m.burned[i].coupon is None
    &&& forall|i: int|
        0 <= i < m.redeemed.len() ==> spec_coupon_matches_withdrawal(#[trigger] m.redeemed[i])
}

/// All deposit identifiers ever granted (the accepted and minted tables)
/// are pairwise distinct and lie below the counter.
pub open spec fn deposit_ids_wf(m: StateModel) -> bool {
    &&& forall|i: int, j: int|
        0 <= i < j < m.accepted.len() ==> m.accepted[i].deposit_id != m.accepted[j].deposit_id
    &&& forall|i: int, j: int|
        0 <= i < j < m.minted.len() ==> m.minted[i].deposit_id != m.minted[j].deposit_id
    &&& forall|i: int, j: int|
        0 <= i < m.accepted.len() && 0 <= j < m.minted.len() ==> m.accepted[i].deposit_id
            != m.minted[j].deposit_id
    &&& forall|i: int|
        0 <= i < m.accepted.len() ==> #[trigger] m.accepted[i].deposit_id < m.deposit_id_counter
    &&& forall|i: int|
        0 <= i < m.minted.len() ==> #[trigger] m.minted[i].deposit_id < m.deposit_id_counter
}

/// All burn identifiers lie below the counter.
pub open spec fn burn_ids_wf(m: StateModel) -> bool {
    &&& forall|i: int|
        0 <= i < m.burned.len() ==> #[trigger] m.burned[i].burn_id < m.burn_id_counter
    &&& forall|i: int|
        0 <= i < m.redeemed.len() ==> #[trigger] m.redeemed[i].burn_id < m.burn_id_counter
}

pub open spec fn wf(m: StateModel) -> bool {
    &&& distinct_ranges(m.ranges)
    &&& distinct_sigs(m.signatures)
    &&& distinct_sigs(m.invalid)
    &&& distinct_deps(m.accepted)
    &&& distinct_deps(m.minted)
    &&& distinct_wds(m.burned)
    &&& distinct_wds(m.redeemed)
    &&& distinct_principals(m.withdrawing)
    &&& distinct_tasks(m.active_tasks)
    &&& stages_disjoint(m)
    &&& withdrawals_wf(m)
    &&& deposit_ids_wf(m)
    &&& burn_ids_wf(m)
}


// ---------------------------------------------------------------------------
// Search helpers
// ---------------------------------------------------------------------------

pub(crate) fn find_range_index(v: &Vec<SolanaSignatureRange>, key: &Vec<u8>) -> (r: Option<usize>)
    ensures
        match r {
            Some(i) => i < v@.len() && spec_range_key(v@[i as int]@.before, v@[i as int]@.until)
                == key@,
            None => !contains_range(v@.map(|i: int, e: SolanaSignatureRange| e@), key@),
        },
{
    let n = v.len();
    let mut i: usize = 0;
    while i < n
        invariant
            n == v@.len(),
            i <= n,
            forall|j: int| 0 <= j < i ==> spec_range_key(v@[j]@.before, v@[j]@.until) != key@,
        decreases n - i,
    {
        let k = range_key(&v[i].before_sol_sig, &v[i].until_sol_sig);
        if bytes_eq(&k, key) {
            return Some(i);
        }
        i += 1;
    }
    proof {
        let m = v@.map(|i: int, e: SolanaSignatureRange| e@);
        assert forall|j: int| 0 <= j < m.len() implies spec_range_key(m[j].before, m[j].until)
            != key@ by {
            assert(m[j] == v@[j]@);
        }
    }
    None
}

pub(crate) fn find_sig_index(v: &Vec<SolanaSignature>, key: &Vec<u8>) -> (r: Option<usize>)
    ensures
        match r {
            Some(i) => i < v@.len() && v@[i as int]@.sig == key@,
            None => !contains_sig(v@.map(|i: int, e: SolanaSignature| e@), key@),
        },
{
    let n = v.len();
    let mut i: usize = 0;
    while i < n
        invariant
            n == v@.len(),
            i <= n,
            forall|j: int| 0 <= j < i ==> v@[j]@.sig != key@,
        decreases n - i,
    {
        if bytes_eq(&v[i].sol_sig, key) {
            return Some(i);
        }
        i += 1;
    }
    proof {
        let m = v@.map(|i: int, e: SolanaSignature| e@);
        assert forall|j: int| 0 <= j < m.len() implies m[j].sig != key@ by {
            assert(m[j] == v@[j]@);
        }
    }
    None
}

pub(crate) fn find_dep_index(v: &Vec<DepositEvent>, key: &Vec<u8>) -> (r: Option<usize>)
    ensures
        match r {
            Some(i) => i < v@.len() && v@[i as int]@.sig == key@,
            None => !contains_dep(v@.map(|i: int, e: DepositEvent| e@), key@),
        },
{
    let n = v.len();
    let mut i: usize = 0;
    while i < n
        invariant
            n == v@.len(),
            i <= n,
            forall|j: int| 0 <= j < i ==> v@[j]@.sig != key@,
        decreases n - i,
    {
        if bytes_eq(&v[i].sol_sig, key) {
            return Some(i);
        }
        i += 1;
    }
    proof {
        let m = v@.map(|i: int, e: DepositEvent| e@);
        assert forall|j: int| 0 <= j < m.len() implies m[j].sig != key@ by {
            assert(m[j] == v@[j]@);
        }
    }
    None
}

pub(crate) fn find_wd_index(v: &Vec<WithdrawalEvent>, id: u64) -> (r: Option<usize>)
    ensures
        match r {
            Some(i) => i < v@.len() && v@[i as int]@.burn_id == id,
            None => !contains_wd(v@.map(|i: int, e: WithdrawalEvent| e@), id),
        },
{
    let n = v.len();
    let mut i: usize = 0;
    while i < n
        invariant
            n == v@.len(),
            i <= n,
            forall|j: int| 0 <= j < i ==> v@[j]@.burn_id != id,
        decreases n - i,
    {
        if v[i].burn_id == id {
            return Some(i);
        }
        i += 1;
    }
    proof {
        let m = v@.map(|i: int, e: WithdrawalEvent| e@);
        assert forall|j: int| 0 <= j < m.len() implies m[j].burn_id != id by {
            assert(m[j] == v@[j]@);
        }
    }
    None
}

pub(crate) fn find_principal_index(v: &Vec<PrincipalId>, p: &PrincipalId) -> (r: Option<usize>)
    ensures
        match r {
            Some(i) => i < v@.len() && v@[i as int]@ == p@,
            None => !contains_principal(v@.map(|i: int, e: PrincipalId| e@), p@),
        },
{
    let n = v.len();
    let mut i: usize = 0;
    while i < n
        invariant
            n == v@.len(),
            i <= n,
            forall|j: int| 0 <= j < i ==> v@[j]@ != p@,
        decreases n - i,
    {
        if bytes_eq(&v[i].bytes, &p.bytes) {
            return Some(i);
        }
        i += 1;
    }
    proof {
        let m = v@.map(|i: int, e: PrincipalId| e@);
        assert forall|j: int| 0 <= j < m.len() implies m[j] != p@ by {
            assert(m[j] == v@[j]@);
        }
    }
    None
}

pub(crate) fn find_task_index(v: &Vec<TaskType>, t: TaskType) -> (r: Option<usize>)
    ensures
        match r {
            Some(i) => i < v@.len() && v@[i as int] == t,
            None => !v@.contains(t),
        },
{
    let n = v.len();
    let mut i: usize = 0;
    while i < n
        invariant
            n == v@.len(),
            i <= n,
            forall|j: int| 0 <= j < i ==> v@[j] != t,
        decreases n - i,
    {
        if v[i] == t {
            return Some(i);
        }
        i += 1;
    }
    None
}

// ---------------------------------------------------------------------------
// Uniqueness of key positions
// ---------------------------------------------------------------------------

pub proof fn lemma_range_index(s: Seq<SigRangeModel>, k: Seq<u8>, i: int)
    requires
        distinct_ranges(s),
        0 <= i < s.len(),
        spec_range_key(s[i].before, s[i].until) == k,
    ensures
        contains_range(s, k),
        range_index(s, k) == i,
{
    assert(contains_range(s, k));
    let j = range_index(s, k);
    assert(0 <= j < s.len() && spec_range_key(s[j].before, s[j].until) == k);
}

pub proof fn lemma_sig_index(s: Seq<SigModel>, k: Seq<u8>, i: int)
    requires
        distinct_sigs(s),
        0 <= i < s.len(),
        s[i].sig == k,
    ensures
        contains_sig(s, k),
        sig_index(s, k) == i,
{
    assert(contains_sig(s, k));
    let j = sig_index(s, k);
    assert(0 <= j < s.len() && s[j].sig == k);
}

pub proof fn lemma_dep_index(s: Seq<DepositModel>, k: Seq<u8>, i: int)
    requires
        distinct_deps(s),
        0 <= i < s.len(),
        s[i].sig == k,
    ensures
        contains_dep(s, k),
        dep_index(s, k) == i,
{
    assert(contains_dep(s, k));
    let j = dep_index(s, k);
    assert(0 <= j < s.len() && s[j].sig == k);
}

pub proof fn lemma_wd_index(s: Seq<WithdrawalModel>, id: u64, i: int)
    requires
        distinct_wds(s),
        0 <= i < s.len(),
        s[i].burn_id == id,
    ensures
        contains_wd(s, id),
        wd_index(s, id) == i,
{
    assert(contains_wd(s, id));
    let j = wd_index(s, id);
    assert(0 <= j < s.len() && s[j].burn_id == id);
}

pub proof fn lemma_principal_index(s: Seq<Seq<u8>>, p: Seq<u8>, i: int)
    requires
        distinct_principals(s),
        0 <= i < s.len(),
        s[i] == p,
    ensures
        contains_principal(s, p),
        principal_index(s, p) == i,
{
    assert(contains_principal(s, p));
    let j = principal_index(s, p);
    assert(0 <= j < s.len() && s[j] == p);
}

// ---------------------------------------------------------------------------
// Configuration validity
// ---------------------------------------------------------------------------

pub open spec fn spec_is_ascii_ws(b: u8) -> bool {
    b == 9 || b == 10 || b == 11 || b == 12 || b == 13 || b == 32
}

/// Empty, or nothing but ASCII whitespace.
pub open spec fn spec_is_blank(s: Seq<u8>) -> bool {
    forall|i: int| 0 <= i < s.len() ==> spec_is_ascii_ws(#[trigger] s[i])
}

pub fn is_blank(v: &Vec<u8>) -> (r: bool)
    ensures
        r == spec_is_blank(v@),
{
    let n = v.len();
    let mut i: usize = 0;
    while i < n
        invariant
            n == v@.len(),
            i <= n,
            forall|j: int| 0 <= j < i ==> spec_is_ascii_ws(#[trigger] v@[j]),
        decreases n - i,
    {
        let b = v[i];
        if !(b == 9 || b == 10 || b == 11 || b == 12 || b == 13 || b == 32) {
            return false;
        }
        i += 1;
    }
    true
}

/// The configuration a state must carry: a named signing key, a watched
/// program address, an initial watermark, and a positive withdrawal floor.
pub open spec fn spec_config_valid(m: StateModel) -> bool {
    &&& !spec_is_blank(m.ecdsa_key_name)
    &&& !spec_is_blank(m.solana_contract_address)
    &&& !spec_is_blank(m.solana_initial_signature)
    &&& m.minimum_withdrawal_amount > 0
}

// ---------------------------------------------------------------------------
// Transitions on the model
// ---------------------------------------------------------------------------

/// Wrapping bump used by identifier counters.
pub open spec fn spec_wrap_inc(c: u64) -> u64 {
    if c == u64::MAX { 0u64 } else { (c + 1) as u64 }
}

pub open spec fn spec_init_state(a: InitModel) -> StateModel {
    StateModel {
        solana_rpc_url: a.solana_rpc_url,
        solana_contract_address: a.solana_contract_address,
        solana_initial_signature: a.solana_initial_signature,
        ecdsa_key_name: a.ecdsa_key_name,
        ecdsa_public_key: None,
        ecdsa_proxy_public_key: None,
        minimum_withdrawal_amount: a.minimum_withdrawal_amount,
        solana_last_known_signature: None,
        ranges: Seq::empty(),
        signatures: Seq::empty(),
        invalid: Seq::empty(),
        accepted: Seq::empty(),
        minted: Seq::empty(),
        burned: Seq::empty(),
        redeemed: Seq::empty(),
        withdrawing: Seq::empty(),
        deposit_id_counter: 0u64,
        burn_id_counter: 0u64,
        http_request_counter: 0u64,
        active_tasks: Seq::empty(),
    }
}

pub open spec fn spec_apply_upgrade(m: StateModel, a: UpgradeModel) -> StateModel {
    StateModel {
        solana_rpc_url: match a.solana_rpc_url {
            Some(v) => v,
            None => m.solana_rpc_url,
        },
        solana_contract_address: match a.solana_contract_address {
            Some(v) => v,
            None => m.solana_contract_address,
        },
        solana_initial_signature: match a.solana_initial_signature {
            Some(v) => v,
            None => m.solana_initial_signature,
        },
        ecdsa_key_name: match a.ecdsa_key_name {
            Some(v) => v,
            None => m.ecdsa_key_name,
        },
        minimum_withdrawal_amount: match a.minimum_withdrawal_amount {
            Some(v) => v,
            None => m.minimum_withdrawal_amount,
        },
        ..m
    }
}

// ---------------------------------------------------------------------------
// The state's own operations
// ---------------------------------------------------------------------------

impl State {
    /// Builds the state a fresh install starts from; rejects an invalid
    /// configuration.
    pub fn from_init(args: InitArg) -> (r: Result<State, InvalidStateError>)
        ensures
            r is Ok <==> spec_config_valid(spec_init_state(args@)),
            r matches Ok(s) ==> s@ == spec_init_state(args@) && wf(s@),
            r matches Err(e) ==> spec_upgrade_error_fits(
                e,
                args@.ecdsa_key_name,
                args@.solana_contract_address,
                args@.solana_initial_signature,
                args@.minimum_withdrawal_amount,
            ),
    {
        let s = State {
            solana_rpc_url: args.solana_rpc_url,
            solana_contract_address: args.solana_contract_address,
            solana_initial_signature: args.solana_initial_signature,
            ecdsa_key_name: args.ecdsa_key_name,
            ecdsa_public_key: None,
            ecdsa_proxy_public_key: None,
            minimum_withdrawal_amount: args.minimum_withdrawal_amount,
            solana_last_known_signature: None,
            solana_signature_ranges: Vec::new(),
            solana_signatures: Vec::new(),
            invalid_events: Vec::new(),
            accepted_events: Vec::new(),
            minted_events: Vec::new(),
            withdrawal_burned_events: Vec::new(),
            withdrawal_redeemed_events: Vec::new(),
            withdrawing_principals: Vec::new(),
            deposit_id_counter: 0,
            burn_id_counter: 0,
            http_request_counter: 0,
            active_tasks: Vec::new(),
        };
        proof {
            assert(s@ =~= spec_init_state(args@));
        }
        match s.validate_config() {
            Ok(()) => Ok(s),
            Err(e) => Err(e),
        }
    }

    /// Checks the configuration fields in order; `Ok` exactly when all are
    /// present and the withdrawal floor is positive.
    pub fn validate_config(&self) -> (r: Result<(), InvalidStateError>)
        ensures
            r is Ok <==> spec_config_valid(self@),
            r matches Err(e) ==> spec_upgrade_error_fits(
                e,
                self@.ecdsa_key_name,
                self@.solana_contract_address,
                self@.solana_initial_signature,
                self@.minimum_withdrawal_amount,
            ),
    {
        if is_blank(&self.ecdsa_key_name) {
            return Err(InvalidStateError::InvalidEcdsaKeyName(Vec::new()));
        }
        if is_blank(&self.solana_contract_address) {
            return Err(InvalidStateError::InvalidSolanaContractAddress(Vec::new()));
        }
        if is_blank(&self.solana_initial_signature) {
            return Err(InvalidStateError::InvalidSolanaInitialSignature(Vec::new()));
        }
        if self.minimum_withdrawal_amount == 0 {
            return Err(InvalidStateError::InvalidMinimumWithdrawalAmount(Vec::new()));
        }
        Ok(())
    }

    /// Applies a configuration delta field by field. The delta is
    /// validated first: a failing field rejects the upgrade and leaves the
    /// configuration untouched.
    pub fn upgrade(&mut self, args: UpgradeArg) -> (r: Result<(), InvalidStateError>)
        requires
            wf(old(self)@),
        ensures
            wf(final(self)@),
            r is Ok <==> spec_config_valid(spec_apply_upgrade(old(self)@, args@)),
            r is Ok ==> final(self)@ == spec_apply_upgrade(old(self)@, args@),
            r is Err ==> final(self)@ == old(self)@,
            r matches Err(e) ==> spec_upgrade_error_fits(
                e,
                spec_apply_upgrade(old(self)@, args@).ecdsa_key_name,
                spec_apply_upgrade(old(self)@, args@).solana_contract_address,
                spec_apply_upgrade(old(self)@, args@).solana_initial_signature,
                spec_apply_upgrade(old(self)@, args@).minimum_withdrawal_amount,
            ),
    {
        let key_ok = match &args.ecdsa_key_name {
            Some(k) => !is_blank(k),
            None => !is_blank(&self.ecdsa_key_name),
        };
        let addr_ok = match &args.solana_contract_address {
            Some(k) => !is_blank(k),
            None => !is_blank(&self.solana_contract_address),
        };
        let sig_ok = match &args.solana_initial_signature {
            Some(k) => !is_blank(k),
            None => !is_blank(&self.solana_initial_signature),
        };
        let min_ok = match &args.minimum_withdrawal_amount {
            Some(v) => *v > 0,
            None => self.minimum_withdrawal_amount > 0,
        };
        if !key_ok {
            return Err(InvalidStateError::InvalidEcdsaKeyName(Vec::new()));
        }
        if !addr_ok {
            return Err(InvalidStateError::InvalidSolanaContractAddress(Vec::new()));
        }
        if !sig_ok {
            return Err(InvalidStateError::InvalidSolanaInitialSignature(Vec::new()));
        }
        if !min_ok {
            return Err(InvalidStateError::InvalidMinimumWithdrawalAmount(Vec::new()));
        }
        if let Some(url) = args.solana_rpc_url {
            self.solana_rpc_url = url;
        }
        if let Some(address) = args.solana_contract_address {
            self.solana_contract_address = address;
        }
        if let Some(signature) = args.solana_initial_signature {
            self.solana_initial_signature = signature;
        }
        if let Some(key_name) = args.ecdsa_key_name {
            self.ecdsa_key_name = key_name;
        }
        if let Some(amount) = args.minimum_withdrawal_amount {
            self.minimum_withdrawal_amount = amount;
        }
        proof {
            assert(self@ =~= spec_apply_upgrade(old(self)@, args@));
        }
        Ok(())
    }

    /// Hex form of the cached compressed signing key.
    pub fn compressed_public_key(&self) -> (r: String)
        requires
            self@.ecdsa_public_key is Some,
        ensures
            r@ == crate::crypto::spec_hex_lower(self@.ecdsa_public_key.unwrap()),
    {
        match &self.ecdsa_public_key {
            Some(pk) => crate::crypto::hex_encode(pk),
            None => {
                proof {
                    assert(false);
                }
                String::new()
            },
        }
    }

    /// Hex form of the 65-byte uncompressed signing key, or nothing where
    /// no key is cached or its bytes do not decode as a curve point.
    pub fn uncompressed_public_key(&self) -> (r: Option<String>)
        ensures
            r is Some <==> self@.ecdsa_public_key is Some
                && crate::crypto::secp256k1_uncompressed_of(self@.ecdsa_public_key.unwrap())
                is Some,
            r matches Some(h) ==> h@ == crate::crypto::spec_hex_lower(
                crate::crypto::secp256k1_uncompressed_of(self@.ecdsa_public_key.unwrap()).unwrap(),
            ),
    {
        match &self.ecdsa_public_key {
            Some(pk) => match crate::crypto::uncompress_public_key(pk) {
                Some(u) => Some(crate::crypto::hex_encode(&u)),
                None => None,
            },
            None => None,
        }
    }

    pub fn solana_rpc_url(&self) -> (r: Vec<u8>)
        ensures
            r@ == self@.solana_rpc_url,
    {
        crate::events::clone_bytes(&self.solana_rpc_url)
    }

    pub fn record_solana_last_known_signature(&mut self, sig: &Vec<u8>)
        ensures
            final(self)@ == (StateModel {
                solana_last_known_signature: Some(sig@),
                ..old(self)@
            }),
            wf(old(self)@) ==> wf(final(self)@),
    {
        self.solana_last_known_signature = Some(crate::events::clone_bytes(sig));
        proof {
            assert(self@ =~= (StateModel {
                solana_last_known_signature: Some(sig@),
                ..old(self)@
            }));
        }
    }

    /// The discovery watermark: the last known signature, or the configured
    /// initial one before anything was seen.
    pub open spec fn spec_watermark(m: StateModel) -> Seq<u8> {
        match m.solana_last_known_signature {
            Some(s) => s,
            None => m.solana_initial_signature,
        }
    }

    pub fn get_solana_last_known_signature(&self) -> (r: Vec<u8>)
        ensures
            r@ == State::spec_watermark(self@),
    {
        match &self.solana_last_known_signature {
            Some(s) => crate::events::clone_bytes(s),
            None => crate::events::clone_bytes(&self.solana_initial_signature),
        }
    }

    /// Correlates requests and responses; wraps freely, the value is never
    /// an ordering key.
    pub fn next_request_id(&mut self) -> (r: u64)
        ensures
            r == old(self)@.http_request_counter,
            final(self)@ == (StateModel {
                http_request_counter: spec_wrap_inc(old(self)@.http_request_counter),
                ..old(self)@
            }),
            wf(old(self)@) ==> wf(final(self)@),
    {
        let current = self.http_request_counter;
        self.http_request_counter = if self.http_request_counter == u64::MAX {
            0
        } else {
            self.http_request_counter + 1
        };
        proof {
            assert(self@ =~= (StateModel {
                http_request_counter: spec_wrap_inc(old(self)@.http_request_counter),
                ..old(self)@
            }));
        }
        current
    }

    /// Grants the next deposit identifier. Injectivity is promised only
    /// within one wraparound window, so the counter must not be at its end.
    pub fn next_deposit_id(&mut self) -> (r: u64)
        requires
            old(self)@.deposit_id_counter < u64::MAX,
        ensures
            r == old(self)@.deposit_id_counter,
            final(self)@ == (StateModel {
                deposit_id_counter: (old(self)@.deposit_id_counter + 1) as u64,
                ..old(self)@
            }),
            wf(old(self)@) ==> wf(final(self)@),
    {
        let current = self.deposit_id_counter;
        self.deposit_id_counter = self.deposit_id_counter + 1;
        proof {
            assert(self@ =~= (StateModel {
                deposit_id_counter: (old(self)@.deposit_id_counter + 1) as u64,
                ..old(self)@
            }));
        }
        current
    }

    /// Grants the next burn identifier; same wraparound-window bound as
    /// deposit identifiers.
    pub fn next_burn_id(&mut self) -> (r: u64)
        requires
            old(self)@.burn_id_counter < u64::MAX,
        ensures
            r == old(self)@.burn_id_counter,
            final(self)@ == (StateModel {
                burn_id_counter: (old(self)@.burn_id_counter + 1) as u64,
                ..old(self)@
            }),
            wf(old(self)@) ==> wf(final(self)@),
    {
        let current = self.burn_id_counter;
        self.burn_id_counter = self.burn_id_counter + 1;
        proof {
            assert(self@ =~= (StateModel {
                burn_id_counter: (old(self)@.burn_id_counter + 1) as u64,
                ..old(self)@
            }));
        }
        current
    }

    /// Restores the deposit counter from a snapshot; the snapshot must sit
    /// above every identifier already granted.
    pub fn set_deposit_id_counter(&mut self, id: u64)
        requires
            forall|i: int|
                0 <= i < old(self)@.accepted.len() ==> #[trigger] old(
                    self,
                )@.accepted[i].deposit_id < id,
            forall|i: int|
                0 <= i < old(self)@.minted.len() ==> #[trigger] old(self)@.minted[i].deposit_id
                    < id,
        ensures
            final(self)@ == (StateModel { deposit_id_counter: id, ..old(self)@ }),
            wf(old(self)@) ==> wf(final(self)@),
    {
        self.deposit_id_counter = id;
        proof {
            assert(self@ =~= (StateModel { deposit_id_counter: id, ..old(self)@ }));
        }
    }

    /// Restores the burn counter from a snapshot; the snapshot must sit
    /// above every identifier already granted.
    pub fn set_burn_id_counter(&mut self, id: u64)
        requires
            forall|i: int|
                0 <= i < old(self)@.burned.len() ==> #[trigger] old(self)@.burned[i].burn_id < id,
            forall|i: int|
                0 <= i < old(self)@.redeemed.len() ==> #[trigger] old(self)@.redeemed[i].burn_id
                    < id,
        ensures
            final(self)@ == (StateModel { burn_id_counter: id, ..old(self)@ }),
            wf(old(self)@) ==> wf(final(self)@),
    {
        self.burn_id_counter = id;
        proof {
            assert(self@ =~= (StateModel { burn_id_counter: id, ..old(self)@ }));
        }
    }
}

/// Which validation error fits which broken field, in checking order.
pub open spec fn spec_upgrade_error_fits(
    e: InvalidStateError,
    key_name: Seq<u8>,
    contract: Seq<u8>,
    init_sig: Seq<u8>,
    min_amount: u128,
) -> bool {
    match e {
        InvalidStateError::InvalidEcdsaKeyName(_) => spec_is_blank(key_name),
        InvalidStateError::InvalidSolanaContractAddress(_) => !spec_is_blank(key_name)
            && spec_is_blank(contract),
        InvalidStateError::InvalidSolanaInitialSignature(_) => !spec_is_blank(key_name)
            && !spec_is_blank(contract) && spec_is_blank(init_sig),
        InvalidStateError::InvalidMinimumWithdrawalAmount(_) => !spec_is_blank(key_name)
            && !spec_is_blank(contract) && !spec_is_blank(init_sig) && min_amount == 0,
        InvalidStateError::InvalidLedgerId(_) => false,
    }
}


// ---------------------------------------------------------------------------
// Table transitions on the model
// ---------------------------------------------------------------------------

pub open spec fn spec_record_signature_range(m: StateModel, r: SigRangeModel) -> StateModel {
    StateModel { ranges: m.ranges.push(r), ..m }
}

pub open spec fn spec_retry_signature_range(
    m: StateModel,
    old_key: Seq<u8>,
    new: Option<SigRangeModel>,
) -> StateModel {
    let i = range_index(m.ranges, old_key);
    let e = m.ranges[i];
    match new {
        Some(n) => StateModel { ranges: m.ranges.remove(i).push(n), ..m },
        None => StateModel {
            ranges: m.ranges.update(i, SigRangeModel { retry: spec_inc_retry(e.retry), ..e }),
            ..m
        },
    }
}

pub open spec fn spec_remove_signature_range(m: StateModel, key: Seq<u8>) -> StateModel {
    StateModel { ranges: m.ranges.remove(range_index(m.ranges, key)), ..m }
}

pub open spec fn spec_record_or_retry_signature(m: StateModel, s: SigModel) -> StateModel {
    if contains_sig(m.signatures, s.sig) {
        let i = sig_index(m.signatures, s.sig);
        let e = m.signatures[i];
        StateModel {
            signatures: m.signatures.update(i, SigModel { retry: spec_inc_retry(e.retry), ..e }),
            ..m
        }
    } else {
        StateModel { signatures: m.signatures.push(s), ..m }
    }
}

pub open spec fn spec_record_invalid(m: StateModel, s: SigModel) -> StateModel {
    StateModel {
        signatures: m.signatures.remove(sig_index(m.signatures, s.sig)),
        invalid: m.invalid.push(SigModel { retry: 0u64, ..s }),
        ..m
    }
}

impl State {
    /// Starts tracking a fresh pending range; the key must be new and the
    /// window non-empty (its two markers differ).
    pub fn record_solana_signature_range(&mut self, range: SolanaSignatureRange)
        requires
            wf(old(self)@),
            range@.before != range@.until,
            !contains_range(old(self)@.ranges, spec_range_key(range@.before, range@.until)),
        ensures
            wf(final(self)@),
            final(self)@ == spec_record_signature_range(old(self)@, range@),
    {
        let ghost m0 = old(self)@;
        let ghost rm = range@;
        self.solana_signature_ranges.push(range);
        proof {
            assert forall|j: int| 0 <= j < self@.ranges.len() implies self@.ranges[j]
                == m0.ranges.push(rm)[j] by {
                assert(self@.ranges[j] == self.solana_signature_ranges@[j]@);
                if j < m0.ranges.len() {
                    assert(m0.ranges[j] == old(self).solana_signature_ranges@[j]@);
                }
            }
            assert(self@.ranges =~= m0.ranges.push(rm));
            assert(self@ =~= spec_record_signature_range(m0, rm));
            let m1 = self@;
            assert forall|a: int, b: int| 0 <= a < b < m1.ranges.len() implies spec_range_key(
                m1.ranges[a].before,
                m1.ranges[a].until,
            ) != spec_range_key(m1.ranges[b].before, m1.ranges[b].until) by {
                if b == m1.ranges.len() - 1 {
                    assert(m1.ranges[a] == m0.ranges[a]);
                    assert(!(spec_range_key(m0.ranges[a].before, m0.ranges[a].until)
                        == spec_range_key(rm.before, rm.until)));
                }
            }
        }
    }

    /// Replays or advances a pending range: with a successor the old range
    /// is replaced (subdivision); without one its retry counter is bumped.
    pub fn retry_solana_signature_range(
        &mut self,
        old_range: SolanaSignatureRange,
        new_range: Option<SolanaSignatureRange>,
    )
        requires
            wf(old(self)@),
            contains_range(
                old(self)@.ranges,
                spec_range_key(old_range@.before, old_range@.until),
            ),
            new_range matches Some(n) ==> n@.before != n@.until && (spec_range_key(
                n@.before,
                n@.until,
            ) == spec_range_key(old_range@.before, old_range@.until) || !contains_range(
                old(self)@.ranges,
                spec_range_key(n@.before, n@.until),
            )),
        ensures
            wf(final(self)@),
            final(self)@ == spec_retry_signature_range(
                old(self)@,
                spec_range_key(old_range@.before, old_range@.until),
                match new_range {
                    Some(n) => Some(n@),
                    None => None,
                },
            ),
    {
        let ghost m0 = old(self)@;
        let ghost ok = spec_range_key(old_range@.before, old_range@.until);
        let key = range_key(&old_range.before_sol_sig, &old_range.until_sol_sig);
        let found = find_range_index(&self.solana_signature_ranges, &key);
        match found {
            None => {
                proof {
                    assert(false);
                }
            },
            Some(i) => {
                proof {
                    lemma_range_index(m0.ranges, ok, i as int);
                }
                match new_range {
                    Some(n) => {
                        let ghost nm = n@;
                        let _ = self.solana_signature_ranges.remove(i);
                        self.solana_signature_ranges.push(n);
                        proof {
                            let target = m0.ranges.remove(i as int).push(nm);
                            assert forall|j: int| 0 <= j < self@.ranges.len() implies self@.ranges[j]
                                == target[j] by {
                                assert(self@.ranges[j] == self.solana_signature_ranges@[j]@);
                                if j < i as int {
                                    assert(m0.ranges[j] == old(
                                        self,
                                    ).solana_signature_ranges@[j]@);
                                } else if j < self@.ranges.len() - 1 {
                                    assert(m0.ranges[j + 1] == old(
                                        self,
                                    ).solana_signature_ranges@[j + 1]@);
                                }
                            }
                            assert(self@.ranges =~= target);
                            assert(self@ =~= spec_retry_signature_range(m0, ok, Some(nm)));
                            let m1 = self@;
                            assert forall|a: int, b: int|
                                0 <= a < b < m1.ranges.len() implies spec_range_key(
                                m1.ranges[a].before,
                                m1.ranges[a].until,
                            ) != spec_range_key(m1.ranges[b].before, m1.ranges[b].until) by {
                                let oa: int = if a < i as int {
                                    a
                                } else {
                                    a + 1
                                };
                                assert(m1.ranges[a] == m0.ranges[oa]);
                                if b < m1.ranges.len() - 1 {
                                    let ob: int = if b < i as int {
                                        b
                                    } else {
                                        b + 1
                                    };
                                    assert(m1.ranges[b] == m0.ranges[ob]);
                                } else {
                                    assert(m1.ranges[b] == nm);
                                    if spec_range_key(nm.before, nm.until) == ok {
                                        assert(spec_range_key(
                                            m0.ranges[oa].before,
                                            m0.ranges[oa].until,
                                        ) != ok);
                                    } else {
                                        assert(!contains_range(
                                            m0.ranges,
                                            spec_range_key(nm.before, nm.until),
                                        ));
                                    }
                                }
                            }
                        }
                    },
                    None => {
                        let mut e = self.solana_signature_ranges.remove(i);
                        e.increment_retries();
                        self.solana_signature_ranges.insert(i, e);
                        proof {
                            let em = m0.ranges[i as int];
                            let target = m0.ranges.update(
                                i as int,
                                SigRangeModel { retry: spec_inc_retry(em.retry), ..em },
                            );
                            assert forall|j: int| 0 <= j < self@.ranges.len() implies self@.ranges[j]
                                == target[j] by {
                                assert(self@.ranges[j] == self.solana_signature_ranges@[j]@);
                                if j != i as int {
                                    assert(m0.ranges[j] == old(
                                        self,
                                    ).solana_signature_ranges@[j]@);
                                }
                            }
                            assert(self@.ranges =~= target);
                            assert(self@ =~= spec_retry_signature_range(m0, ok, None));
                            let m1 = self@;
                            assert forall|a: int| 0 <= a < m1.ranges.len() implies spec_range_key(
                                m1.ranges[a].before,
                                m1.ranges[a].until,
                            ) == spec_range_key(m0.ranges[a].before, m0.ranges[a].until) by {}
                        }
                    },
                }
            },
        }
    }

    /// Drops a fully resolved (or abandoned) range.
    pub fn remove_solana_signature_range(&mut self, range: &SolanaSignatureRange)
        requires
            wf(old(self)@),
            contains_range(old(self)@.ranges, spec_range_key(range@.before, range@.until)),
        ensures
            wf(final(self)@),
            final(self)@ == spec_remove_signature_range(
                old(self)@,
                spec_range_key(range@.before, range@.until),
            ),
    {
        let ghost m0 = old(self)@;
        let ghost k = spec_range_key(range@.before, range@.until);
        let key = range_key(&range.before_sol_sig, &range.until_sol_sig);
        let found = find_range_index(&self.solana_signature_ranges, &key);
        match found {
            None => {
                proof {
                    assert(false);
                }
            },
            Some(i) => {
                proof {
                    lemma_range_index(m0.ranges, k, i as int);
                }
                let _ = self.solana_signature_ranges.remove(i);
                proof {
                    let target = m0.ranges.remove(i as int);
                    assert forall|j: int| 0 <= j < self@.ranges.len() implies self@.ranges[j]
                        == target[j] by {
                        assert(self@.ranges[j] == self.solana_signature_ranges@[j]@);
                        if j < i as int {
                            assert(m0.ranges[j] == old(self).solana_signature_ranges@[j]@);
                        } else {
                            assert(m0.ranges[j + 1] == old(self).solana_signature_ranges@[j + 1]@);
                        }
                    }
                    assert(self@.ranges =~= target);
                    assert(self@ =~= spec_remove_signature_range(m0, k));
                    let m1 = self@;
                    assert forall|a: int, b: int| 0 <= a < b < m1.ranges.len() implies spec_range_key(
                        m1.ranges[a].before,
                        m1.ranges[a].until,
                    ) != spec_range_key(m1.ranges[b].before, m1.ranges[b].until) by {
                        let oa: int = if a < i as int { a } else { a + 1 };
                        let ob: int = if b < i as int { b } else { b + 1 };
                        assert(m1.ranges[a] == m0.ranges[oa]);
                        assert(m1.ranges[b] == m0.ranges[ob]);
                    }
                }
            },
        }
    }

    /// First sight of a signature records it; a later sight bumps its
    /// retry counter.
    pub fn record_or_retry_solana_signature(&mut self, sig: SolanaSignature)
        requires
            wf(old(self)@),
            !contains_sig(old(self)@.signatures, sig@.sig) ==> !contains_sig(
                old(self)@.invalid,
                sig@.sig,
            ) && !contains_dep(old(self)@.accepted, sig@.sig) && !contains_dep(
                old(self)@.minted,
                sig@.sig,
            ),
        ensures
            wf(final(self)@),
            final(self)@ == spec_record_or_retry_signature(old(self)@, sig@),
    {
        let ghost m0 = old(self)@;
        let ghost sm = sig@;
        let found = find_sig_index(&self.solana_signatures, &sig.sol_sig);
        match found {
            Some(i) => {
                proof {
                    lemma_sig_index(m0.signatures, sm.sig, i as int);
                }
                let mut e = self.solana_signatures.remove(i);
                e.increment_retries();
                self.solana_signatures.insert(i, e);
                proof {
                    let em = m0.signatures[i as int];
                    let target = m0.signatures.update(
                        i as int,
                        SigModel { retry: spec_inc_retry(em.retry), ..em },
                    );
                    assert forall|j: int| 0 <= j < self@.signatures.len() implies self@.signatures[j]
                        == target[j] by {
                        assert(self@.signatures[j] == self.solana_signatures@[j]@);
                        if j != i as int {
                            assert(m0.signatures[j] == old(self).solana_signatures@[j]@);
                        }
                    }
                    assert(self@.signatures =~= target);
                    assert(self@ =~= spec_record_or_retry_signature(m0, sm));
                    assert(forall|a: int|
                        0 <= a < self@.signatures.len() ==> self@.signatures[a].sig
                            == m0.signatures[a].sig);
                }
            },
            None => {
                self.solana_signatures.push(sig);
                proof {
                    assert forall|j: int| 0 <= j < self@.signatures.len() implies self@.signatures[j]
                        == m0.signatures.push(sm)[j] by {
                        assert(self@.signatures[j] == self.solana_signatures@[j]@);
                        if j < m0.signatures.len() {
                            assert(m0.signatures[j] == old(self).solana_signatures@[j]@);
                        }
                    }
                    assert(self@.signatures =~= m0.signatures.push(sm));
                    assert(self@ =~= spec_record_or_retry_signature(m0, sm));
                    let m1 = self@;
                    assert forall|a: int, b: int|
                        0 <= a < b < m1.signatures.len() implies m1.signatures[a].sig
                        != m1.signatures[b].sig by {
                        if b == m1.signatures.len() - 1 {
                            assert(m1.signatures[a] == m0.signatures[a]);
                            assert(!(m0.signatures[a].sig == sm.sig));
                        }
                    }
                    assert forall|a: int, j: int|
                        0 <= a < m1.signatures.len() && 0 <= j < m1.invalid.len() implies m1.signatures[a].sig
                        != m1.invalid[j].sig by {
                        if a == m1.signatures.len() - 1 {
                            assert(!(m1.invalid[j].sig == sm.sig));
                        }
                    }
                    assert forall|a: int, j: int|
                        0 <= a < m1.signatures.len() && 0 <= j < m1.accepted.len() implies m1.signatures[a].sig
                        != m1.accepted[j].sig by {
                        if a == m1.signatures.len() - 1 {
                            assert(!(m1.accepted[j].sig == sm.sig));
                        }
                    }
                    assert forall|a: int, j: int|
                        0 <= a < m1.signatures.len() && 0 <= j < m1.minted.len() implies m1.signatures[a].sig
                        != m1.minted[j].sig by {
                        if a == m1.signatures.len() - 1 {
                            assert(!(m1.minted[j].sig == sm.sig));
                        }
                    }
                }
            },
        }
    }

    /// Moves a pending signature to the invalid table, resetting its retry
    /// counter.
    pub fn record_invalid_event(&mut self, sig: SolanaSignature)
        requires
            wf(old(self)@),
            contains_sig(old(self)@.signatures, sig@.sig),
        ensures
            wf(final(self)@),
            final(self)@ == spec_record_invalid(old(self)@, sig@),
    {
        let ghost m0 = old(self)@;
        let ghost sm = sig@;
        let found = find_sig_index(&self.solana_signatures, &sig.sol_sig);
        match found {
            None => {
                proof {
                    assert(false);
                }
            },
            Some(i) => {
                proof {
                    lemma_sig_index(m0.signatures, sm.sig, i as int);
                }
                let _ = self.solana_signatures.remove(i);
                let mut s = sig;
                s.reset_retries();
                self.invalid_events.push(s);
                proof {
                    let starget = m0.signatures.remove(i as int);
                    assert forall|j: int| 0 <= j < self@.signatures.len() implies self@.signatures[j]
                        == starget[j] by {
                        assert(self@.signatures[j] == self.solana_signatures@[j]@);
                        if j < i as int {
                            assert(m0.signatures[j] == old(self).solana_signatures@[j]@);
                        } else {
                            assert(m0.signatures[j + 1] == old(self).solana_signatures@[j + 1]@);
                        }
                    }
                    assert(self@.signatures =~= starget);
                    let itarget = m0.invalid.push(SigModel { retry: 0u64, ..sm });
                    assert forall|j: int| 0 <= j < self@.invalid.len() implies self@.invalid[j]
                        == itarget[j] by {
                        assert(self@.invalid[j] == self.invalid_events@[j]@);
                        if j < m0.invalid.len() {
                            assert(m0.invalid[j] == old(self).invalid_events@[j]@);
                        }
                    }
                    assert(self@.invalid =~= itarget);
                    assert(self@ =~= spec_record_invalid(m0, sm));
                    let m1 = self@;
                    // each surviving signature comes from an old index other than i
                    assert forall|a: int| 0 <= a < m1.signatures.len() implies m1.signatures[a]
                        == m0.signatures[if a < i as int {
                        a
                    } else {
                        a + 1
                    }] by {}
                    // the moved key is gone from signatures
                    assert forall|a: int| 0 <= a < m1.signatures.len() implies m1.signatures[a].sig
                        != sm.sig by {
                        let oa: int = if a < i as int { a } else { a + 1 };
                        assert(m0.signatures[oa].sig != m0.signatures[i as int].sig);
                    }
                    assert forall|a: int, b: int|
                        0 <= a < b < m1.invalid.len() implies m1.invalid[a].sig
                        != m1.invalid[b].sig by {
                        if b == m1.invalid.len() - 1 {
                            assert(m1.invalid[a] == m0.invalid[a]);
                            assert(m0.signatures[i as int].sig != m0.invalid[a].sig);
                        }
                    }
                    assert forall|a: int, j: int|
                        0 <= a < m1.invalid.len() && 0 <= j < m1.accepted.len() implies m1.invalid[a].sig
                        != m1.accepted[j].sig by {
                        if a == m1.invalid.len() - 1 {
                            assert(m1.accepted[j].sig != m0.signatures[i as int].sig);
                        }
                    }
                    assert forall|a: int, j: int|
                        0 <= a < m1.invalid.len() && 0 <= j < m1.minted.len() implies m1.invalid[a].sig
                        != m1.minted[j].sig by {
                        if a == m1.invalid.len() - 1 {
                            assert(m1.minted[j].sig != m0.signatures[i as int].sig);
                        }
                    }
                }
            },
        }
    }
}


pub open spec fn spec_record_or_retry_accepted(m: StateModel, d: DepositModel) -> StateModel {
    if contains_dep(m.accepted, d.sig) {
        let i = dep_index(m.accepted, d.sig);
        let e = m.accepted[i];
        StateModel {
            accepted: m.accepted.update(i, DepositModel { retry: spec_inc_retry(e.retry), ..e }),
            ..m
        }
    } else {
        StateModel {
            signatures: m.signatures.remove(sig_index(m.signatures, d.sig)),
            accepted: m.accepted.push(d),
            ..m
        }
    }
}

pub open spec fn spec_record_minted(m: StateModel, d: DepositModel) -> StateModel {
    StateModel {
        accepted: m.accepted.remove(dep_index(m.accepted, d.sig)),
        minted: m.minted.push(DepositModel { retry: 0u64, ..d }),
        ..m
    }
}

pub open spec fn spec_record_or_retry_burned(m: StateModel, w: WithdrawalModel) -> StateModel {
    if contains_wd(m.burned, w.burn_id) {
        let i = wd_index(m.burned, w.burn_id);
        let e = m.burned[i];
        StateModel {
            burned: m.burned.update(i, WithdrawalModel { retry: spec_inc_retry(e.retry), ..e }),
            ..m
        }
    } else {
        StateModel { burned: m.burned.push(w), ..m }
    }
}

pub open spec fn spec_record_redeemed(m: StateModel, w: WithdrawalModel) -> StateModel {
    StateModel {
        burned: m.burned.remove(wd_index(m.burned, w.burn_id)),
        redeemed: m.redeemed.push(WithdrawalModel { retry: 0u64, ..w }),
        ..m
    }
}

pub open spec fn spec_insert_withdrawing(m: StateModel, p: Seq<u8>) -> StateModel {
    StateModel { withdrawing: m.withdrawing.push(p), ..m }
}

pub open spec fn spec_remove_withdrawing(m: StateModel, p: Seq<u8>) -> StateModel {
    StateModel { withdrawing: m.withdrawing.remove(principal_index(m.withdrawing, p)), ..m }
}

pub open spec fn spec_acquire_task(m: StateModel, t: TaskType) -> StateModel {
    StateModel { active_tasks: m.active_tasks.push(t), ..m }
}

pub open spec fn spec_release_task(m: StateModel, t: TaskType) -> StateModel {
    StateModel { active_tasks: m.active_tasks.remove(m.active_tasks.index_of(t)), ..m }
}

impl State {
    /// A fresh valid deposit moves its signature into the accepted table;
    /// a deposit already accepted has its retry counter bumped.
    pub fn record_or_retry_accepted_event(&mut self, deposit: DepositEvent)
        requires
            wf(old(self)@),
            !contains_dep(old(self)@.accepted, deposit@.sig) ==> {
                &&& contains_sig(old(self)@.signatures, deposit@.sig)
                &&& forall|i: int|
                    0 <= i < old(self)@.accepted.len() ==> #[trigger] old(
                        self,
                    )@.accepted[i].deposit_id != deposit@.deposit_id
                &&& forall|i: int|
                    0 <= i < old(self)@.minted.len() ==> #[trigger] old(
                        self,
                    )@.minted[i].deposit_id != deposit@.deposit_id
                &&& deposit@.deposit_id < old(self)@.deposit_id_counter
            },
        ensures
            wf(final(self)@),
            final(self)@ == spec_record_or_retry_accepted(old(self)@, deposit@),
    {
        let ghost m0 = old(self)@;
        let ghost dm = deposit@;
        let found = find_dep_index(&self.accepted_events, &deposit.sol_sig);
        match found {
            Some(i) => {
                proof {
                    lemma_dep_index(m0.accepted, dm.sig, i as int);
                }
                let mut e = self.accepted_events.remove(i);
                e.increment_retries();
                self.accepted_events.insert(i, e);
                proof {
                    let em = m0.accepted[i as int];
                    let target = m0.accepted.update(
                        i as int,
                        DepositModel { retry: spec_inc_retry(em.retry), ..em },
                    );
                    assert forall|j: int| 0 <= j < self@.accepted.len() implies self@.accepted[j]
                        == target[j] by {
                        assert(self@.accepted[j] == self.accepted_events@[j]@);
                        if j != i as int {
                            assert(m0.accepted[j] == old(self).accepted_events@[j]@);
                        }
                    }
                    assert(self@.accepted =~= target);
                    assert(self@ =~= spec_record_or_retry_accepted(m0, dm));
                    assert(forall|a: int|
                        0 <= a < self@.accepted.len() ==> self@.accepted[a].sig
                            == m0.accepted[a].sig && self@.accepted[a].deposit_id
                            == m0.accepted[a].deposit_id);
                }
            },
            None => {
                let sig_found = find_sig_index(&self.solana_signatures, &deposit.sol_sig);
                match sig_found {
                    None => {
                        proof {
                            assert(!contains_dep(m0.accepted, dm.sig));
                            assert(false);
                        }
                    },
                    Some(j) => {
                        proof {
                            assert(!contains_dep(m0.accepted, dm.sig));
                            lemma_sig_index(m0.signatures, dm.sig, j as int);
                        }
                        let _ = self.solana_signatures.remove(j);
                        self.accepted_events.push(deposit);
                        proof {
                            let starget = m0.signatures.remove(j as int);
                            assert forall|a: int|
                                0 <= a < self@.signatures.len() implies self@.signatures[a]
                                == starget[a] by {
                                assert(self@.signatures[a] == self.solana_signatures@[a]@);
                                if a < j as int {
                                    assert(m0.signatures[a] == old(self).solana_signatures@[a]@);
                                } else {
                                    assert(m0.signatures[a + 1] == old(
                                        self,
                                    ).solana_signatures@[a + 1]@);
                                }
                            }
                            assert(self@.signatures =~= starget);
                            let atarget = m0.accepted.push(dm);
                            assert forall|a: int| 0 <= a < self@.accepted.len() implies self@.accepted[a]
                                == atarget[a] by {
                                assert(self@.accepted[a] == self.accepted_events@[a]@);
                                if a < m0.accepted.len() {
                                    assert(m0.accepted[a] == old(self).accepted_events@[a]@);
                                }
                            }
                            assert(self@.accepted =~= atarget);
                            assert(self@ =~= spec_record_or_retry_accepted(m0, dm));
                            let m1 = self@;
                            assert forall|a: int|
                                0 <= a < m1.signatures.len() implies m1.signatures[a]
                                == m0.signatures[if a < j as int {
                                a
                            } else {
                                a + 1
                            }] by {}
                            // the accepted key is gone from signatures
                            assert forall|a: int|
                                0 <= a < m1.signatures.len() implies m1.signatures[a].sig
                                != dm.sig by {
                                let oa: int = if a < j as int {
                                    a
                                } else {
                                    a + 1
                                };
                                assert(m0.signatures[oa].sig != m0.signatures[j as int].sig);
                            }
                            assert forall|a: int, b: int|
                                0 <= a < b < m1.accepted.len() implies m1.accepted[a].sig
                                != m1.accepted[b].sig by {
                                if b == m1.accepted.len() - 1 {
                                    assert(m1.accepted[a] == m0.accepted[a]);
                                    assert(!(m0.accepted[a].sig == dm.sig));
                                }
                            }
                            assert forall|a: int, b: int|
                                0 <= a < m1.invalid.len() && 0 <= b < m1.accepted.len() implies m1.invalid[a].sig
                                != m1.accepted[b].sig by {
                                if b == m1.accepted.len() - 1 {
                                    assert(m0.invalid[a].sig != m0.signatures[j as int].sig);
                                }
                            }
                            assert forall|a: int, b: int|
                                0 <= a < m1.accepted.len() && 0 <= b < m1.minted.len() implies m1.accepted[a].sig
                                != m1.minted[b].sig by {
                                if a == m1.accepted.len() - 1 {
                                    assert(m0.minted[b].sig != m0.signatures[j as int].sig);
                                }
                            }
                            assert forall|a: int, b: int|
                                0 <= a < b < m1.accepted.len() implies m1.accepted[a].deposit_id
                                != m1.accepted[b].deposit_id by {
                                if b == m1.accepted.len() - 1 {
                                    assert(m1.accepted[a] == m0.accepted[a]);
                                }
                            }
                            assert forall|a: int, b: int|
                                0 <= a < m1.accepted.len() && 0 <= b < m1.minted.len() implies m1.accepted[a].deposit_id
                                != m1.minted[b].deposit_id by {
                                if a == m1.accepted.len() - 1 {
                                    assert(m0.minted[b].deposit_id != dm.deposit_id);
                                }
                            }
                        }
                    },
                }
            },
        }
    }

    /// Promotes an accepted deposit to minted, resetting its retry
    /// counter. The argument must repeat the stored deposit identifier.
    pub fn record_minted_event(&mut self, deposit: DepositEvent)
        requires
            wf(old(self)@),
            contains_dep(old(self)@.accepted, deposit@.sig),
            old(self)@.accepted[dep_index(old(self)@.accepted, deposit@.sig)].deposit_id
                == deposit@.deposit_id,
        ensures
            wf(final(self)@),
            final(self)@ == spec_record_minted(old(self)@, deposit@),
    {
        let ghost m0 = old(self)@;
        let ghost dm = deposit@;
        let found = find_dep_index(&self.accepted_events, &deposit.sol_sig);
        match found {
            None => {
                proof {
                    assert(false);
                }
            },
            Some(i) => {
                proof {
                    lemma_dep_index(m0.accepted, dm.sig, i as int);
                }
                let _ = self.accepted_events.remove(i);
                let mut d = deposit;
                d.reset_retries();
                self.minted_events.push(d);
                proof {
                    let atarget = m0.accepted.remove(i as int);
                    assert forall|a: int| 0 <= a < self@.accepted.len() implies self@.accepted[a]
                        == atarget[a] by {
                        assert(self@.accepted[a] == self.accepted_events@[a]@);
                        if a < i as int {
                            assert(m0.accepted[a] == old(self).accepted_events@[a]@);
                        } else {
                            assert(m0.accepted[a + 1] == old(self).accepted_events@[a + 1]@);
                        }
                    }
                    assert(self@.accepted =~= atarget);
                    let mtarget = m0.minted.push(DepositModel { retry: 0u64, ..dm });
                    assert forall|a: int| 0 <= a < self@.minted.len() implies self@.minted[a]
                        == mtarget[a] by {
                        assert(self@.minted[a] == self.minted_events@[a]@);
                        if a < m0.minted.len() {
                            assert(m0.minted[a] == old(self).minted_events@[a]@);
                        }
                    }
                    assert(self@.minted =~= mtarget);
                    assert(self@ =~= spec_record_minted(m0, dm));
                    let m1 = self@;
                    assert forall|a: int| 0 <= a < m1.accepted.len() implies m1.accepted[a]
                        == m0.accepted[if a < i as int {
                        a
                    } else {
                        a + 1
                    }] by {}
                    // the minted key and identifier are gone from accepted
                    assert forall|a: int| 0 <= a < m1.accepted.len() implies m1.accepted[a].sig
                        != dm.sig && m1.accepted[a].deposit_id != dm.deposit_id by {
                        let oa: int = if a < i as int { a } else { a + 1 };
                        assert(m0.accepted[oa].sig != m0.accepted[i as int].sig);
                        assert(m0.accepted[oa].deposit_id != m0.accepted[i as int].deposit_id);
                    }
                    assert forall|a: int, b: int| 0 <= a < b < m1.minted.len() implies m1.minted[a].sig
                        != m1.minted[b].sig && m1.minted[a].deposit_id
                        != m1.minted[b].deposit_id by {
                        if b == m1.minted.len() - 1 {
                            assert(m1.minted[a] == m0.minted[a]);
                            assert(m0.accepted[i as int].sig != m0.minted[a].sig);
                            assert(m0.accepted[i as int].deposit_id != m0.minted[a].deposit_id);
                        }
                    }
                    assert forall|a: int, b: int|
                        0 <= a < m1.signatures.len() && 0 <= b < m1.minted.len() implies m1.signatures[a].sig
                        != m1.minted[b].sig by {
                        if b == m1.minted.len() - 1 {
                            assert(m1.signatures[a].sig != m0.accepted[i as int].sig);
                        }
                    }
                    assert forall|a: int, b: int|
                        0 <= a < m1.invalid.len() && 0 <= b < m1.minted.len() implies m1.invalid[a].sig
                        != m1.minted[b].sig by {
                        if b == m1.minted.len() - 1 {
                            assert(m1.invalid[a].sig != m0.accepted[i as int].sig);
                        }
                    }
                    assert forall|a: int, b: int|
                        0 <= a < m1.accepted.len() && 0 <= b < m1.minted.len() implies m1.accepted[a].sig
                        != m1.minted[b].sig && m1.accepted[a].deposit_id
                        != m1.minted[b].deposit_id by {
                        let oa: int = if a < i as int { a } else { a + 1 };
                        assert(m1.accepted[a] == m0.accepted[oa]);
                        if b == m1.minted.len() - 1 {
                            assert(m0.accepted[oa].sig != m0.accepted[i as int].sig);
                            assert(m0.accepted[oa].deposit_id != m0.accepted[i as int].deposit_id);
                        }
                    }
                }
            },
        }
    }

    /// A fresh burn enters the burned table; recording the same burn again
    /// bumps its retry counter.
    pub fn record_or_retry_withdrawal_burned_event(&mut self, withdrawal: WithdrawalEvent)
        requires
            wf(old(self)@),
            !contains_wd(old(self)@.burned, withdrawal@.burn_id) ==> {
                &&& !contains_wd(old(self)@.redeemed, withdrawal@.burn_id)
                &&& withdrawal@.burn_id < old(self)@.burn_id_counter
                &&& withdrawal@.coupon is None
            },
        ensures
            wf(final(self)@),
            final(self)@ == spec_record_or_retry_burned(old(self)@, withdrawal@),
    {
        let ghost m0 = old(self)@;
        let ghost wm = withdrawal@;
        let found = find_wd_index(&self.withdrawal_burned_events, withdrawal.burn_id);
        match found {
            Some(i) => {
                proof {
                    lemma_wd_index(m0.burned, wm.burn_id, i as int);
                }
                let mut e = self.withdrawal_burned_events.remove(i);
                e.increment_retries();
                self.withdrawal_burned_events.insert(i, e);
                proof {
                    let em = m0.burned[i as int];
                    let target = m0.burned.update(
                        i as int,
                        WithdrawalModel { retry: spec_inc_retry(em.retry), ..em },
                    );
                    assert forall|j: int| 0 <= j < self@.burned.len() implies self@.burned[j]
                        == target[j] by {
                        assert(self@.burned[j] == self.withdrawal_burned_events@[j]@);
                        if j != i as int {
                            assert(m0.burned[j] == old(self).withdrawal_burned_events@[j]@);
                        }
                    }
                    assert(self@.burned =~= target);
                    assert(self@ =~= spec_record_or_retry_burned(m0, wm));
                    assert(forall|a: int|
                        0 <= a < self@.burned.len() ==> self@.burned[a].burn_id
                            == m0.burned[a].burn_id && self@.burned[a].coupon
                            == m0.burned[a].coupon);
                }
            },
            None => {
                self.withdrawal_burned_events.push(withdrawal);
                proof {
                    assert forall|j: int| 0 <= j < self@.burned.len() implies self@.burned[j]
                        == m0.burned.push(wm)[j] by {
                        assert(self@.burned[j] == self.withdrawal_burned_events@[j]@);
                        if j < m0.burned.len() {
                            assert(m0.burned[j] == old(self).withdrawal_burned_events@[j]@);
                        }
                    }
                    assert(self@.burned =~= m0.burned.push(wm));
                    assert(self@ =~= spec_record_or_retry_burned(m0, wm));
                    let m1 = self@;
                    assert forall|a: int, b: int| 0 <= a < b < m1.burned.len() implies m1.burned[a].burn_id
                        != m1.burned[b].burn_id by {
                        if b == m1.burned.len() - 1 {
                            assert(m1.burned[a] == m0.burned[a]);
                            assert(!(m0.burned[a].burn_id == wm.burn_id));
                        }
                    }
                    assert forall|a: int, b: int|
                        0 <= a < m1.burned.len() && 0 <= b < m1.redeemed.len() implies m1.burned[a].burn_id
                        != m1.redeemed[b].burn_id by {
                        if a == m1.burned.len() - 1 {
                            assert(!(m1.redeemed[b].burn_id == wm.burn_id));
                        }
                    }
                }
            },
        }
    }

    /// Promotes a burned withdrawal to redeemed; the argument carries the
    /// signed coupon over its own fields and a reset retry counter.
    pub fn record_withdrawal_redeemed_event(&mut self, withdrawal: WithdrawalEvent)
        requires
            wf(old(self)@),
            contains_wd(old(self)@.burned, withdrawal@.burn_id),
            spec_coupon_matches_withdrawal(withdrawal@),
        ensures
            wf(final(self)@),
            final(self)@ == spec_record_redeemed(old(self)@, withdrawal@),
    {
        let ghost m0 = old(self)@;
        let ghost wm = withdrawal@;
        let found = find_wd_index(&self.withdrawal_burned_events, withdrawal.burn_id);
        match found {
            None => {
                proof {
                    assert(false);
                }
            },
            Some(i) => {
                proof {
                    lemma_wd_index(m0.burned, wm.burn_id, i as int);
                }
                let _ = self.withdrawal_burned_events.remove(i);
                let mut w = withdrawal;
                w.reset_retries();
                self.withdrawal_redeemed_events.push(w);
                proof {
                    let btarget = m0.burned.remove(i as int);
                    assert forall|a: int| 0 <= a < self@.burned.len() implies self@.burned[a]
                        == btarget[a] by {
                        assert(self@.burned[a] == self.withdrawal_burned_events@[a]@);
                        if a < i as int {
                            assert(m0.burned[a] == old(self).withdrawal_burned_events@[a]@);
                        } else {
                            assert(m0.burned[a + 1] == old(
                                self,
                            ).withdrawal_burned_events@[a + 1]@);
                        }
                    }
                    assert(self@.burned =~= btarget);
                    let rtarget = m0.redeemed.push(WithdrawalModel { retry: 0u64, ..wm });
                    assert forall|a: int| 0 <= a < self@.redeemed.len() implies self@.redeemed[a]
                        == rtarget[a] by {
                        assert(self@.redeemed[a] == self.withdrawal_redeemed_events@[a]@);
                        if a < m0.redeemed.len() {
                            assert(m0.redeemed[a] == old(self).withdrawal_redeemed_events@[a]@);
                        }
                    }
                    assert(self@.redeemed =~= rtarget);
                    assert(self@ =~= spec_record_redeemed(m0, wm));
                    let m1 = self@;
                    assert forall|a: int| 0 <= a < m1.burned.len() implies m1.burned[a]
                        == m0.burned[if a < i as int {
                        a
                    } else {
                        a + 1
                    }] by {}
                    assert forall|a: int| 0 <= a < m1.burned.len() implies m1.burned[a].burn_id
                        != wm.burn_id by {
                        let oa: int = if a < i as int { a } else { a + 1 };
                        assert(m0.burned[oa].burn_id != m0.burned[i as int].burn_id);
                    }
                    assert forall|a: int, b: int|
                        0 <= a < b < m1.redeemed.len() implies m1.redeemed[a].burn_id
                        != m1.redeemed[b].burn_id by {
                        if b == m1.redeemed.len() - 1 {
                            assert(m1.redeemed[a] == m0.redeemed[a]);
                            assert(m0.burned[i as int].burn_id != m0.redeemed[a].burn_id);
                        }
                    }
                    assert forall|a: int|
                        0 <= a < m1.redeemed.len() implies spec_coupon_matches_withdrawal(
                        m1.redeemed[a],
                    ) by {
                        if a == m1.redeemed.len() - 1 {
                            assert(m1.redeemed[a] == WithdrawalModel { retry: 0u64, ..wm });
                        } else {
                            assert(m1.redeemed[a] == m0.redeemed[a]);
                        }
                    }
                }
            },
        }
    }

    /// Whether this principal already has a withdrawal in flight.
    pub fn is_withdrawing(&self, p: &PrincipalId) -> (r: bool)
        ensures
            r == contains_principal(self@.withdrawing, p@),
    {
        match find_principal_index(&self.withdrawing_principals, p) {
            Some(i) => {
                proof {
                    assert(self@.withdrawing[i as int] == p@);
                }
                true
            },
            None => false,
        }
    }

    /// Takes the per-principal withdrawal slot; the caller must hold none.
    pub fn insert_withdrawing(&mut self, p: &PrincipalId)
        requires
            wf(old(self)@),
            !contains_principal(old(self)@.withdrawing, p@),
        ensures
            wf(final(self)@),
            final(self)@ == spec_insert_withdrawing(old(self)@, p@),
    {
        let ghost m0 = old(self)@;
        self.withdrawing_principals.push(p.clone_id());
        proof {
            assert forall|j: int| 0 <= j < self@.withdrawing.len() implies self@.withdrawing[j]
                == m0.withdrawing.push(p@)[j] by {
                assert(self@.withdrawing[j] == self.withdrawing_principals@[j]@);
                if j < m0.withdrawing.len() {
                    assert(m0.withdrawing[j] == old(self).withdrawing_principals@[j]@);
                }
            }
            assert(self@.withdrawing =~= m0.withdrawing.push(p@));
            assert(self@ =~= spec_insert_withdrawing(m0, p@));
            let m1 = self@;
            assert forall|a: int, b: int| 0 <= a < b < m1.withdrawing.len() implies m1.withdrawing[a]
                != m1.withdrawing[b] by {
                if b == m1.withdrawing.len() - 1 {
                    assert(m1.withdrawing[a] == m0.withdrawing[a]);
                    assert(!(m0.withdrawing[a] == p@));
                }
            }
        }
    }

    /// Releases the per-principal withdrawal slot.
    pub fn remove_withdrawing(&mut self, p: &PrincipalId)
        requires
            wf(old(self)@),
            contains_principal(old(self)@.withdrawing, p@),
        ensures
            wf(final(self)@),
            final(self)@ == spec_remove_withdrawing(old(self)@, p@),
    {
        let ghost m0 = old(self)@;
        let found = find_principal_index(&self.withdrawing_principals, p);
        match found {
            None => {
                proof {
                    assert(false);
                }
            },
            Some(i) => {
                proof {
                    lemma_principal_index(m0.withdrawing, p@, i as int);
                }
                let _ = self.withdrawing_principals.remove(i);
                proof {
                    let target = m0.withdrawing.remove(i as int);
                    assert forall|a: int| 0 <= a < self@.withdrawing.len() implies self@.withdrawing[a]
                        == target[a] by {
                        assert(self@.withdrawing[a] == self.withdrawing_principals@[a]@);
                        if a < i as int {
                            assert(m0.withdrawing[a] == old(self).withdrawing_principals@[a]@);
                        } else {
                            assert(m0.withdrawing[a + 1] == old(
                                self,
                            ).withdrawing_principals@[a + 1]@);
                        }
                    }
                    assert(self@.withdrawing =~= target);
                    assert(self@ =~= spec_remove_withdrawing(m0, p@));
                    let m1 = self@;
                    assert forall|a: int, b: int|
                        0 <= a < b < m1.withdrawing.len() implies m1.withdrawing[a]
                        != m1.withdrawing[b] by {
                        let oa: int = if a < i as int { a } else { a + 1 };
                        let ob: int = if b < i as int { b } else { b + 1 };
                        assert(m1.withdrawing[a] == m0.withdrawing[oa]);
                        assert(m1.withdrawing[b] == m0.withdrawing[ob]);
                    }
                }
            },
        }
    }

    /// Takes the named task lock; `false` (and no change) when the task is
    /// already live.
    pub fn acquire_task(&mut self, t: TaskType) -> (r: bool)
        requires
            wf(old(self)@),
        ensures
            wf(final(self)@),
            r == !old(self)@.active_tasks.contains(t),
            r ==> final(self)@ == spec_acquire_task(old(self)@, t),
            !r ==> final(self)@ == old(self)@,
    {
        let ghost m0 = old(self)@;
        let found = find_task_index(&self.active_tasks, t);
        match found {
            Some(i) => {
                proof {
                    assert(m0.active_tasks.contains(t));
                    assert(self@ =~= m0);
                }
                false
            },
            None => {
                self.active_tasks.push(t);
                proof {
                    assert(self@ =~= spec_acquire_task(m0, t));
                    let m1 = self@;
                    assert forall|a: int, b: int|
                        0 <= a < b < m1.active_tasks.len() implies m1.active_tasks[a]
                        != m1.active_tasks[b] by {
                        if b == m1.active_tasks.len() - 1 {
                            assert(m1.active_tasks[a] == m0.active_tasks[a]);
                        }
                    }
                }
                true
            },
        }
    }

    /// Releases the named task lock.
    pub fn release_task(&mut self, t: TaskType)
        requires
            wf(old(self)@),
            old(self)@.active_tasks.contains(t),
        ensures
            wf(final(self)@),
            final(self)@ == spec_release_task(old(self)@, t),
    {
        let ghost m0 = old(self)@;
        let found = find_task_index(&self.active_tasks, t);
        match found {
            None => {
                proof {
                    assert(false);
                }
            },
            Some(i) => {
                proof {
                    let j = m0.active_tasks.index_of(t);
                    assert(0 <= j < m0.active_tasks.len() && m0.active_tasks[j] == t);
                    if i as int != j {
                        assert(false);
                    }
                }
                let _ = self.active_tasks.remove(i);
                proof {
                    assert(self@ =~= spec_release_task(m0, t));
                    let m1 = self@;
                    assert forall|a: int, b: int|
                        0 <= a < b < m1.active_tasks.len() implies m1.active_tasks[a]
                        != m1.active_tasks[b] by {
                        let oa: int = if a < i as int { a } else { a + 1 };
                        let ob: int = if b < i as int { b } else { b + 1 };
                        assert(m1.active_tasks[a] == m0.active_tasks[oa]);
                        assert(m1.active_tasks[b] == m0.active_tasks[ob]);
                    }
                }
            },
        }
    }

    /// The burned-table entry for this burn identifier, if any.
    pub fn get_burned(&self, burn_id: u64) -> (r: Option<&WithdrawalEvent>)
        requires
            wf(self@),
        ensures
            r is Some <==> contains_wd(self@.burned, burn_id),
            r matches Some(w) ==> w@ == self@.burned[wd_index(self@.burned, burn_id)]
                && w@.burn_id == burn_id,
    {
        let found = find_wd_index(&self.withdrawal_burned_events, burn_id);
        match found {
            Some(i) => {
                proof {
                    lemma_wd_index(self@.burned, burn_id, i as int);
                }
                Some(&self.withdrawal_burned_events[i])
            },
            None => None,
        }
    }

    /// The redeemed-table entry for this burn identifier, if any.
    pub fn get_redeemed(&self, burn_id: u64) -> (r: Option<&WithdrawalEvent>)
        requires
            wf(self@),
        ensures
            r is Some <==> contains_wd(self@.redeemed, burn_id),
            r matches Some(w) ==> w@ == self@.redeemed[wd_index(self@.redeemed, burn_id)]
                && w@.burn_id == burn_id,
    {
        let found = find_wd_index(&self.withdrawal_redeemed_events, burn_id);
        match found {
            Some(i) => {
                proof {
                    lemma_wd_index(self@.redeemed, burn_id, i as int);
                }
                Some(&self.withdrawal_redeemed_events[i])
            },
            None => None,
        }
    }

    /// A copy of the accepted table, for the mint cycle to walk.
    pub fn accepted_snapshot(&self) -> (r: Vec<DepositEvent>)
        ensures
            r@.map(|i: int, d: DepositEvent| d@) == self@.accepted,
    {
        let mut r: Vec<DepositEvent> = Vec::new();
        let n = self.accepted_events.len();
        let mut i: usize = 0;
        while i < n
            invariant
                n == self.accepted_events@.len(),
                i <= n,
                r@.len() == i,
                forall|j: int| 0 <= j < i ==> r@[j]@ == self.accepted_events@[j]@,
            decreases n - i,
        {
            r.push(self.accepted_events[i].clone_deposit());
            i += 1;
        }
        proof {
            assert forall|j: int| 0 <= j < r@.len() implies r@.map(|i: int, d: DepositEvent| d@)[j]
                == self@.accepted[j] by {
                assert(r@.map(|i: int, d: DepositEvent| d@)[j] == r@[j]@);
                assert(self@.accepted[j] == self.accepted_events@[j]@);
            }
            assert(r@.map(|i: int, d: DepositEvent| d@) =~= self@.accepted);
        }
        r
    }

    /// A copy of the pending-signature table, for the fetch cycle to walk.
    pub fn signatures_snapshot(&self) -> (r: Vec<SolanaSignature>)
        ensures
            r@.map(|i: int, s: SolanaSignature| s@) == self@.signatures,
    {
        let mut r: Vec<SolanaSignature> = Vec::new();
        let n = self.solana_signatures.len();
        let mut i: usize = 0;
        while i < n
            invariant
                n == self.solana_signatures@.len(),
                i <= n,
                r@.len() == i,
                forall|j: int| 0 <= j < i ==> r@[j]@ == self.solana_signatures@[j]@,
            decreases n - i,
        {
            r.push(self.solana_signatures[i].clone_signature());
            i += 1;
        }
        proof {
            assert forall|j: int| 0 <= j < r@.len() implies r@.map(|i: int, s: SolanaSignature| s@)[j]
                == self@.signatures[j] by {
                assert(r@.map(|i: int, s: SolanaSignature| s@)[j] == r@[j]@);
                assert(self@.signatures[j] == self.solana_signatures@[j]@);
            }
            assert(r@.map(|i: int, s: SolanaSignature| s@) =~= self@.signatures);
        }
        r
    }

    /// A copy of the pending-range table, for the range cycle to walk.
    pub fn ranges_snapshot(&self) -> (r: Vec<SolanaSignatureRange>)
        ensures
            r@.map(|i: int, e: SolanaSignatureRange| e@) == self@.ranges,
    {
        let mut r: Vec<SolanaSignatureRange> = Vec::new();
        let n = self.solana_signature_ranges.len();
        let mut i: usize = 0;
        while i < n
            invariant
                n == self.solana_signature_ranges@.len(),
                i <= n,
                r@.len() == i,
                forall|j: int| 0 <= j < i ==> r@[j]@ == self.solana_signature_ranges@[j]@,
            decreases n - i,
        {
            r.push(self.solana_signature_ranges[i].clone_range());
            i += 1;
        }
        proof {
            assert forall|j: int|
                0 <= j < r@.len() implies r@.map(|i: int, e: SolanaSignatureRange| e@)[j]
                == self@.ranges[j] by {
                assert(r@.map(|i: int, e: SolanaSignatureRange| e@)[j] == r@[j]@);
                assert(self@.ranges[j] == self.solana_signature_ranges@[j]@);
            }
            assert(r@.map(|i: int, e: SolanaSignatureRange| e@) =~= self@.ranges);
        }
        r
    }
}

} // verus!
