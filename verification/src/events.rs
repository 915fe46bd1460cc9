//! Entities of the deposit and withdrawal lifecycles, with their
//! mathematical models. Signatures, addresses and principals are opaque
//! byte strings; only equality on them is ever used.

use vstd::prelude::*;

verus! {

/// Saturating retry bump: retry counters only ever race to `MAX_RETRIES`,
/// far below the saturation point.
pub open spec fn spec_inc_retry(r: u64) -> u64 {
    if r < u64::MAX { (r + 1) as u64 } else { r }
}

/// A caller identity on the destination chain, as its raw bytes.
/// The anonymous identity is the single byte 0x04.
pub struct PrincipalId {
    pub bytes: Vec<u8>,
}

impl View for PrincipalId {
    type V = Seq<u8>;

    open spec fn view(&self) -> Seq<u8> {
        self.bytes@
    }
}

pub open spec fn spec_is_anonymous(p: Seq<u8>) -> bool {
    p == seq![4u8]
}

impl PrincipalId {
    pub fn new(bytes: Vec<u8>) -> (r: PrincipalId)
        ensures
            r@ == bytes@,
    {
        PrincipalId { bytes }
    }

    pub fn anonymous() -> (r: PrincipalId)
        ensures
            spec_is_anonymous(r@),
    {
        let mut bytes: Vec<u8> = Vec::new();
        bytes.push(4u8);
        proof {
            assert(bytes@ =~= seq![4u8]);
        }
        PrincipalId { bytes }
    }

    pub fn is_anonymous(&self) -> (r: bool)
        ensures
            r == spec_is_anonymous(self@),
    {
        proof {
            if self.bytes@.len() == 1 && self.bytes@[0] == 4u8 {
                assert(self.bytes@ =~= seq![4u8]);
            }
        }
        self.bytes.len() == 1 && *self.bytes.first().unwrap() == 4u8
    }

    pub fn clone_id(&self) -> (r: PrincipalId)
        ensures
            r@ == self@,
    {
        PrincipalId { bytes: clone_bytes(&self.bytes) }
    }
}

/// Byte-for-byte copy of a byte string.
pub fn clone_bytes(v: &Vec<u8>) -> (r: Vec<u8>)
    ensures
        r@ == v@,
{
    let mut r: Vec<u8> = Vec::new();
    let n = v.len();
    let mut i: usize = 0;
    while i < n
        invariant
            n == v@.len(),
            i <= n,
            r@ == v@.subrange(0, i as int),
        decreases n - i,
    {
        r.push(v[i]);
        assert(r@ =~= v@.subrange(0, i + 1 as int));
        i += 1;
    }
    proof {
        assert(v@.subrange(0, n as int) =~= v@);
    }
    r
}

/// A half-open window `(before, until)` of source-chain signatures still
/// awaiting pagination. Invariant of use: `before != until`.
pub struct SolanaSignatureRange {
    pub before_sol_sig: Vec<u8>,
    pub until_sol_sig: Vec<u8>,
    pub retry: u64,
}

pub ghost struct SigRangeModel {
    pub before: Seq<u8>,
    pub until: Seq<u8>,
    pub retry: u64,
}

impl View for SolanaSignatureRange {
    type V = SigRangeModel;

    open spec fn view(&self) -> SigRangeModel {
        SigRangeModel {
            before: self.before_sol_sig@,
            until: self.until_sol_sig@,
            retry: self.retry,
        }
    }
}

impl SolanaSignatureRange {
    pub fn new(before: Vec<u8>, until: Vec<u8>) -> (r: SolanaSignatureRange)
        ensures
            r@ == (SigRangeModel { before: before@, until: until@, retry: 0u64 }),
    {
        SolanaSignatureRange { before_sol_sig: before, until_sol_sig: until, retry: 0 }
    }

    pub fn increment_retries(&mut self)
        ensures
            final(self)@ == (SigRangeModel { retry: spec_inc_retry(old(self)@.retry), ..old(self)@ }),
    {
        if self.retry < u64::MAX {
            self.retry = self.retry + 1;
        }
    }

    pub fn clone_range(&self) -> (r: SolanaSignatureRange)
        ensures
            r@ == self@,
    {
        SolanaSignatureRange {
            before_sol_sig: clone_bytes(&self.before_sol_sig),
            until_sol_sig: clone_bytes(&self.until_sol_sig),
            retry: self.retry,
        }
    }
}

/// A signature discovered on the source chain but not yet fetched and
/// classified.
pub struct SolanaSignature {
    pub sol_sig: Vec<u8>,
    pub slot: u64,
    pub retry: u64,
}

pub ghost struct SigModel {
    pub sig: Seq<u8>,
    pub slot: u64,
    pub retry: u64,
}

impl View for SolanaSignature {
    type V = SigModel;

    open spec fn view(&self) -> SigModel {
        SigModel { sig: self.sol_sig@, slot: self.slot, retry: self.retry }
    }
}

impl SolanaSignature {
    pub fn new(sol_sig: Vec<u8>, slot: u64) -> (r: SolanaSignature)
        ensures
            r@ == (SigModel { sig: sol_sig@, slot: slot, retry: 0u64 }),
    {
        SolanaSignature { sol_sig, slot, retry: 0 }
    }

    pub fn increment_retries(&mut self)
        ensures
            final(self)@ == (SigModel { retry: spec_inc_retry(old(self)@.retry), ..old(self)@ }),
    {
        if self.retry < u64::MAX {
            self.retry = self.retry + 1;
        }
    }

    pub fn reset_retries(&mut self)
        ensures
            final(self)@ == (SigModel { retry: 0u64, ..old(self)@ }),
    {
        self.retry = 0;
    }

    pub fn clone_signature(&self) -> (r: SolanaSignature)
        ensures
            r@ == self@,
    {
        SolanaSignature { sol_sig: clone_bytes(&self.sol_sig), slot: self.slot, retry: self.retry }
    }
}

/// A parsed deposit instruction: `amount` of gSOL is owed to
/// `recipient_principal`, sent from `sender_sol_addr` in transaction
/// `sol_sig`. Invariant of use: `amount > 0`.
pub struct DepositEvent {
    pub sol_sig: Vec<u8>,
    pub slot: u64,
    pub sender_sol_addr: Vec<u8>,
    pub recipient_principal: PrincipalId,
    pub amount: u64,
    pub deposit_id: u64,
    pub memo_bytes: Vec<u8>,
    pub retry: u64,
}

pub ghost struct DepositModel {
    pub sig: Seq<u8>,
    pub slot: u64,
    pub sender: Seq<u8>,
    pub recipient: Seq<u8>,
    pub amount: u64,
    pub deposit_id: u64,
    pub memo: Seq<u8>,
    pub retry: u64,
}

impl View for DepositEvent {
    type V = DepositModel;

    open spec fn view(&self) -> DepositModel {
        DepositModel {
            sig: self.sol_sig@,
            slot: self.slot,
            sender: self.sender_sol_addr@,
            recipient: self.recipient_principal@,
            amount: self.amount,
            deposit_id: self.deposit_id,
            memo: self.memo_bytes@,
            retry: self.retry,
        }
    }
}

impl DepositEvent {
    pub fn increment_retries(&mut self)
        ensures
            final(self)@ == (DepositModel { retry: spec_inc_retry(old(self)@.retry), ..old(self)@ }),
    {
        if self.retry < u64::MAX {
            self.retry = self.retry + 1;
        }
    }

    pub fn reset_retries(&mut self)
        ensures
            final(self)@ == (DepositModel { retry: 0u64, ..old(self)@ }),
    {
        self.retry = 0;
    }

    pub fn clone_deposit(&self) -> (r: DepositEvent)
        ensures
            r@ == self@,
    {
        DepositEvent {
            sol_sig: clone_bytes(&self.sol_sig),
            slot: self.slot,
            sender_sol_addr: clone_bytes(&self.sender_sol_addr),
            recipient_principal: self.recipient_principal.clone_id(),
            amount: self.amount,
            deposit_id: self.deposit_id,
            memo_bytes: clone_bytes(&self.memo_bytes),
            retry: self.retry,
        }
    }
}

/// A signed authorization to release SOL on the source chain.
pub struct Coupon {
    pub burn_id: u64,
    pub recipient_sol_addr: Vec<u8>,
    pub amount: u128,
    pub message_hash: Vec<u8>,
    pub signature: Vec<u8>,
    pub signer_public_key: Vec<u8>,
}

pub ghost struct CouponModel {
    pub burn_id: u64,
    pub recipient: Seq<u8>,
    pub amount: u128,
    pub message_hash: Seq<u8>,
    pub signature: Seq<u8>,
    pub signer_public_key: Seq<u8>,
}

impl View for Coupon {
    type V = CouponModel;

    open spec fn view(&self) -> CouponModel {
        CouponModel {
            burn_id: self.burn_id,
            recipient: self.recipient_sol_addr@,
            amount: self.amount,
            message_hash: self.message_hash@,
            signature: self.signature@,
            signer_public_key: self.signer_public_key@,
        }
    }
}

impl Coupon {
    pub fn clone_coupon(&self) -> (r: Coupon)
        ensures
            r@ == self@,
    {
        Coupon {
            burn_id: self.burn_id,
            recipient_sol_addr: clone_bytes(&self.recipient_sol_addr),
            amount: self.amount,
            message_hash: clone_bytes(&self.message_hash),
            signature: clone_bytes(&self.signature),
            signer_public_key: clone_bytes(&self.signer_public_key),
        }
    }
}

/// A withdrawal: `amount` of gSOL burned by `principal`, to be released to
/// `recipient_sol_addr` on the source chain. It carries a coupon exactly
/// once redeemed.
pub struct WithdrawalEvent {
    pub burn_id: u64,
    pub principal: PrincipalId,
    pub recipient_sol_addr: Vec<u8>,
    pub amount: u128,
    pub ledger_burn_block: u64,
    pub coupon: Option<Coupon>,
    pub retry: u64,
}

pub ghost struct WithdrawalModel {
    pub burn_id: u64,
    pub principal: Seq<u8>,
    pub recipient: Seq<u8>,
    pub amount: u128,
    pub ledger_burn_block: u64,
    pub coupon: Option<CouponModel>,
    pub retry: u64,
}

impl View for WithdrawalEvent {
    type V = WithdrawalModel;

    open spec fn view(&self) -> WithdrawalModel {
        WithdrawalModel {
            burn_id: self.burn_id,
            principal: self.principal@,
            recipient: self.recipient_sol_addr@,
            amount: self.amount,
            ledger_burn_block: self.ledger_burn_block,
            coupon: match self.coupon {
                Some(c) => Some(c@),
                None => None,
            },
            retry: self.retry,
        }
    }
}

impl WithdrawalEvent {
    pub fn get_burn_id(&self) -> (r: u64)
        ensures
            r == self@.burn_id,
    {
        self.burn_id
    }

    pub fn increment_retries(&mut self)
        ensures
            final(self)@ == (WithdrawalModel {
                retry: spec_inc_retry(old(self)@.retry),
                ..old(self)@
            }),
    {
        if self.retry < u64::MAX {
            self.retry = self.retry + 1;
        }
    }

    pub fn reset_retries(&mut self)
        ensures
            final(self)@ == (WithdrawalModel { retry: 0u64, ..old(self)@ }),
    {
        self.retry = 0;
    }

    pub fn clone_withdrawal(&self) -> (r: WithdrawalEvent)
        ensures
            r@ == self@,
    {
        WithdrawalEvent {
            burn_id: self.burn_id,
            principal: self.principal.clone_id(),
            recipient_sol_addr: clone_bytes(&self.recipient_sol_addr),
            amount: self.amount,
            ledger_burn_block: self.ledger_burn_block,
            coupon: match &self.coupon {
                Some(c) => Some(c.clone_coupon()),
                None => None,
            },
            retry: self.retry,
        }
    }
}

} // verus!
