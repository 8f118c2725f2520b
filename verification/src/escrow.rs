use vstd::prelude::*;
use crate::account::Account;

verus! {

/// Where an escrow stands: funds held, paid to the recipient, or refunded.
#[derive(Clone, Copy, Debug, PartialEq, Eq, Structural)]
pub enum EscrowStatus {
    Active,
    Released,
    Cancelled,
}

/// One escrow agreement: who pays, who receives, who arbitrates, which
/// token and how much is held, and from when the sender may take it back.
#[derive(Clone, Debug, PartialEq, Eq)]
pub struct EscrowInfo {
    pub sender: Account,
    pub recipient: Account,
    pub arbitrator: Account,
    pub token: Account,
    pub amount: i128,
    pub unlock_time: u64,
    pub status: EscrowStatus,
}

/// An escrow as plain values: the four addresses by their encodings.
pub struct EscrowView {
    pub sender: Seq<u8>,
    pub recipient: Seq<u8>,
    pub arbitrator: Seq<u8>,
    pub token: Seq<u8>,
    pub amount: i128,
    pub unlock_time: u64,
    pub status: EscrowStatus,
}

impl View for EscrowInfo {
    type V = EscrowView;

    open spec fn view(&self) -> EscrowView {
        EscrowView {
            sender: self.sender@,
            recipient: self.recipient@,
            arbitrator: self.arbitrator@,
            token: self.token@,
            amount: self.amount,
            unlock_time: self.unlock_time,
            status: self.status,
        }
    }
}

/// A transfer of `amount` of `token` out of the contract to `to`.
#[derive(Clone, Debug, PartialEq, Eq)]
pub struct Payout {
    pub token: Account,
    pub to: Account,
    pub amount: i128,
}

/// Why an escrow operation is rejected.
#[derive(Clone, Copy, Debug, PartialEq, Eq, Structural)]
pub enum EscrowError {
    AmountNotPositive,
    UnlockTimeNotInFuture,
    NotFound,
    NotActive,
    NotAuthorizedToRelease,
    NotAuthorizedToCancel,
    Overflow,
}

/// The text a rejection is reported with.
pub open spec fn escrow_error_text(e: EscrowError) -> Seq<char> {
    match e {
        EscrowError::AmountNotPositive => "Amount must be positive"@,
        EscrowError::UnlockTimeNotInFuture => "Unlock time must be in future"@,
        EscrowError::NotFound => "Escrow not found"@,
        EscrowError::NotActive => "Escrow not active"@,
        EscrowError::NotAuthorizedToRelease => "Not authorized to release"@,
        EscrowError::NotAuthorizedToCancel => "Not authorized to cancel"@,
        EscrowError::Overflow => "attempt to add with overflow"@,
    }
}

impl EscrowError {
    /// The message the contract aborts with.
    pub fn message(&self) -> (r: &'static str)
        ensures
            r@ == escrow_error_text(*self),
    {
        match self {
            EscrowError::AmountNotPositive => "Amount must be positive",
            EscrowError::UnlockTimeNotInFuture => "Unlock time must be in future",
            EscrowError::NotFound => "Escrow not found",
            EscrowError::NotActive => "Escrow not active",
            EscrowError::NotAuthorizedToRelease => "Not authorized to release",
            EscrowError::NotAuthorizedToCancel => "Not authorized to cancel",
            EscrowError::Overflow => "attempt to add with overflow",
        }
    }
}

/// A new escrow, the identifier it is stored under, and the identifier the
/// next one will get.
#[derive(Clone, Debug, PartialEq, Eq)]
pub struct EscrowCreated {
    pub escrow_id: u64,
    pub next_id: u64,
    pub escrow: EscrowInfo,
}

/// The identifier a new escrow gets: the stored counter, starting at 1.
pub open spec fn issued_id(stored_next_id: Option<u64>) -> u64 {
    match stored_next_id {
        Some(n) => n,
        None => 1,
    }
}

/// Why a new escrow would be rejected, if it would.
pub open spec fn initiate_error(stored_next_id: Option<u64>, amount: i128, unlock_time: u64, now: u64) -> Option<EscrowError> {
    if amount <= 0 {
        Some(EscrowError::AmountNotPositive)
    } else if unlock_time <= now {
        Some(EscrowError::UnlockTimeNotInFuture)
    } else if issued_id(stored_next_id) == u64::MAX {
        Some(EscrowError::Overflow)
    } else {
        None
    }
}

/// The address encodings of a list of signers.
pub open spec fn views(signers: Seq<Account>) -> Seq<Seq<u8>> {
    signers.map_values(|a: Account| a@)
}

/// Who may release an escrow: its arbitrator, or its sender and its
/// recipient together. `signers` are the addresses that authorized the
/// release.
pub open spec fn may_release(e: EscrowView, signers: Seq<Seq<u8>>) -> bool {
    signers.contains(e.arbitrator) || (signers.contains(e.sender) && signers.contains(e.recipient))
}

/// The parties whose authorization a release asked for by `caller` rests
/// on: the caller alone when it is the arbitrator or a stranger to the
/// escrow, and the sender together with the recipient when the caller is
/// one of those two.
pub open spec fn release_signers_spec(escrow: Option<EscrowView>, caller: Seq<u8>) -> Seq<Seq<u8>> {
    match escrow {
        Some(e) => if caller != e.arbitrator && (caller == e.sender || caller == e.recipient) {
            if e.sender == e.recipient { seq![e.sender] } else { seq![e.sender, e.recipient] }
        } else {
            seq![caller]
        },
        None => seq![caller],
    }
}

/// Who may cancel an escrow: its arbitrator at any time, or its sender once
/// the unlock time has come.
pub open spec fn may_cancel(e: EscrowView, caller: Seq<u8>, now: u64) -> bool {
    caller == e.arbitrator || (caller == e.sender && now >= e.unlock_time)
}

/// Why releasing would be rejected, if it would.
pub open spec fn release_error(escrow: Option<EscrowView>, signers: Seq<Seq<u8>>) -> Option<EscrowError> {
    match escrow {
        None => Some(EscrowError::NotFound),
        Some(e) => if e.status != EscrowStatus::Active {
            Some(EscrowError::NotActive)
        } else if !may_release(e, signers) {
            Some(EscrowError::NotAuthorizedToRelease)
        } else {
            None
        },
    }
}

/// Why cancelling would be rejected, if it would.
pub open spec fn cancel_error(escrow: Option<EscrowView>, caller: Seq<u8>, now: u64) -> Option<EscrowError> {
    match escrow {
        None => Some(EscrowError::NotFound),
        Some(e) => if e.status != EscrowStatus::Active {
            Some(EscrowError::NotActive)
        } else if !may_cancel(e, caller, now) {
            Some(EscrowError::NotAuthorizedToCancel)
        } else {
            None
        },
    }
}

/// The escrow as stored, by its plain values.
pub open spec fn stored_view(escrow: Option<EscrowInfo>) -> Option<EscrowView> {
    match escrow {
        Some(e) => Some(e@),
        None => None,
    }
}

/// `after` is `before` with only its status changed to `status`.
pub open spec fn with_status(before: EscrowView, after: EscrowView, status: EscrowStatus) -> bool {
    after == EscrowView { status, ..before }
}


/// A settled escrow is final: once released or cancelled, every further
/// release or cancellation is refused as not active, whoever asks and
/// whenever.
pub proof fn lemma_settled_escrow_is_final(e: EscrowView, signers: Seq<Seq<u8>>, caller: Seq<u8>, now: u64)
    requires
        e.status != EscrowStatus::Active,
    ensures
        release_error(Some(e), signers) == Some(EscrowError::NotActive),
        cancel_error(Some(e), caller, now) == Some(EscrowError::NotActive),
{
}

/// Who can settle an escrow. A release of a stored escrow goes through
/// exactly when the escrow is active and the arbitrator, or both the sender
/// and the recipient, authorized it; so neither the sender nor the recipient
/// can release alone (unless they are the arbitrator). A cancellation goes
/// through exactly when the escrow is active and the caller is the
/// arbitrator, or is the sender and the unlock time has come.
pub proof fn lemma_escrow_authority(e: EscrowView, signers: Seq<Seq<u8>>, caller: Seq<u8>, now: u64)
    ensures
        release_error(Some(e), signers) is None <==> (e.status == EscrowStatus::Active && (signers.contains(e.arbitrator)
            || (signers.contains(e.sender) && signers.contains(e.recipient)))),
        signers == seq![e.sender] && e.sender != e.arbitrator && e.sender != e.recipient
            ==> release_error(Some(e), signers) is Some,
        signers == seq![e.recipient] && e.recipient != e.arbitrator && e.sender != e.recipient
            ==> release_error(Some(e), signers) is Some,
        cancel_error(Some(e), caller, now) is None <==> (e.status == EscrowStatus::Active && (caller == e.arbitrator
            || (caller == e.sender && now >= e.unlock_time))),
        caller != e.arbitrator && now < e.unlock_time ==> cancel_error(Some(e), caller, now) is Some,
{
    if signers == seq![e.sender] && e.sender != e.arbitrator && e.sender != e.recipient {
        assert(!signers.contains(e.recipient)) by {
            if signers.contains(e.recipient) {
                let i = choose|i: int| 0 <= i < signers.len() && signers[i] == e.recipient;
                assert(signers[i] == e.sender);
            }
        }
        assert(!signers.contains(e.arbitrator)) by {
            if signers.contains(e.arbitrator) {
                let i = choose|i: int| 0 <= i < signers.len() && signers[i] == e.arbitrator;
                assert(signers[i] == e.sender);
            }
        }
    }
    if signers == seq![e.recipient] && e.recipient != e.arbitrator && e.sender != e.recipient {
        assert(!signers.contains(e.sender)) by {
            if signers.contains(e.sender) {
                let i = choose|i: int| 0 <= i < signers.len() && signers[i] == e.sender;
                assert(signers[i] == e.recipient);
            }
        }
        assert(!signers.contains(e.arbitrator)) by {
            if signers.contains(e.arbitrator) {
                let i = choose|i: int| 0 <= i < signers.len() && signers[i] == e.arbitrator;
                assert(signers[i] == e.recipient);
            }
        }
    }
}

/// Any party to an escrow can start a release: asked for by the arbitrator,
/// the sender or the recipient of an active escrow, a release that obtains
/// the authorizations `release_signers` lists goes through; asked for by
/// anyone else, it is refused.
pub proof fn lemma_release_by_party(e: EscrowView, caller: Seq<u8>)
    requires
        e.status == EscrowStatus::Active,
    ensures
        release_error(Some(e), release_signers_spec(Some(e), caller)) is None
            <==> (caller == e.arbitrator || caller == e.sender || caller == e.recipient),
{
    let signers = release_signers_spec(Some(e), caller);
    if caller == e.arbitrator {
        assert(signers[0] == e.arbitrator);
    } else if caller == e.sender || caller == e.recipient {
        assert(signers[0] == e.sender);
        if e.sender == e.recipient {
        } else {
            assert(signers[1] == e.recipient);
        }
    } else {
        assert(signers =~= seq![caller]);
        if signers.contains(e.arbitrator) {
            let i = choose|i: int| 0 <= i < signers.len() && signers[i] == e.arbitrator;
            assert(signers[i] == caller);
        }
        if signers.contains(e.sender) {
            let i = choose|i: int| 0 <= i < signers.len() && signers[i] == e.sender;
            assert(signers[i] == caller);
        }
    }
}

/// Creating an escrow fails only for a non-positive amount, an unlock
/// time not after `now`, or an exhausted identifier counter; in every other
/// case it goes through under the stored counter (1 when none is stored).
pub proof fn lemma_escrow_creation_accepts_valid_requests(stored_next_id: Option<u64>, amount: i128, unlock_time: u64, now: u64)
    ensures
        ({
            let id: u64 = match stored_next_id { Some(n) => n, None => 1 };
            &&& (initiate_error(stored_next_id, amount, unlock_time, now) is None)
                <==> (amount > 0 && unlock_time > now && id < u64::MAX)
            &&& initiate_error(stored_next_id, amount, unlock_time, now) is None ==> issued_id(stored_next_id) == id
            &&& amount <= 0 ==> initiate_error(stored_next_id, amount, unlock_time, now) == Some(EscrowError::AmountNotPositive)
            &&& amount > 0 && unlock_time <= now
                ==> initiate_error(stored_next_id, amount, unlock_time, now) == Some(EscrowError::UnlockTimeNotInFuture)
        }),
{
}

/// Creation `k + 1` found the counter that creation `k` stored.
pub open spec fn follows_counter(ids: Seq<u64>, k: int) -> bool {
    ids[k] < u64::MAX && ids[k + 1] == issued_id(Some((ids[k] + 1) as u64))
}

/// Escrow identifiers are never reused: along a run of creations in which
/// each finds the counter the previous one stored, the identifiers handed
/// out count up by one and are pairwise distinct.
pub proof fn lemma_escrow_ids_never_repeat(ids: Seq<u64>)
    requires
        forall|k: int| 0 <= k < ids.len() - 1 ==> #[trigger] follows_counter(ids, k),
    ensures
        forall|i: int, j: int| 0 <= i < j < ids.len() ==> ids[j] == ids[i] + (j - i),
        forall|i: int, j: int| 0 <= i < j < ids.len() ==> ids[i] < ids[j],
{
    assert forall|i: int, j: int| 0 <= i < j < ids.len() implies ids[j] == ids[i] + (j - i) by {
        lemma_ids_step(ids, i, j);
    }
}

proof fn lemma_ids_step(ids: Seq<u64>, i: int, j: int)
    requires
        forall|k: int| 0 <= k < ids.len() - 1 ==> #[trigger] follows_counter(ids, k),
        0 <= i < j < ids.len(),
    ensures
        ids[j] == ids[i] + (j - i),
    decreases j - i,
{
    assert(follows_counter(ids, j - 1));
    if j - 1 > i {
        lemma_ids_step(ids, i, j - 1);
    }
}

/// Funds leave an escrow once and in full: settling pays the whole amount
/// in the escrowed token, to the recipient on release and back to the
/// sender on cancellation, and the settled escrow can never be settled
/// again.
pub proof fn lemma_settlement_pays_in_full(before: EscrowView, after: EscrowView, status: EscrowStatus, signers: Seq<Seq<u8>>, caller: Seq<u8>, now: u64)
    requires
        status != EscrowStatus::Active,
        with_status(before, after, status),
    ensures
        after.amount == before.amount,
        after.token == before.token,
        after.recipient == before.recipient && after.sender == before.sender,
        release_error(Some(after), signers) is Some,
        cancel_error(Some(after), caller, now) is Some,
{
}

/// Whether `who` is among `signers`.
fn signed_by(signers: &Vec<Account>, who: &Account) -> (r: bool)
    ensures
        r == views(signers@).contains(who@),
{
    let mut i: usize = 0;
    while i < signers.len()
        invariant
            i <= signers.len(),
            forall|j: int| 0 <= j < i ==> signers@[j]@ != who@,
        decreases signers.len() - i,
    {
        if signers[i].same_as(who) {
            assert(views(signers@)[i as int] == who@);
            return true;
        }
        i = i + 1;
    }
    proof {
        if views(signers@).contains(who@) {
            let j = choose|j: int| 0 <= j < views(signers@).len() && views(signers@)[j] == who@;
            assert(signers@[j]@ == who@);
        }
    }
    false
}

/// Namespace of the escrow's entry points.
pub struct EscrowContract;

impl EscrowContract {
    /// Opens an escrow of `amount` of `token` from `sender` for `recipient`,
    /// decided by `arbitrator`, that the sender may cancel from
    /// `unlock_time` on. The amount must be positive and the unlock time
    /// later than `now`. The escrow gets the stored counter as its
    /// identifier (1 when none is stored) and the counter moves on by one.
    pub fn initiate_escrow(
        stored_next_id: Option<u64>,
        sender: Account,
        recipient: Account,
        arbitrator: Account,
        token: Account,
        amount: i128,
        unlock_time: u64,
        now: u64,
    ) -> (r: Result<EscrowCreated, EscrowError>)
        ensures
            match initiate_error(stored_next_id, amount, unlock_time, now) {
                Some(e) => r == Err::<EscrowCreated, EscrowError>(e),
                None => r matches Ok(c) && {
                    &&& c.escrow_id == issued_id(stored_next_id)
                    &&& c.next_id == c.escrow_id + 1
                    &&& c.escrow@ == EscrowView {
                        sender: sender@,
                        recipient: recipient@,
                        arbitrator: arbitrator@,
                        token: token@,
                        amount,
                        unlock_time,
                        status: EscrowStatus::Active,
                    }
                },
            },
    {
        if amount <= 0 {
            return Err(EscrowError::AmountNotPositive);
        }
        if unlock_time <= now {
            return Err(EscrowError::UnlockTimeNotInFuture);
        }
        let escrow_id = match stored_next_id {
            Some(n) => n,
            None => 1,
        };
        if escrow_id == u64::MAX {
            return Err(EscrowError::Overflow);
        }
        let escrow = EscrowInfo {
            sender,
            recipient,
            arbitrator,
            token,
            amount,
            unlock_time,
            status: EscrowStatus::Active,
        };
        Ok(EscrowCreated { escrow_id, next_id: escrow_id + 1, escrow })
    }

    /// The addresses whose authorization a release asked for by `caller`
    /// needs: the caller alone when it is the arbitrator (or not a party to
    /// the escrow), the sender and the recipient together when the caller is
    /// one of those two.
    pub fn release_signers(escrow: &Option<EscrowInfo>, caller: &Account) -> (r: Vec<Account>)
        ensures
            views(r@) == release_signers_spec(stored_view(*escrow), caller@),
    {
        let mut r: Vec<Account> = Vec::new();
        if let Some(e) = escrow {
            if !caller.same_as(&e.arbitrator) && (caller.same_as(&e.sender) || caller.same_as(&e.recipient)) {
                r.push(e.sender.duplicate());
                if !e.sender.same_as(&e.recipient) {
                    r.push(e.recipient.duplicate());
                }
                assert(views(r@) =~= release_signers_spec(stored_view(*escrow), caller@));
                return r;
            }
        }
        r.push(caller.duplicate());
        assert(views(r@) =~= release_signers_spec(stored_view(*escrow), caller@));
        r
    }

    /// Pays an active escrow out to its recipient. The release must be
    /// authorized by the arbitrator, or by both the sender and the
    /// recipient; `signers` are the addresses that authorized it. The escrow
    /// is then marked released.
    pub fn release_funds(escrow: Option<EscrowInfo>, signers: &Vec<Account>) -> (r: Result<(EscrowInfo, Payout), EscrowError>)
        ensures
            match release_error(stored_view(escrow), views(signers@)) {
                Some(e) => r == Err::<(EscrowInfo, Payout), EscrowError>(e),
                None => r matches Ok((updated, payout)) && {
                    &&& with_status(escrow->Some_0@, updated@, EscrowStatus::Released)
                    &&& payout.to@ == updated.recipient@
                    &&& payout.token@ == updated.token@
                    &&& payout.amount == updated.amount
                },
            },
    {
        let mut escrow = match escrow {
            None => return Err(EscrowError::NotFound),
            Some(e) => e,
        };
        if escrow.status != EscrowStatus::Active {
            return Err(EscrowError::NotActive);
        }
        let by_arbitrator = signed_by(signers, &escrow.arbitrator);
        let by_both_parties = signed_by(signers, &escrow.sender) && signed_by(signers, &escrow.recipient);
        if !by_arbitrator && !by_both_parties {
            return Err(EscrowError::NotAuthorizedToRelease);
        }
        escrow.status = EscrowStatus::Released;
        let payout = Payout { token: escrow.token.duplicate(), to: escrow.recipient.duplicate(), amount: escrow.amount };
        Ok((escrow, payout))
    }

    /// Refunds an active escrow to its sender. The arbitrator may do so at
    /// any time, the sender once `now` has reached the unlock time; the
    /// escrow is then marked cancelled.
    pub fn cancel_escrow(escrow: Option<EscrowInfo>, caller: &Account, now: u64) -> (r: Result<(EscrowInfo, Payout), EscrowError>)
        ensures
            match cancel_error(stored_view(escrow), caller@, now) {
                Some(e) => r == Err::<(EscrowInfo, Payout), EscrowError>(e),
                None => r matches Ok((updated, payout)) && {
                    &&& with_status(escrow->Some_0@, updated@, EscrowStatus::Cancelled)
                    &&& payout.to@ == updated.sender@
                    &&& payout.token@ == updated.token@
                    &&& payout.amount == updated.amount
                },
            },
    {
        let mut escrow = match escrow {
            None => return Err(EscrowError::NotFound),
            Some(e) => e,
        };
        if escrow.status != EscrowStatus::Active {
            return Err(EscrowError::NotActive);
        }
        let is_arbitrator = caller.same_as(&escrow.arbitrator);
        let is_expired_refund = caller.same_as(&escrow.sender) && now >= escrow.unlock_time;
        if !is_arbitrator && !is_expired_refund {
            return Err(EscrowError::NotAuthorizedToCancel);
        }
        escrow.status = EscrowStatus::Cancelled;
        let payout = Payout { token: escrow.token.duplicate(), to: escrow.sender.duplicate(), amount: escrow.amount };
        Ok((escrow, payout))
    }

    /// The stored escrow; rejected when there is none.
    pub fn get_escrow(escrow: Option<EscrowInfo>) -> (r: Result<EscrowInfo, EscrowError>)
        ensures
            match escrow {
                Some(e) => r == Ok::<EscrowInfo, EscrowError>(e),
                None => r == Err::<EscrowInfo, EscrowError>(EscrowError::NotFound),
            },
    {
        match escrow {
            Some(e) => Ok(e),
            None => Err(EscrowError::NotFound),
        }
    }
}

} // verus!
