use defi_contracts::account::Account;
use defi_contracts::escrow::{EscrowContract, EscrowError, EscrowInfo, EscrowStatus, Payout};

fn acct(tag: u8) -> Account {
    Account::new(vec![0, 0, 0, 18, 0, 0, 0, 0, tag, tag])
}

/// A release asked for by `caller`, with every authorization it needs given.
fn release_by(escrow: Option<EscrowInfo>, caller: &Account) -> Result<(EscrowInfo, Payout), EscrowError> {
    let signers = EscrowContract::release_signers(&escrow, caller);
    EscrowContract::release_funds(escrow, &signers)
}

#[test]
fn test_escrow_release_flow() {
    let (sender, recipient, arbitrator, token) = (acct(1), acct(2), acct(3), acct(4));
    let amount = 500;
    let unlock_time = 1000;
    let created = EscrowContract::initiate_escrow(
        None, sender.clone(), recipient.clone(), arbitrator.clone(), token.clone(), amount, unlock_time, 0,
    ).unwrap();
    assert_eq!(created.escrow_id, 1);
    assert_eq!(created.next_id, 2);
    // the contract holds the 500 taken from the sender's 1000
    assert_eq!(created.escrow.amount, 500);
    assert_eq!(created.escrow.token, token);
    assert_eq!(created.escrow.status, EscrowStatus::Active);

    let (released, payout) = release_by(Some(created.escrow), &arbitrator).unwrap();
    assert_eq!(released.status, EscrowStatus::Released);
    // the recipient receives all 500, leaving nothing held
    assert_eq!(payout.to, recipient);
    assert_eq!(payout.token, token);
    assert_eq!(payout.amount, 500);
    assert_eq!(released.amount, payout.amount);
}

#[test]
fn test_escrow_refund_flow() {
    let (sender, recipient, arbitrator, token) = (acct(1), acct(2), acct(3), acct(4));
    let created = EscrowContract::initiate_escrow(
        None, sender.clone(), recipient, arbitrator, token.clone(), 500, 1000, 0,
    ).unwrap();
    assert_eq!(created.escrow.amount, 500);
    let (cancelled, payout) = EscrowContract::cancel_escrow(Some(created.escrow), &sender, 1500).unwrap();
    assert_eq!(cancelled.status, EscrowStatus::Cancelled);
    // all 500 go back, restoring the sender's 1000
    assert_eq!(payout.to, sender);
    assert_eq!(payout.token, token);
    assert_eq!(payout.amount, 500);
}

#[test]
fn test_unauthorized_release() {
    let created = EscrowContract::initiate_escrow(None, acct(1), acct(2), acct(3), acct(4), 500, 1000, 0).unwrap();
    let attacker = acct(9);
    let r = release_by(Some(created.escrow), &attacker);
    assert_eq!(r, Err(EscrowError::NotAuthorizedToRelease));
    assert_eq!(r.unwrap_err().message(), "Not authorized to release");
}

#[test]
fn sender_and_recipient_together_can_release() {
    let (sender, recipient, arbitrator) = (acct(1), acct(2), acct(3));
    let created = EscrowContract::initiate_escrow(None, sender.clone(), recipient.clone(), arbitrator, acct(4), 500, 1000, 0).unwrap();
    // asked for by the sender: both parties must authorize
    let signers = EscrowContract::release_signers(&Some(created.escrow.clone()), &sender);
    assert_eq!(signers, vec![sender.clone(), recipient.clone()]);
    let (released, payout) = EscrowContract::release_funds(Some(created.escrow.clone()), &signers).unwrap();
    assert_eq!(released.status, EscrowStatus::Released);
    assert_eq!(payout.to, recipient);
    assert_eq!(payout.amount, 500);
    // asked for by the recipient: the same two authorizations
    let signers = EscrowContract::release_signers(&Some(created.escrow.clone()), &recipient);
    assert_eq!(signers, vec![sender.clone(), recipient.clone()]);
    // one party alone is not enough
    let r = EscrowContract::release_funds(Some(created.escrow.clone()), &vec![sender.clone()]);
    assert_eq!(r, Err(EscrowError::NotAuthorizedToRelease));
    let r = EscrowContract::release_funds(Some(created.escrow), &vec![recipient]);
    assert_eq!(r, Err(EscrowError::NotAuthorizedToRelease));
}

#[test]
fn release_signers_for_other_callers() {
    let (sender, recipient, arbitrator) = (acct(1), acct(2), acct(3));
    let created = EscrowContract::initiate_escrow(None, sender.clone(), recipient, arbitrator.clone(), acct(4), 500, 1000, 0).unwrap();
    assert_eq!(EscrowContract::release_signers(&Some(created.escrow.clone()), &arbitrator), vec![arbitrator]);
    assert_eq!(EscrowContract::release_signers(&Some(created.escrow), &acct(9)), vec![acct(9)]);
    assert_eq!(EscrowContract::release_signers(&None, &sender), vec![sender.clone()]);
    // a sender who is also the recipient signs once
    let same = EscrowContract::initiate_escrow(None, sender.clone(), sender.clone(), acct(3), acct(4), 5, 10, 0).unwrap();
    assert_eq!(EscrowContract::release_signers(&Some(same.escrow.clone()), &sender), vec![sender.clone()]);
    assert!(release_by(Some(same.escrow), &sender).is_ok());
}

#[test]
fn test_arbitrator_can_cancel() {
    let arbitrator = acct(3);
    let created = EscrowContract::initiate_escrow(None, acct(1), acct(2), arbitrator.clone(), acct(4), 500, 1000, 0).unwrap();
    let (cancelled, payout) = EscrowContract::cancel_escrow(Some(created.escrow), &arbitrator, 0).unwrap();
    assert_eq!(cancelled.status, EscrowStatus::Cancelled);
    assert_eq!(payout.to, acct(1));
    assert_eq!(payout.amount, 500);
}

#[test]
fn initiation_checks_amount_and_unlock_time() {
    let r = EscrowContract::initiate_escrow(None, acct(1), acct(2), acct(3), acct(4), 0, 1000, 0);
    assert_eq!(r, Err(EscrowError::AmountNotPositive));
    let r = EscrowContract::initiate_escrow(None, acct(1), acct(2), acct(3), acct(4), -5, 1000, 0);
    assert_eq!(r, Err(EscrowError::AmountNotPositive));
    let r = EscrowContract::initiate_escrow(None, acct(1), acct(2), acct(3), acct(4), 10, 1000, 1000);
    assert_eq!(r, Err(EscrowError::UnlockTimeNotInFuture));
    let r = EscrowContract::initiate_escrow(Some(u64::MAX), acct(1), acct(2), acct(3), acct(4), 10, 1000, 5);
    assert_eq!(r, Err(EscrowError::Overflow));
}

#[test]
fn identifiers_follow_the_stored_counter() {
    let first = EscrowContract::initiate_escrow(Some(41), acct(1), acct(2), acct(3), acct(4), 10, 100, 5).unwrap();
    assert_eq!(first.escrow_id, 41);
    let second = EscrowContract::initiate_escrow(Some(first.next_id), acct(1), acct(2), acct(3), acct(4), 10, 100, 5).unwrap();
    assert_eq!(second.escrow_id, 42);
    assert_eq!(second.next_id, 43);
}

#[test]
fn sender_cannot_cancel_before_unlock() {
    let sender = acct(1);
    let created = EscrowContract::initiate_escrow(None, sender.clone(), acct(2), acct(3), acct(4), 500, 1000, 0).unwrap();
    let r = EscrowContract::cancel_escrow(Some(created.escrow.clone()), &sender, 999);
    assert_eq!(r, Err(EscrowError::NotAuthorizedToCancel));
    let r = EscrowContract::cancel_escrow(Some(created.escrow.clone()), &acct(2), 5000);
    assert_eq!(r, Err(EscrowError::NotAuthorizedToCancel));
    assert!(EscrowContract::cancel_escrow(Some(created.escrow), &sender, 1000).is_ok());
}

#[test]
fn settled_escrow_cannot_be_settled_again() {
    let arbitrator = acct(3);
    let created = EscrowContract::initiate_escrow(None, acct(1), acct(2), arbitrator.clone(), acct(4), 500, 1000, 0).unwrap();
    let (released, _) = release_by(Some(created.escrow), &arbitrator).unwrap();
    assert_eq!(release_by(Some(released.clone()), &arbitrator), Err(EscrowError::NotActive));
    assert_eq!(EscrowContract::cancel_escrow(Some(released), &arbitrator, 5000), Err(EscrowError::NotActive));
}

#[test]
fn missing_escrow_is_not_found() {
    assert_eq!(EscrowContract::get_escrow(None), Err(EscrowError::NotFound));
    assert_eq!(release_by(None, &acct(1)), Err(EscrowError::NotFound));
    assert_eq!(EscrowContract::cancel_escrow(None, &acct(1), 0), Err(EscrowError::NotFound));
    let created = EscrowContract::initiate_escrow(None, acct(1), acct(2), acct(3), acct(4), 500, 1000, 0).unwrap();
    assert_eq!(EscrowContract::get_escrow(Some(created.escrow.clone())), Ok(created.escrow));
}
