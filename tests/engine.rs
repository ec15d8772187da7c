use transactions_processor::api::currency::{Currency, CurrencyError};
use transactions_processor::api::engine::{Engine, EngineError};

fn balances(engine: &Engine, client: u16) -> (String, String, bool) {
    let account = engine.account(client).unwrap();
    (
        account.available.to_string(),
        account.held.to_string(),
        account.locked,
    )
}

fn amount(text: &str) -> Currency {
    Currency::try_from(text).unwrap()
}

#[test]
fn correct_deposit() {
    let mut engine = Engine::new();
    let amount = Currency::new(1, 1).unwrap();
    assert!(engine.deposit(1, 1, amount).is_ok());
}

#[test]
fn correct_2_deposits_for_one_account() {
    let mut engine = Engine::new();
    let amount = Currency::new(1, 1).unwrap();
    assert!(engine.deposit(1, 1, amount).is_ok());
    assert!(engine.deposit(1, 2, amount).is_ok());
}

#[test]
fn incorrect_2_deposits_for_one_account_out_of_range() {
    let mut engine = Engine::new();
    let amount = Currency::max();
    assert!(engine.deposit(1, 1, amount).is_ok());
    assert!(matches!(
        engine.deposit(1, 2, amount),
        Err(EngineError::CannotDeposit {
            client: _,
            tx: _,
            amount: _,
            source: CurrencyError::AddingOtherOutOfRange
        })
    ));
}

#[test]
fn incorrect_2_deposits_with_same_tx() {
    let mut engine = Engine::new();
    let amount = Currency::new(1, 1).unwrap();
    assert!(engine.deposit(1, 1, amount).is_ok());
    assert!(matches!(
        engine.deposit(1, 1, amount),
        Err(EngineError::TransactionNotUnique(..))
    ));
}

#[test]
fn incorrect_2_withdrawals_with_same_tx() {
    let mut engine = Engine::new();
    let amount = Currency::new(1, 1).unwrap();
    assert!(engine.deposit(1, 1, amount).is_ok());
    assert!(matches!(
        engine.withdrawal(1, 1, amount),
        Err(EngineError::TransactionNotUnique(..))
    ));
}

#[test]
fn incorrect_withdrawal_from_unexisting_account() {
    let mut engine = Engine::new();
    let amount = Currency::new(1, 1).unwrap();
    assert!(matches!(
        engine.withdrawal(1, 1, amount),
        Err(EngineError::AccountDoesNotExist(..))
    ));
}

#[test]
fn correct_withdrawal_from_deposited_account() {
    let mut engine = Engine::new();
    let amount = Currency::new(1, 1).unwrap();
    assert!(engine.deposit(1, 1, amount).is_ok());
    assert!(engine.withdrawal(1, 2, amount).is_ok());
}

#[test]
fn correct_withdrawal_less_then_deposited() {
    let mut engine = Engine::new();
    let amount_more = Currency::new(2, 2).unwrap();
    let amount_less = Currency::new(1, 1).unwrap();
    assert!(engine.deposit(1, 1, amount_more).is_ok());
    assert!(engine.withdrawal(1, 2, amount_less).is_ok());
}

#[test]
fn incorrect_withdrawal_more_then_deposited() {
    let mut engine = Engine::new();
    let amount_less = Currency::new(1, 1).unwrap();
    let amount_more = Currency::new(2, 2).unwrap();
    assert!(engine.deposit(1, 1, amount_less).is_ok());
    assert!(matches!(
        engine.withdrawal(1, 2, amount_more),
        Err(EngineError::CannotWithdrawal {
            client: _,
            tx: _,
            amount: _,
            source: CurrencyError::SubstractingOtherNegative
        })
    ));
}

#[test]
fn correct_dispute() {
    let mut engine = Engine::new();
    let amount = Currency::new(1, 1).unwrap();
    assert!(engine.deposit(1, 1, amount).is_ok());
    assert!(engine.dispute(1, 1).is_ok());
}

#[test]
fn incorrect_dispute_twice_some_tx() {
    let mut engine = Engine::new();
    let amount = Currency::new(1, 1).unwrap();
    assert!(engine.deposit(1, 1, amount).is_ok());
    assert!(engine.dispute(1, 1).is_ok());
    assert!(matches!(
        engine.dispute(1, 1),
        Err(EngineError::DisputeAlreadyDisputed(..))
    ));
}

#[test]
fn correct_resolve() {
    let mut engine = Engine::new();
    let amount = Currency::new(1, 1).unwrap();
    assert!(engine.deposit(1, 1, amount).is_ok());
    assert!(engine.dispute(1, 1).is_ok());
    assert!(engine.resolve(1, 1).is_ok());
}

#[test]
fn incorrect_resolve_unexisting_tx() {
    let mut engine = Engine::new();
    assert!(matches!(
        engine.resolve(1, 1),
        Err(EngineError::CannotFindTransaction(..))
    ));
}

#[test]
fn incorrect_resolve_not_disputed_tx() {
    let mut engine = Engine::new();
    let amount = Currency::new(1, 1).unwrap();
    assert!(engine.deposit(1, 1, amount).is_ok());
    assert!(matches!(
        engine.resolve(1, 1),
        Err(EngineError::TransactionNotDisputed(..))
    ));
}

#[test]
fn correct_chargeback() {
    let mut engine = Engine::new();
    let amount = Currency::new(1, 1).unwrap();
    assert!(engine.deposit(1, 1, amount).is_ok());
    assert!(engine.dispute(1, 1).is_ok());
    assert!(engine.chargeback(1, 1).is_ok());
}

#[test]
fn incorrect_chargeback_unexisting_tx() {
    let mut engine = Engine::new();
    assert!(matches!(
        engine.chargeback(1, 1),
        Err(EngineError::CannotFindTransaction(..))
    ));
}

#[test]
fn incorrect_chargeback_not_disputed_tx() {
    let mut engine = Engine::new();
    let amount = Currency::new(1, 1).unwrap();
    assert!(engine.deposit(1, 1, amount).is_ok());
    assert!(matches!(
        engine.chargeback(1, 1),
        Err(EngineError::TransactionNotDisputed(..))
    ));
}

#[test]
fn incorrect_deposit_on_locked_account_tx() {
    let mut engine = Engine::new();
    let amount = Currency::new(1, 1).unwrap();
    assert!(engine.deposit(1, 1, amount).is_ok());
    assert!(engine.dispute(1, 1).is_ok());
    assert!(engine.chargeback(1, 1).is_ok());
    assert!(matches!(
        engine.deposit(1, 2, amount),
        Err(EngineError::AccountLocked(..))
    ));
}

#[test]
fn scenario_single_deposit() {
    let mut engine = Engine::new();
    engine.deposit(1, 1, amount("1.0")).unwrap();
    assert_eq!(
        balances(&engine, 1),
        (String::from("1.0000"), String::from("0.0000"), false)
    );
}

#[test]
fn scenario_deposit_then_dispute() {
    let mut engine = Engine::new();
    engine.deposit(1, 1, amount("1.0")).unwrap();
    engine.dispute(1, 1).unwrap();
    assert_eq!(
        balances(&engine, 1),
        (String::from("0.0000"), String::from("1.0000"), false)
    );
}

#[test]
fn scenario_dispute_then_resolve() {
    let mut engine = Engine::new();
    engine.deposit(1, 1, amount("1.0")).unwrap();
    engine.dispute(1, 1).unwrap();
    engine.resolve(1, 1).unwrap();
    assert_eq!(
        balances(&engine, 1),
        (String::from("1.0000"), String::from("0.0000"), false)
    );
}

#[test]
fn scenario_dispute_then_chargeback_locks() {
    let mut engine = Engine::new();
    engine.deposit(1, 1, amount("1.0")).unwrap();
    engine.dispute(1, 1).unwrap();
    engine.chargeback(1, 1).unwrap();
    assert_eq!(
        balances(&engine, 1),
        (String::from("0.0000"), String::from("0.0000"), true)
    );
    assert_eq!(
        engine.deposit(1, 2, amount("1.0")),
        Err(EngineError::AccountLocked(1))
    );
    assert_eq!(
        engine.withdrawal(1, 3, amount("0.0")),
        Err(EngineError::AccountLocked(1))
    );
    assert_eq!(
        balances(&engine, 1),
        (String::from("0.0000"), String::from("0.0000"), true)
    );
}

#[test]
fn scenario_duplicate_deposit_id() {
    let mut engine = Engine::new();
    engine.deposit(1, 1, amount("1.0")).unwrap();
    assert_eq!(
        engine.deposit(1, 1, amount("1.0")),
        Err(EngineError::TransactionNotUnique(1))
    );
    assert_eq!(
        balances(&engine, 1),
        (String::from("1.0000"), String::from("0.0000"), false)
    );
}

#[test]
fn scenario_withdrawal_without_account() {
    let mut engine = Engine::new();
    assert_eq!(
        engine.withdrawal(1, 1, amount("1.0")),
        Err(EngineError::AccountDoesNotExist(1))
    );
    assert!(engine.account(1).is_none());
}

#[test]
fn deposit_then_withdrawal_restores_account() {
    let mut engine = Engine::new();
    engine.deposit(1, 1, amount("2.5")).unwrap();
    engine.dispute(1, 1).unwrap();
    engine.deposit(1, 2, amount("3.25")).unwrap();
    let before = balances(&engine, 1);
    engine.deposit(1, 3, amount("0.75")).unwrap();
    engine.withdrawal(1, 4, amount("0.75")).unwrap();
    assert_eq!(balances(&engine, 1), before);
}

#[test]
fn failed_attempts_still_use_the_id() {
    let mut engine = Engine::new();
    assert!(engine.withdrawal(1, 1, amount("1.0")).is_err());
    assert_eq!(
        engine.deposit(1, 1, amount("1.0")),
        Err(EngineError::TransactionNotUnique(1))
    );
    engine.deposit(1, 2, amount("1.0")).unwrap();
    assert!(engine.withdrawal(1, 3, amount("5.0")).is_err());
    assert_eq!(
        engine.withdrawal(2, 3, amount("1.0")),
        Err(EngineError::TransactionNotUnique(3))
    );
    assert_eq!(
        engine.deposit(2, 2, amount("1.0")),
        Err(EngineError::TransactionNotUnique(2))
    );
    assert!(engine.account(2).is_none());
}

#[test]
fn dispute_needs_recorded_undisputed_transaction() {
    let mut engine = Engine::new();
    engine.deposit(1, 1, amount("1.0")).unwrap();
    assert_eq!(engine.dispute(1, 9), Err(EngineError::CannotFindTransaction(9)));
    assert_eq!(engine.dispute(2, 1), Err(EngineError::CannotFindAccount(2)));
    engine.dispute(1, 1).unwrap();
    assert_eq!(engine.dispute(1, 1), Err(EngineError::DisputeAlreadyDisputed(1)));
    engine.resolve(1, 1).unwrap();
    assert_eq!(engine.resolve(1, 1), Err(EngineError::TransactionNotDisputed(1)));
    assert_eq!(engine.chargeback(1, 1), Err(EngineError::TransactionNotDisputed(1)));
}

#[test]
fn dispute_of_spent_funds_is_refused() {
    let mut engine = Engine::new();
    engine.deposit(1, 1, amount("1.0")).unwrap();
    engine.withdrawal(1, 2, amount("0.6")).unwrap();
    assert_eq!(
        engine.dispute(1, 1),
        Err(EngineError::DisputeCannotSubstractAvailable {
            source: CurrencyError::SubstractingOtherNegative
        })
    );
    assert_eq!(
        balances(&engine, 1),
        (String::from("0.4000"), String::from("0.0000"), false)
    );
}

#[test]
fn dispute_that_overflows_held_changes_nothing() {
    let mut engine = Engine::new();
    engine.deposit(1, 1, amount("1000000000000000.0")).unwrap();
    engine.dispute(1, 1).unwrap();
    engine.deposit(1, 2, amount("1000000000000000.0")).unwrap();
    assert_eq!(
        engine.dispute(1, 2),
        Err(EngineError::DisputeCannotAddHeld {
            source: CurrencyError::AddingOtherOutOfRange
        })
    );
    assert_eq!(
        balances(&engine, 1),
        (
            String::from("1000000000000000.0000"),
            String::from("1000000000000000.0000"),
            false
        )
    );
    assert_eq!(engine.resolve(1, 2), Err(EngineError::TransactionNotDisputed(2)));
}

#[test]
fn resolve_that_overflows_available_changes_nothing() {
    let mut engine = Engine::new();
    engine.deposit(1, 1, amount("1000000000000000.0")).unwrap();
    engine.dispute(1, 1).unwrap();
    engine.deposit(1, 2, amount("1000000000000000.0")).unwrap();
    assert_eq!(
        engine.resolve(1, 1),
        Err(EngineError::ResolveCannotAddAvailable {
            source: CurrencyError::AddingOtherOutOfRange
        })
    );
    assert_eq!(
        balances(&engine, 1),
        (
            String::from("1000000000000000.0000"),
            String::from("1000000000000000.0000"),
            false
        )
    );
}

#[test]
fn resolve_and_chargeback_on_other_client_without_held_funds() {
    let mut engine = Engine::new();
    engine.deposit(1, 1, amount("1.0")).unwrap();
    engine.deposit(2, 2, amount("1.0")).unwrap();
    engine.dispute(1, 1).unwrap();
    assert_eq!(engine.resolve(3, 1), Err(EngineError::CannotFindAccount(3)));
    assert_eq!(
        engine.resolve(2, 1),
        Err(EngineError::ResolveCannotSubstractHeld {
            source: CurrencyError::SubstractingOtherNegative
        })
    );
    assert_eq!(
        engine.chargeback(2, 1),
        Err(EngineError::ChargebackCannotSubstractHeld {
            source: CurrencyError::SubstractingOtherNegative
        })
    );
    assert_eq!(
        balances(&engine, 2),
        (String::from("1.0000"), String::from("0.0000"), false)
    );
    assert_eq!(
        balances(&engine, 1),
        (String::from("0.0000"), String::from("1.0000"), false)
    );
}

#[test]
fn interleaved_disputes_resolve_back() {
    let mut engine = Engine::new();
    engine.deposit(1, 1, amount("0.4")).unwrap();
    engine.deposit(1, 2, amount("0.6")).unwrap();
    engine.dispute(1, 2).unwrap();
    engine.dispute(1, 1).unwrap();
    engine.resolve(1, 1).unwrap();
    engine.resolve(1, 2).unwrap();
    assert_eq!(
        balances(&engine, 1),
        (String::from("1.0000"), String::from("0.0000"), false)
    );
}

#[test]
fn accounts_lists_every_client() {
    let mut engine = Engine::new();
    engine.deposit(7, 1, amount("1.0")).unwrap();
    engine.deposit(9, 2, amount("2.0")).unwrap();
    let accounts = engine.accounts();
    assert_eq!(accounts.len(), 2);
    assert_eq!(accounts[&7].available, amount("1.0"));
    assert_eq!(accounts[&9].available, amount("2.0"));
}

#[test]
fn charged_back_transaction_cannot_be_disputed_again() {
    let mut engine = Engine::new();
    engine.deposit(1, 1, amount("1.0")).unwrap();
    engine.deposit(1, 2, amount("1.0")).unwrap();
    engine.dispute(1, 1).unwrap();
    engine.chargeback(1, 1).unwrap();
    assert_eq!(engine.dispute(1, 1), Err(EngineError::TransactionChargedBack(1)));
    assert_eq!(engine.resolve(1, 1), Err(EngineError::TransactionNotDisputed(1)));
    assert_eq!(engine.chargeback(1, 1), Err(EngineError::TransactionNotDisputed(1)));
    assert_eq!(
        balances(&engine, 1),
        (String::from("1.0000"), String::from("0.0000"), true)
    );
}
