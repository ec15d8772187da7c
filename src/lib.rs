pub mod api;

use vstd::prelude::*;

use crate::api::currency::{parse_error, parsed_value, Currency};
use crate::api::engine::{Engine, EngineError};
use crate::api::error::TransactionsProcessorError;
use crate::api::transactions::{Transaction, Type};

verus! {

broadcast use crate::api::currency::lemma_view_injective;

/// An engine result as the result of processing a record.
pub open spec fn nested(r: Result<(), EngineError>) -> Result<(), TransactionsProcessorError> {
    match r {
        Ok(()) => Ok(()),
        Err(e) => Err(TransactionsProcessorError::NestedEngineError(e)),
    }
}

/// Whether `e` reports the amount text `text` as unreadable, with the text and the reason that
/// `Currency::try_from` gives.
pub open spec fn unreadable_amount(text: Seq<char>, e: TransactionsProcessorError) -> bool {
    match e {
        TransactionsProcessorError::CannotParseMandatoryInputAmountInInputRecord {
            amount,
            source,
        } => amount@ == text && parse_error(text, source),
        _ => false,
    }
}

/// Reads the mandatory amount field of a record.
pub fn get_and_parse_amount(amount: Option<&str>) -> (r: Result<
    Currency,
    TransactionsProcessorError,
>)
    ensures
        match amount {
            None => r matches Err(TransactionsProcessorError::MissedMandatoryAmountInInputRecord),
            Some(text) => match r {
                Ok(c) => parsed_value(text@) == Some(c@),
                Err(e) => parsed_value(text@) is None && unreadable_amount(text@, e),
            },
        },
{
    let text = match amount {
        Some(text) => text,
        None => {
            return Err(TransactionsProcessorError::MissedMandatoryAmountInInputRecord);
        },
    };
    match Currency::try_from(text) {
        Ok(c) => Ok(c),
        Err(source) => Err(
            TransactionsProcessorError::CannotParseMandatoryInputAmountInInputRecord {
                amount: text.to_owned(),
                source,
            },
        ),
    }
}

/// Hands one decoded record to the engine operation of its kind. A deposit or withdrawal whose
/// amount is missing or unreadable leaves the engine as it was.
pub fn dispatch(engine: &mut Engine, transaction: &Transaction) -> (r: Result<
    (),
    TransactionsProcessorError,
>)
    ensures
        old(engine)@.wf() ==> final(engine)@.wf(),
        match transaction.type_ {
            Type::Deposit | Type::Withdrawal => match transaction.amount {
                None => final(engine)@ == old(engine)@ && r matches Err(
                    TransactionsProcessorError::MissedMandatoryAmountInInputRecord,
                ),
                Some(text) => match parsed_value(text@) {
                    None => final(engine)@ == old(engine)@ && match r {
                        Err(e) => unreadable_amount(text@, e),
                        Ok(_) => false,
                    },
                    Some(v) => forall|c: Currency|
                        #[trigger] c@ == v ==> {
                            let (after, result) = old(engine)@.apply(
                                transaction.type_,
                                transaction.client,
                                transaction.tx,
                                c,
                            );
                            final(engine)@ == after && r == nested(result)
                        },
                },
            },
            Type::Dispute => {
                let (after, result) = old(engine)@.dispute(transaction.client, transaction.tx);
                final(engine)@ == after && r == nested(result)
            },
            Type::Resolve => {
                let (after, result) = old(engine)@.resolve(transaction.client, transaction.tx);
                final(engine)@ == after && r == nested(result)
            },
            Type::Chargeback => {
                let (after, result) = old(engine)@.chargeback(transaction.client, transaction.tx);
                final(engine)@ == after && r == nested(result)
            },
        },
{
    let result = match transaction.type_ {
        Type::Deposit => {
            let amount = get_and_parse_amount(transaction.amount)?;
            engine.deposit(transaction.client, transaction.tx, amount)
        },
        Type::Withdrawal => {
            let amount = get_and_parse_amount(transaction.amount)?;
            engine.withdrawal(transaction.client, transaction.tx, amount)
        },
        Type::Dispute => engine.dispute(transaction.client, transaction.tx),
        Type::Resolve => engine.resolve(transaction.client, transaction.tx),
        Type::Chargeback => engine.chargeback(transaction.client, transaction.tx),
    };
    match result {
        Ok(()) => Ok(()),
        Err(e) => Err(TransactionsProcessorError::NestedEngineError(e)),
    }
}

} // verus!
