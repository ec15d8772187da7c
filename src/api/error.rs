use vstd::prelude::*;

use crate::api::currency::CurrencyError;
use crate::api::engine::EngineError;

verus! {

/// `csv::Error`, carried as the cause of a failure to read the input; nothing is assumed of
/// its contents.
#[verifier::external_type_specification]
#[verifier::external_body]
pub struct ExCsvError(csv::Error);

/// Why a record of the input could not be processed.
#[derive(Debug)]
#[allow(inconsistent_fields)]
pub enum TransactionsProcessorError {
    /// The input file could not be opened.
    CannotReadInputFile { file: String, source: csv::Error },
    /// The header row could not be read.
    CannotReadInputFileHeaders { file: String, source: csv::Error },
    /// A record could not be read; this ends processing.
    CannotReadInputFileRecord { file: String, source: csv::Error },
    /// A record could not be decoded into an operation.
    CannotDeserializeRecord { file: String, source: csv::Error },
    /// A deposit or withdrawal has no amount.
    MissedMandatoryAmountInInputRecord,
    /// The amount text of a record is not an amount.
    CannotParseMandatoryInputAmountInInputRecord { amount: String, source: CurrencyError },
    /// The engine refused the operation.
    NestedEngineError(EngineError),
}

} // verus!
