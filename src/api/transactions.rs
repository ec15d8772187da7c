use vstd::prelude::*;

verus! {

/// The kind of an operation record.
#[derive(Debug, Clone, Copy, PartialEq, Eq, Structural)]
pub enum Type {
    Deposit,
    Withdrawal,
    Dispute,
    Resolve,
    Chargeback,
}

/// One decoded operation record; `amount` is the raw text of the amount field, if any.
#[derive(Debug)]
pub struct Transaction<'a> {
    pub type_: Type,
    pub client: u16,
    pub tx: u32,
    pub amount: Option<&'a str>,
}

} // verus!
