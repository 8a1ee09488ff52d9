//! The canonical transaction, which every format is read into and written
//! from.

use vstd::prelude::*;
use vstd::string::StringExecFns;
use crate::amount::{Amount, Decimal};

verus! {

/// What a [`Transaction`] is: its texts as sequences of characters and its
/// amount as a decimal.
pub struct TransactionView {
    pub reference: Seq<char>,
    pub account: Seq<char>,
    pub amount: Decimal,
    pub currency: Seq<char>,
    pub value_date: Seq<char>,
    pub description: Seq<char>,
}

/// One movement on an account.
#[derive(Debug, Clone, PartialEq)]
pub struct Transaction {
    /// The statement or transaction identifier.
    pub reference: String,
    /// The account identifier.
    pub account: String,
    /// The signed amount: negative for a debit, positive for a credit.
    pub amount: Amount,
    /// The currency code, `XXX` where none is known.
    pub currency: String,
    /// The value date as `YYYY-MM-DD`, `1970-01-01` where none is known.
    pub value_date: String,
    /// The free-text narrative, which may be empty.
    pub description: String,
}

impl View for Transaction {
    type V = TransactionView;

    open spec fn view(&self) -> TransactionView {
        TransactionView {
            reference: self.reference@,
            account: self.account@,
            amount: self.amount@,
            currency: self.currency@,
            value_date: self.value_date@,
            description: self.description@,
        }
    }
}

/// The views of `txs`, in order.
pub open spec fn views(txs: Seq<Transaction>) -> Seq<TransactionView> {
    txs.map_values(|tx: Transaction| tx@)
}

/// The currency code of a transaction whose currency is not known.
pub open spec fn unknown_currency() -> Seq<char> {
    "XXX"@
}

/// The value date of a transaction whose date is not known.
pub open spec fn unknown_date() -> Seq<char> {
    "1970-01-01"@
}

impl TransactionView {
    /// A transaction of which only these three texts are known: the amount
    /// is zero, currency and date are the unknown ones.
    pub open spec fn bare(
        reference: Seq<char>,
        account: Seq<char>,
        description: Seq<char>,
    ) -> TransactionView {
        TransactionView {
            reference,
            account,
            amount: Decimal::zero(),
            currency: unknown_currency(),
            value_date: unknown_date(),
            description,
        }
    }
}

impl Transaction {
    /// A transaction of which only these three texts are known.
    pub fn bare(reference: String, account: String, description: String) -> (tx: Transaction)
        ensures
            tx@ == TransactionView::bare(reference@, account@, description@),
    {
        Transaction {
            reference,
            account,
            amount: Amount::zero(),
            currency: String::from_str("XXX"),
            value_date: String::from_str("1970-01-01"),
            description,
        }
    }
}

impl Default for Transaction {
    fn default() -> (tx: Transaction)
        ensures
            tx@ == TransactionView::bare("DEFAULT"@, "DEFAULT"@, "Default"@),
    {
        Transaction::bare(
            String::from_str("DEFAULT"),
            String::from_str("DEFAULT"),
            String::from_str("Default"),
        )
    }
}

} // verus!
