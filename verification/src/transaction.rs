//! Transactions as the downstream consumers of ordered streams handle them.
//!
//! Consensus streams carry proposals whose payloads are transactions; the
//! mempool sink and the block executor downstream read only a few fields of
//! them before dispatching. Those fields are held here as plain values.

use vstd::prelude::*;

verus! {

/// A transaction nonce.
#[derive(Clone, Copy, Debug, PartialEq, Eq, Structural)]
pub struct Nonce(pub u64);

/// The address of a contract.
#[derive(Clone, Copy, Debug, PartialEq, Eq, Structural)]
pub struct ContractAddress(pub u64);

/// The hash under which a transaction is known.
#[derive(Clone, Copy, Debug, PartialEq, Eq, Structural)]
pub struct TransactionHash(pub u64);

/// An amount of fee paid on L1.
#[derive(Clone, Copy, Debug, PartialEq, Eq, Structural)]
pub struct Fee(pub u128);

/// A transaction initiated by an account.
#[derive(Clone, Copy, Debug, PartialEq, Eq, Structural)]
pub struct AccountTransaction {
    pub nonce: Nonce,
    pub sender_address: ContractAddress,
    pub tx_hash: TransactionHash,
}

/// A transaction handed over from L1 and executed by its handler contract.
#[derive(Clone, Copy, Debug, PartialEq, Eq, Structural)]
pub struct L1HandlerTransaction {
    pub nonce: Nonce,
    pub contract_address: ContractAddress,
    pub tx_hash: TransactionHash,
    pub paid_fee_on_l1: Fee,
}

/// A transaction as the execution layer dispatches it: initiated by an
/// account, or handed over from L1.
#[derive(Clone, Copy, Debug, PartialEq, Eq, Structural)]
pub enum Transaction {
    Account(AccountTransaction),
    L1Handler(L1HandlerTransaction),
}

impl Transaction {
    /// The transaction's nonce, whichever kind it is.
    pub open spec fn spec_nonce(self) -> Nonce {
        match self {
            Transaction::Account(tx) => tx.nonce,
            Transaction::L1Handler(tx) => tx.nonce,
        }
    }

    /// The address the transaction acts for: the account's own address, or
    /// the contract the L1 handler call targets.
    pub open spec fn spec_sender_address(self) -> ContractAddress {
        match self {
            Transaction::Account(tx) => tx.sender_address,
            Transaction::L1Handler(tx) => tx.contract_address,
        }
    }

    /// The hash under which the transaction is known.
    pub open spec fn spec_tx_hash(self) -> TransactionHash {
        match self {
            Transaction::Account(tx) => tx.tx_hash,
            Transaction::L1Handler(tx) => tx.tx_hash,
        }
    }

    /// The transaction's nonce.
    pub fn nonce(&self) -> (n: Nonce)
        ensures
            n == self.spec_nonce(),
    {
        match self {
            Transaction::Account(tx) => tx.nonce,
            Transaction::L1Handler(tx) => tx.nonce,
        }
    }

    /// The address the transaction acts for.
    pub fn sender_address(&self) -> (a: ContractAddress)
        ensures
            a == self.spec_sender_address(),
    {
        match self {
            Transaction::Account(tx) => tx.sender_address,
            Transaction::L1Handler(tx) => tx.contract_address,
        }
    }

    /// The hash under which the transaction is known.
    pub fn tx_hash(tx: &Transaction) -> (h: TransactionHash)
        ensures
            h == tx.spec_tx_hash(),
    {
        match tx {
            Transaction::Account(t) => t.tx_hash,
            Transaction::L1Handler(t) => t.tx_hash,
        }
    }
}

} // verus!
