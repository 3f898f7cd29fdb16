//! Tests of the downstream data: transactions and the execution layer's
//! limit tables.

use stream_reassembly::limits::{
    EventLimits, GasCosts, OsConstants, ValidateRoundingConsts, VersionedConstantsOverrides,
};
use stream_reassembly::transaction::{
    AccountTransaction, ContractAddress, Fee, L1HandlerTransaction, Nonce, Transaction,
    TransactionHash,
};

#[test]
fn account_transaction_fields() {
    let tx = Transaction::Account(AccountTransaction {
        nonce: Nonce(7),
        sender_address: ContractAddress(0x53),
        tx_hash: TransactionHash(0xabc),
    });
    assert_eq!(tx.nonce(), Nonce(7));
    assert_eq!(tx.sender_address(), ContractAddress(0x53));
    assert_eq!(Transaction::tx_hash(&tx), TransactionHash(0xabc));
}

#[test]
fn l1_handler_transaction_fields() {
    let tx = Transaction::L1Handler(L1HandlerTransaction {
        nonce: Nonce(60),
        contract_address: ContractAddress(0x23),
        tx_hash: TransactionHash(0xdef),
        paid_fee_on_l1: Fee(1),
    });
    assert_eq!(tx.nonce(), Nonce(60));
    assert_eq!(tx.sender_address(), ContractAddress(0x23));
    assert_eq!(Transaction::tx_hash(&tx), TransactionHash(0xdef));
}

#[test]
fn validate_rounding_defaults_to_no_rounding() {
    let c = ValidateRoundingConsts::default();
    assert_eq!(c.validate_block_number_rounding, 1);
    assert_eq!(c.validate_timestamp_rounding, 1);
}

#[test]
fn limit_tables_construct() {
    let limits = EventLimits { max_data_length: 300, max_keys_length: 50, max_n_emitted_events: 1000 };
    assert_eq!(limits.max_data_length, 300);
    let costs = GasCosts::default();
    assert_eq!(costs.step_gas_cost, 0);
    assert_eq!(costs.sha256_process_block_gas_cost, 0);
    let os = OsConstants::default();
    assert_eq!(os.validate_rounding_consts.validate_block_number_rounding, 1);
    let overrides = VersionedConstantsOverrides {
        validate_max_n_steps: 1_000_000,
        max_recursion_depth: 50,
        invoke_tx_max_n_steps: 10_000_000,
    };
    assert_eq!(overrides.max_recursion_depth, 50);
}
