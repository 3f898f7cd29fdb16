//! Resource limits and gas-cost tables of the execution layer downstream of
//! the streams: plain data that the consumers of ordered proposals apply
//! when they validate and execute what was delivered.

use vstd::prelude::*;

verus! {

/// Limits on the events a single transaction may emit.
#[derive(Clone, Copy, Debug, Default, PartialEq, Eq, Structural)]
pub struct EventLimits {
    pub max_data_length: usize,
    pub max_keys_length: usize,
    pub max_n_emitted_events: usize,
}

/// Gas cost constants of the OS layer.
#[derive(Debug, Default)]
pub struct GasCosts {
    pub step_gas_cost: u64,
    pub memory_hole_gas_cost: u64,
    // Range check has a hard-coded cost higher than its proof percentage to
    // avoid the overhead of retrieving its price from the table.
    pub range_check_gas_cost: u64,
    // Priced builtins.
    pub pedersen_gas_cost: u64,
    pub bitwise_builtin_gas_cost: u64,
    pub ecop_gas_cost: u64,
    pub poseidon_gas_cost: u64,
    pub add_mod_gas_cost: u64,
    pub mul_mod_gas_cost: u64,
    // An estimation of the initial gas for a transaction to run with.
    pub default_initial_gas_cost: u64,
    // Compiler gas costs.
    pub entry_point_initial_budget: u64,
    pub syscall_base_gas_cost: u64,
    // OS gas costs.
    pub entry_point_gas_cost: u64,
    pub transaction_gas_cost: u64,
    // Syscall gas costs.
    pub call_contract_gas_cost: u64,
    pub deploy_gas_cost: u64,
    pub get_block_hash_gas_cost: u64,
    pub get_execution_info_gas_cost: u64,
    pub library_call_gas_cost: u64,
    pub replace_class_gas_cost: u64,
    pub storage_read_gas_cost: u64,
    pub storage_write_gas_cost: u64,
    pub get_class_hash_at_gas_cost: u64,
    pub emit_event_gas_cost: u64,
    pub send_message_to_l1_gas_cost: u64,
    pub secp256k1_add_gas_cost: u64,
    pub secp256k1_get_point_from_x_gas_cost: u64,
    pub secp256k1_get_xy_gas_cost: u64,
    pub secp256k1_mul_gas_cost: u64,
    pub secp256k1_new_gas_cost: u64,
    pub secp256r1_add_gas_cost: u64,
    pub secp256r1_get_point_from_x_gas_cost: u64,
    pub secp256r1_get_xy_gas_cost: u64,
    pub secp256r1_mul_gas_cost: u64,
    pub secp256r1_new_gas_cost: u64,
    pub keccak_gas_cost: u64,
    pub keccak_round_cost_gas_cost: u64,
    pub sha256_process_block_gas_cost: u64,
}

/// Rounding applied to the execution context in validate mode.
#[derive(Clone, Copy, Debug, PartialEq, Eq, Structural)]
pub struct ValidateRoundingConsts {
    /// Flooring factor for the block number in validate mode.
    pub validate_block_number_rounding: u64,
    /// Flooring factor for the timestamp in validate mode.
    pub validate_timestamp_rounding: u64,
}

impl Default for ValidateRoundingConsts {
    /// No rounding: both factors are 1.
    fn default() -> (c: Self)
        ensures
            c.validate_block_number_rounding == 1,
            c.validate_timestamp_rounding == 1,
    {
        ValidateRoundingConsts { validate_block_number_rounding: 1, validate_timestamp_rounding: 1 }
    }
}

/// Constants of the OS layer: the gas-cost table and the validate-mode
/// rounding factors.
#[derive(Debug, Default)]
pub struct OsConstants {
    pub gas_costs: GasCosts,
    pub validate_rounding_consts: ValidateRoundingConsts,
}

/// The constants a node operator may override on top of a release's
/// versioned constants.
#[derive(Clone, Copy, Debug, PartialEq, Eq, Structural)]
pub struct VersionedConstantsOverrides {
    pub validate_max_n_steps: u32,
    pub max_recursion_depth: usize,
    pub invoke_tx_max_n_steps: u32,
}

} // verus!
