//! The configuration and what it must satisfy before the engine starts.

use crate::double::constants::ONE;
use crate::double::Double;
use crate::shared::address::{parse_address, parsed_address};
use vstd::prelude::*;
use vstd::string::*;

verus! {

/// A private key: never shown, and wiped from memory when it is dropped.
pub struct SecretKey(String);

impl Clone for SecretKey {
    fn clone(&self) -> (r: SecretKey)
        ensures
            r@ == self@,
    {
        SecretKey(self.0.clone())
    }
}

impl View for SecretKey {
    type V = Seq<char>;

    closed spec fn view(&self) -> Seq<char> {
        self.0@
    }
}

/// Calls `zeroize::Zeroize::zeroize` on a text: overwrites its memory and leaves it empty.
#[verifier::external_body]
fn zeroize_text(text: &mut String)
    ensures
        final(text)@ == Seq::<char>::empty(),
    opens_invariants none
    no_unwind
{
    zeroize::Zeroize::zeroize(text)
}

impl SecretKey {
    pub fn new(text: String) -> (r: SecretKey)
        ensures
            r@ == text@,
    {
        SecretKey(text)
    }

    /// The key itself.
    pub fn expose(&self) -> (r: &str)
        ensures
            r@ == self@,
    {
        self.0.as_str()
    }

    /// What logs show in place of the key, whatever the key is.
    pub fn redacted(&self) -> (r: String)
        ensures
            r@ == "[REDACTED]"@,
    {
        String::from_str("[REDACTED]")
    }

    /// Overwrites the key and leaves it empty.
    pub fn wipe(&mut self)
        ensures
            final(self)@ == Seq::<char>::empty(),
        opens_invariants none
        no_unwind
    {
        zeroize_text(&mut self.0);
    }
}

impl Drop for SecretKey {
    /// Overwrites the key and leaves it empty, before its memory is given back.
    fn drop(&mut self)
        ensures
            final(self)@ == Seq::<char>::empty(),
        opens_invariants none
        no_unwind
    {
        self.wipe();
    }
}

/// All settings of the engine. Amounts of money, rates and factors are doubles.
pub struct Config {
    pub ipc_path: String,
    pub chain_id: u64,
    pub executor_private_key: SecretKey,
    pub cold_wallet: String,
    pub flash_executor_address: String,
    pub balancer_vault: String,
    pub morpho_blue: String,
    pub aave_addresses_provider: String,
    pub aerodrome_factory: String,
    pub uniswap_v3_factory: String,
    pub min_profit_usd: Double,
    pub min_arb_spread_bps: Double,
    pub min_liquidation_profit_usd: Double,
    pub min_jit_profit_usd: Double,
    pub min_rate_spread_bps: Double,
    pub max_gas_price_gwei: Double,
    pub pool_min_liquidity_usd: Double,
    pub pool_refresh_blocks: u64,
    pub active_phase: u8,
    pub eth_price_fallback_usd: Double,
    pub monitoring_gas_check_interval_blocks: u64,
    /// The block from which borrow positions are looked for.
    pub bootstrap_from_block: u64,
    pub revm_sim_gas_limit: u64,
    pub jit_min_swap_usd: Double,
    /// The switch of the liquidity strategy.
    pub jit_enabled: bool,
    pub priority_fee_multiplier: Double,
    pub max_fee_base_multiplier: Double,
    pub rpc_timeout_secs: u64,
    /// The factor by which gas estimates are raised before a profit is judged.
    pub gas_estimate_safety_margin: Double,
    pub min_profit_slippage_bps: u64,
    pub liquidation_swap_haircut: Double,
    pub liquidation_safety_factor: Double,
    pub liquidation_hf_threshold: Double,
    pub rate_arb_close_spread_bps: Double,
    pub rate_arb_close_hf: Double,
    pub rate_arb_emergency_hf: Double,
    pub rate_arb_max_hold_days: Double,
    pub rate_arb_base_leverage: Double,
    pub rate_arb_max_notional_usdc: u128,
    pub rate_arb_max_notional_weth: u128,
    pub rate_arb_max_breakeven_days: Double,
    /// The notional, in dollars, below which a cbBTC carry does not pay its gas.
    pub rate_arb_cbbtc_min_notional_usd: Double,
    /// The switch for opening carries; closing them needs no switch.
    pub rate_arb_open_enabled: bool,
    /// The blocks for which a carry is held before it is closed without an emergency.
    pub rate_arb_min_hold_blocks: u64,
    /// Where open carries are kept across restarts.
    pub position_store_path: String,
    pub base_sequencer_rpc: String,
    pub builder_endpoints: Vec<String>,
    pub metrics_port: u16,
    pub telegram_bot_token: String,
    pub telegram_chat_id: i64,
}

/// The settings that must hold an address.
#[derive(Clone, Copy, Debug, PartialEq, Eq, Structural)]
pub enum AddressField {
    BalancerVault,
    MorphoBlue,
    AaveAddressesProvider,
    AerodromeFactory,
    UniswapV3Factory,
}

/// Why a configuration is refused.
#[derive(Clone, Copy, Debug, PartialEq, Eq, Structural)]
pub enum ConfigError {
    NoPrivateKey,
    EmptyAddress(AddressField),
    InvalidAddress(AddressField),
    ZeroChainId,
    NoIpcPath,
    NoFlashExecutor,
    LowGasMargin,
}

impl AddressField {
    /// The name of the setting.
    pub fn name(self) -> (r: &'static str)
        ensures
            r@ == self.field_name(),
    {
        match self {
            AddressField::BalancerVault => "balancer_vault",
            AddressField::MorphoBlue => "morpho_blue",
            AddressField::AaveAddressesProvider => "aave_addresses_provider",
            AddressField::AerodromeFactory => "aerodrome_factory",
            AddressField::UniswapV3Factory => "uniswap_v3_factory",
        }
    }

    pub open spec fn field_name(self) -> Seq<char> {
        match self {
            AddressField::BalancerVault => "balancer_vault"@,
            AddressField::MorphoBlue => "morpho_blue"@,
            AddressField::AaveAddressesProvider => "aave_addresses_provider"@,
            AddressField::AerodromeFactory => "aerodrome_factory"@,
            AddressField::UniswapV3Factory => "uniswap_v3_factory"@,
        }
    }
}

impl Config {
    /// The text of a setting that must hold an address.
    pub open spec fn field_text(self, field: AddressField) -> Seq<char> {
        match field {
            AddressField::BalancerVault => self.balancer_vault@,
            AddressField::MorphoBlue => self.morpho_blue@,
            AddressField::AaveAddressesProvider => self.aave_addresses_provider@,
            AddressField::AerodromeFactory => self.aerodrome_factory@,
            AddressField::UniswapV3Factory => self.uniswap_v3_factory@,
        }
    }

    /// The text of a setting that must hold an address.
    pub fn address_field(&self, field: AddressField) -> (r: &str)
        ensures
            r@ == self.field_text(field),
    {
        match field {
            AddressField::BalancerVault => self.balancer_vault.as_str(),
            AddressField::MorphoBlue => self.morpho_blue.as_str(),
            AddressField::AaveAddressesProvider => self.aave_addresses_provider.as_str(),
            AddressField::AerodromeFactory => self.aerodrome_factory.as_str(),
            AddressField::UniswapV3Factory => self.uniswap_v3_factory.as_str(),
        }
    }
}

/// What is wrong with a setting that must hold an address.
pub open spec fn field_fault(cfg: Config, field: AddressField) -> Option<ConfigError> {
    if cfg.field_text(field).len() == 0 {
        Some(ConfigError::EmptyAddress(field))
    } else if parsed_address(cfg.field_text(field)) is None {
        Some(ConfigError::InvalidAddress(field))
    } else {
        None
    }
}

/// The first of several faults.
pub open spec fn first_of(a: Option<ConfigError>, b: Option<ConfigError>) -> Option<ConfigError> {
    if a is Some {
        a
    } else {
        b
    }
}

/// A fault that is there under a condition.
pub open spec fn fault_if(condition: bool, e: ConfigError) -> Option<ConfigError> {
    if condition {
        Some(e)
    } else {
        None
    }
}

/// The first fault of a configuration, in the order in which settings are looked at.
pub open spec fn config_fault(cfg: Config) -> Option<ConfigError> {
    let late = first_of(
        fault_if(cfg.chain_id == 0, ConfigError::ZeroChainId),
        first_of(
            fault_if(cfg.ipc_path@.len() == 0, ConfigError::NoIpcPath),
            first_of(
                fault_if(cfg.flash_executor_address@.len() == 0, ConfigError::NoFlashExecutor),
                fault_if(
                    cfg.gas_estimate_safety_margin.below(Double { bits: ONE }),
                    ConfigError::LowGasMargin,
                ),
            ),
        ),
    );
    let addresses = first_of(
        field_fault(cfg, AddressField::BalancerVault),
        first_of(
            field_fault(cfg, AddressField::MorphoBlue),
            first_of(
                field_fault(cfg, AddressField::AaveAddressesProvider),
                first_of(
                    field_fault(cfg, AddressField::AerodromeFactory),
                    field_fault(cfg, AddressField::UniswapV3Factory),
                ),
            ),
        ),
    );
    first_of(
        fault_if(cfg.executor_private_key@.len() == 0, ConfigError::NoPrivateKey),
        first_of(addresses, late),
    )
}

/// Looks at one setting that must hold an address.
fn check_field(cfg: &Config, field: AddressField) -> (r: Result<(), ConfigError>)
    ensures
        r == match field_fault(*cfg, field) {
            Some(e) => Err::<(), ConfigError>(e),
            None => Ok::<(), ConfigError>(()),
        },
{
    let text: &str = cfg.address_field(field);
    if text.is_empty() {
        return Err(ConfigError::EmptyAddress(field));
    }
    match parse_address(text) {
        Some(_) => Ok(()),
        None => Err(ConfigError::InvalidAddress(field)),
    }
}

/// Looks at the settings without which no strategy can run, and tells the first fault.
pub fn validate_config(cfg: &Config) -> (r: Result<(), ConfigError>)
    ensures
        r is Ok <==> config_fault(*cfg) is None,
        r matches Err(e) ==> config_fault(*cfg) == Some(e),
{
    if cfg.executor_private_key.expose().is_empty() {
        return Err(ConfigError::NoPrivateKey);
    }
    check_field(cfg, AddressField::BalancerVault)?;
    check_field(cfg, AddressField::MorphoBlue)?;
    check_field(cfg, AddressField::AaveAddressesProvider)?;
    check_field(cfg, AddressField::AerodromeFactory)?;
    check_field(cfg, AddressField::UniswapV3Factory)?;
    if cfg.chain_id == 0 {
        return Err(ConfigError::ZeroChainId);
    }
    if cfg.ipc_path.as_str().is_empty() {
        return Err(ConfigError::NoIpcPath);
    }
    if cfg.flash_executor_address.as_str().is_empty() {
        return Err(ConfigError::NoFlashExecutor);
    }
    if cfg.gas_estimate_safety_margin.is_below(Double { bits: ONE }) {
        return Err(ConfigError::LowGasMargin);
    }
    Ok(())
}

/// A configuration is sound if and only if it has a key, its five addresses can be read, its chain
/// has a number, the node and the contract are named, and the margin for gas is not below one.
pub proof fn law_sound_configurations(cfg: Config)
    requires
        !cfg.gas_estimate_safety_margin.nan(),
    ensures
        config_fault(cfg) is None <==> {
            &&& cfg.executor_private_key@.len() > 0
            &&& cfg.balancer_vault@.len() > 0 && parsed_address(cfg.balancer_vault@) is Some
            &&& cfg.morpho_blue@.len() > 0 && parsed_address(cfg.morpho_blue@) is Some
            &&& cfg.aave_addresses_provider@.len() > 0 && parsed_address(
                cfg.aave_addresses_provider@,
            ) is Some
            &&& cfg.aerodrome_factory@.len() > 0 && parsed_address(cfg.aerodrome_factory@) is Some
            &&& cfg.uniswap_v3_factory@.len() > 0 && parsed_address(cfg.uniswap_v3_factory@) is Some
            &&& cfg.chain_id != 0
            &&& cfg.ipc_path@.len() > 0
            &&& cfg.flash_executor_address@.len() > 0
            &&& (Double { bits: ONE }).at_most(cfg.gas_estimate_safety_margin)
        },
{
}

/// A fault that is told is there: it names a setting that is wrong.
pub proof fn law_told_faults_are_there(cfg: Config)
    ensures
        match config_fault(cfg) {
            Some(ConfigError::NoPrivateKey) => cfg.executor_private_key@.len() == 0,
            Some(ConfigError::EmptyAddress(field)) => cfg.field_text(field).len() == 0,
            Some(ConfigError::InvalidAddress(field)) => parsed_address(cfg.field_text(field)) is None
                && cfg.field_text(field).len() > 0,
            Some(ConfigError::ZeroChainId) => cfg.chain_id == 0,
            Some(ConfigError::NoIpcPath) => cfg.ipc_path@.len() == 0,
            Some(ConfigError::NoFlashExecutor) => cfg.flash_executor_address@.len() == 0,
            Some(ConfigError::LowGasMargin) => cfg.gas_estimate_safety_margin.below(
                Double { bits: ONE },
            ),
            _ => true,
        },
        cfg.executor_private_key@.len() == 0 ==> config_fault(cfg) == Some(
            ConfigError::NoPrivateKey,
        ),
{
}

/// Each setting stands under its own name.
pub proof fn law_settings_have_their_own_names(cfg: Config)
    ensures
        cfg.field_text(AddressField::BalancerVault) == cfg.balancer_vault@,
        cfg.field_text(AddressField::MorphoBlue) == cfg.morpho_blue@,
        cfg.field_text(AddressField::AaveAddressesProvider) == cfg.aave_addresses_provider@,
        cfg.field_text(AddressField::AerodromeFactory) == cfg.aerodrome_factory@,
        cfg.field_text(AddressField::UniswapV3Factory) == cfg.uniswap_v3_factory@,
{
}

} // verus!
