//! The flash-loan router: where to borrow, and the calldata of every strategy.

use crate::config::Config;
use crate::shared::address::{parse_address, parsed_address, Address};
use crate::shared::addresses::Addresses;
use crate::shared::flash_loan::depths::{balance_data, balance_of, CallRequest};
use crate::shared::market::{Balances, DexType};
use crate::u256::{limit, U256};
use vstd::prelude::*;

pub mod calldata;
pub mod carry;
pub mod depths;
pub mod jit;
pub mod split;

verus! {

/// Where the funds of a flash loan come from.
#[derive(Clone, Copy, Debug, PartialEq, Eq, Structural)]
pub enum FlashProvider {
    Balancer,
    Morpho,
    Aave,
}

impl FlashProvider {
    /// The provider's number in the contract.
    pub open spec fn number(self) -> u8 {
        match self {
            FlashProvider::Balancer => 0,
            FlashProvider::Morpho => 1,
            FlashProvider::Aave => 2,
        }
    }

    /// The provider's number in the contract.
    pub fn as_u8(self) -> (r: u8)
        ensures
            r == self.number(),
    {
        match self {
            FlashProvider::Balancer => 0,
            FlashProvider::Morpho => 1,
            FlashProvider::Aave => 2,
        }
    }
}

/// Why no router or no calldata can be made.
#[derive(Clone, Copy, Debug, PartialEq, Eq, Structural)]
pub enum FlashError {
    BadBalancerVault,
    BadFlashExecutor,
    BadMorphoBlue,
    BadMulticall,
    BadRouter(DexType),
    UnsupportedDex(u8),
    ZeroProtocol,
    ZeroDebt,
}

/// The contracts that flash loans go through.
#[derive(Clone, Copy, Debug)]
pub struct FlashLoanRouter {
    pub balancer: Address,
    pub morpho: Address,
    pub executor: Address,
    pub multicall: Address,
}

/// What is wrong with the addresses of a router, the first fault first.
pub open spec fn router_fault(cfg: Config, addresses: Addresses) -> Option<FlashError> {
    if parsed_address(cfg.balancer_vault@) is None {
        Some(FlashError::BadBalancerVault)
    } else if parsed_address(cfg.flash_executor_address@) is None {
        Some(FlashError::BadFlashExecutor)
    } else if parsed_address(cfg.morpho_blue@) is None {
        Some(FlashError::BadMorphoBlue)
    } else if parsed_address(addresses.multicall3@) is None {
        Some(FlashError::BadMulticall)
    } else {
        None
    }
}

impl FlashLoanRouter {
    /// A router over the configured contracts. An address that cannot be read is an error: it is
    /// never replaced by another one.
    pub fn new(cfg: &Config, addresses: &Addresses) -> (r: Result<FlashLoanRouter, FlashError>)
        ensures
            r is Ok <==> router_fault(*cfg, *addresses) is None,
            r matches Err(e) ==> router_fault(*cfg, *addresses) == Some(e),
            r matches Ok(router) ==> {
                &&& Some(router.balancer@) == parsed_address(cfg.balancer_vault@)
                &&& Some(router.executor@) == parsed_address(cfg.flash_executor_address@)
                &&& Some(router.morpho@) == parsed_address(cfg.morpho_blue@)
                &&& Some(router.multicall@) == parsed_address(addresses.multicall3@)
            },
    {
        let balancer: Address = match parse_address(cfg.balancer_vault.as_str()) {
            Some(a) => a,
            None => return Err(FlashError::BadBalancerVault),
        };
        let executor: Address = match parse_address(cfg.flash_executor_address.as_str()) {
            Some(a) => a,
            None => return Err(FlashError::BadFlashExecutor),
        };
        let morpho: Address = match parse_address(cfg.morpho_blue.as_str()) {
            Some(a) => a,
            None => return Err(FlashError::BadMorphoBlue),
        };
        let multicall: Address = match parse_address(addresses.multicall3.as_str()) {
            Some(a) => a,
            None => return Err(FlashError::BadMulticall),
        };
        Ok(FlashLoanRouter { balancer, morpho, executor, multicall })
    }
}

/// Where an amount is borrowed: from Balancer while a twentieth of its funds stays, else from
/// Morpho within three fifths of its funds, else from Aave.
pub open spec fn chosen_provider(amount: nat, balancer: nat, morpho: nat) -> FlashProvider {
    if amount <= balancer * 95 / 100 {
        FlashProvider::Balancer
    } else if morpho * 60 / 100 >= amount {
        FlashProvider::Morpho
    } else {
        FlashProvider::Aave
    }
}

/// Where an amount is borrowed, given the balances of the lenders.
pub open spec fn provider_for(amount: nat, held: Balances) -> FlashProvider {
    chosen_provider(amount, held.balancer@, held.morpho@)
}

/// Whether the shares of the balances can be worked out with 256 bits.
pub open spec fn shares_fit(held: Balances) -> bool {
    held.balancer@ * 95 < limit() && held.morpho@ * 60 < limit()
}

impl FlashLoanRouter {
    /// Where an amount is borrowed, given the balances of the lenders.
    pub fn select_provider(&self, amount: U256, held: &Balances) -> (r: FlashProvider)
        requires
            shares_fit(*held),
        ensures
            r == provider_for(amount@, *held),
    {
        let within: U256 = held.balancer.times(95).over(100);
        if !within.is_below(&amount) {
            return FlashProvider::Balancer;
        }
        let lendable: U256 = held.morpho.times(60).over(100);
        if !lendable.is_below(&amount) {
            return FlashProvider::Morpho;
        }
        FlashProvider::Aave
    }

    /// The call that asks for the balance of Balancer, which `read_balance` reads from its reply.
    pub fn get_provider_depth(&self, asset: Address) -> (r: CallRequest)
        ensures
            r.to == asset,
            r.data@ == balance_data(self.balancer@),
    {
        balance_of(asset, self.balancer)
    }
}

/// Balancer lends whenever a twentieth of its funds stays, whatever Morpho holds; else Morpho lends
/// whenever two fifths of its own stay; else Aave does.
pub proof fn law_first_able_lender_lends(amount: nat, balancer: nat, morpho: nat)
    ensures
        chosen_provider(amount, balancer, morpho) is Balancer <==> 20 * amount <= 19 * balancer,
        chosen_provider(amount, balancer, morpho) is Morpho <==> 20 * amount > 19 * balancer && 5
            * amount <= 3 * morpho,
        chosen_provider(amount, balancer, morpho) is Aave <==> 20 * amount > 19 * balancer && 5
            * amount > 3 * morpho,
{
}

/// The balance of each lender is its own.
pub proof fn law_lenders_are_told_apart(amount: nat, held: Balances)
    ensures
        provider_for(amount, held) is Balancer <==> 20 * amount <= 19 * held.balancer@,
        provider_for(amount, held) is Morpho ==> 5 * amount <= 3 * held.morpho@,
{
}

/// A router can be made if and only if all four addresses can be read; the error names one that
/// cannot.
pub proof fn law_faults_of_a_router(cfg: Config, addresses: Addresses)
    ensures
        router_fault(cfg, addresses) is None <==> {
            &&& parsed_address(cfg.balancer_vault@) is Some
            &&& parsed_address(cfg.flash_executor_address@) is Some
            &&& parsed_address(cfg.morpho_blue@) is Some
            &&& parsed_address(addresses.multicall3@) is Some
        },
        match router_fault(cfg, addresses) {
            Some(FlashError::BadBalancerVault) => parsed_address(cfg.balancer_vault@) is None,
            Some(FlashError::BadFlashExecutor) => parsed_address(cfg.flash_executor_address@) is None,
            Some(FlashError::BadMorphoBlue) => parsed_address(cfg.morpho_blue@) is None,
            Some(FlashError::BadMulticall) => parsed_address(addresses.multicall3@) is None,
            Some(_) => false,
            None => true,
        },
{
}

/// A loan from Balancer leaves a twentieth of its funds, and a loan from Morpho two fifths.
pub proof fn law_provider_keeps_reserve(amount: nat, balancer: nat, morpho: nat)
    ensures
        chosen_provider(amount, balancer, morpho) is Balancer ==> amount * 100 <= balancer * 95,
        chosen_provider(amount, balancer, morpho) is Morpho ==> amount * 100 <= morpho * 60,
        chosen_provider(amount, balancer, morpho) is Aave ==> amount * 100 > balancer * 95 - 100
            && amount * 100 > morpho * 60 - 100,
{
}

} // verus!
