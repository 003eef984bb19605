//! A registry of contract addresses under aliases, for applications made of
//! several contracts.
//!
//! The registry keeps two things in the instance storage of the contract
//! that hosts it: the address of its admin, and a map from alias to contract
//! address. The functions here decide on what was read from the storage
//! what a call does to it. Reading the storage before a call, demanding the
//! admin's authorization and writing the storage after it are left to the
//! contract.

use vstd::prelude::*;
use soroban_sdk::{Address, Env, Symbol};
use crate::host::{
    address_text, alias_entries, aliases_are_addresses, aliases_get, aliases_new, aliases_remove,
    aliases_set, symbol_name,
};

verus! {

/// The keys under which the registry keeps its data in instance storage.
#[derive(Clone, Copy, Debug, PartialEq, Eq, Structural)]
pub enum RegistryKey {
    /// The map from alias to contract address.
    Contracts,
    /// The address of the admin.
    Admin,
}

/// Why a registry call was refused.
#[derive(Clone, Copy, Debug, PartialEq, Eq, Structural)]
pub enum RegistryError {
    /// `init` was called on a registry that has an admin.
    AlreadyInitialized,
    /// A change was asked of a registry that has no admin.
    NotInitialized,
}

impl RegistryError {
    /// The message with which a contract ends on this error.
    pub fn message(&self) -> (text: &'static str)
        ensures
            text@ == match *self {
                RegistryError::AlreadyInitialized => "Registry already initialized"@,
                RegistryError::NotInitialized => "Registry not initialized"@,
            },
    {
        match self {
            RegistryError::AlreadyInitialized => "Registry already initialized",
            RegistryError::NotInitialized => "Registry not initialized",
        }
    }
}

/// The interface of a contract that serves as a registry for others.
pub trait ContractRegistry {
    /// Registers a contract under an alias.
    fn register_contract(env: &Env, alias: Symbol, address: Address);

    /// The address registered under an alias.
    fn get_contract_by_alias(env: &Env, alias: Symbol) -> Option<Address>;

    /// All registered contracts.
    fn get_all_contracts(env: &Env) -> soroban_sdk::Map<Symbol, Address>;
}

/// What the instance storage holds under the two keys of the registry.
pub struct RegistryState {
    /// The value under `RegistryKey::Admin`.
    pub admin: Option<Address>,
    /// The value under `RegistryKey::Contracts`.
    pub contracts: Option<soroban_sdk::Map<Symbol, Address>>,
}

impl RegistryState {
    /// The registered addresses by alias; none where no map is stored.
    pub open spec fn entries(&self) -> Map<Seq<u8>, Seq<u8>> {
        match self.contracts {
            Some(m) => alias_entries(m),
            None => Map::empty(),
        }
    }

    /// The text of the admin's address.
    pub open spec fn admin_text(&self) -> Option<Seq<u8>> {
        match self.admin {
            Some(a) => Some(address_text(a)),
            None => None,
        }
    }

    /// True iff the stored map, if there is one, holds addresses only.
    pub open spec fn wf(&self) -> bool {
        match self.contracts {
            Some(m) => aliases_are_addresses(m),
            None => true,
        }
    }

    /// The state of a storage that holds neither key.
    pub fn empty() -> (state: Self)
        ensures
            state.admin is None,
            state.contracts is None,
            state.wf(),
    {
        RegistryState { admin: None, contracts: None }
    }
}

/// The rules of the registry.
pub struct BaseRegistry;

impl BaseRegistry {
    /// Initializes the registry with its admin and a first set of contracts.
    ///
    /// This works once: a registry that has an admin refuses with
    /// `AlreadyInitialized` and stays as it is. On success the admin given
    /// here has to authorize the call.
    pub fn init(
        state: &mut RegistryState,
        admin: &Address,
        contracts: soroban_sdk::Map<Symbol, Address>,
    ) -> (r: Result<(), RegistryError>)
        requires
            aliases_are_addresses(contracts),
        ensures
            old(state).admin is Some ==> r == Err::<(), RegistryError>(
                RegistryError::AlreadyInitialized,
            ) && *final(state) == *old(state),
            old(state).admin is None ==> r is Ok && final(state).admin_text() == Some(
                address_text(*admin),
            ) && final(state).contracts == Some(contracts) && final(state).wf(),
    {
        if state.admin.is_some() {
            return Err(RegistryError::AlreadyInitialized);
        }
        state.admin = Some(admin.clone());
        state.contracts = Some(contracts);
        Ok(())
    }

    /// Registers a contract under an alias, in place of any that the alias
    /// had.
    ///
    /// A registry without an admin refuses with `NotInitialized` and stays
    /// as it is. On success the result is the admin, who has to authorize
    /// the call.
    pub fn register(env: &Env, state: &mut RegistryState, alias: Symbol, address: Address) -> (r:
        Result<Address, RegistryError>)
        requires
            old(state).wf(),
        ensures
            old(state).admin is None ==> r == Err::<Address, RegistryError>(
                RegistryError::NotInitialized,
            ) && *final(state) == *old(state),
            old(state).admin is Some ==> r is Ok && Some(address_text(r->Ok_0)) == old(
                state,
            ).admin_text() && final(state).admin == old(state).admin && final(state).contracts
                is Some && final(state).entries() == old(state).entries().insert(
                symbol_name(alias),
                address_text(address),
            ) && final(state).wf(),
    {
        let admin = match &state.admin {
            Some(a) => a.clone(),
            None => {
                return Err(RegistryError::NotInitialized);
            },
        };
        let mut contracts = match state.contracts.take() {
            Some(m) => m,
            None => aliases_new(env),
        };
        aliases_set(&mut contracts, alias, address);
        state.contracts = Some(contracts);
        Ok(admin)
    }

    /// The address registered under an alias, if there is one.
    pub fn get_by_alias(state: &RegistryState, alias: Symbol) -> (r: Option<Address>)
        requires
            state.wf(),
        ensures
            match r {
                Some(address) => state.entries().contains_key(symbol_name(alias)) && address_text(
                    address,
                ) == state.entries()[symbol_name(alias)],
                None => !state.entries().contains_key(symbol_name(alias)),
            },
    {
        match &state.contracts {
            Some(m) => aliases_get(m, alias),
            None => None,
        }
    }

    /// All registered contracts; an empty map where none is stored.
    pub fn get_all(env: &Env, state: RegistryState) -> (all: soroban_sdk::Map<Symbol, Address>)
        requires
            state.wf(),
        ensures
            alias_entries(all) == state.entries(),
            aliases_are_addresses(all),
    {
        match state.contracts {
            Some(m) => m,
            None => aliases_new(env),
        }
    }

    /// The admin, if the registry is initialized.
    pub fn get_admin(state: RegistryState) -> (admin: Option<Address>)
        ensures
            admin == state.admin,
    {
        state.admin
    }

    /// Removes an alias; nothing changes where it was not registered.
    ///
    /// A registry without an admin refuses with `NotInitialized` and stays
    /// as it is. On success the result is the admin, who has to authorize
    /// the call.
    pub fn unregister(env: &Env, state: &mut RegistryState, alias: Symbol) -> (r: Result<
        Address,
        RegistryError,
    >)
        requires
            old(state).wf(),
        ensures
            old(state).admin is None ==> r == Err::<Address, RegistryError>(
                RegistryError::NotInitialized,
            ) && *final(state) == *old(state),
            old(state).admin is Some ==> r is Ok && Some(address_text(r->Ok_0)) == old(
                state,
            ).admin_text() && final(state).admin == old(state).admin && final(state).contracts
                is Some && final(state).entries() == old(state).entries().remove(
                symbol_name(alias),
            ) && final(state).wf(),
    {
        let admin = match &state.admin {
            Some(a) => a.clone(),
            None => {
                return Err(RegistryError::NotInitialized);
            },
        };
        let mut contracts = match state.contracts.take() {
            Some(m) => m,
            None => aliases_new(env),
        };
        aliases_remove(&mut contracts, alias);
        state.contracts = Some(contracts);
        Ok(admin)
    }
}

} // verus!
