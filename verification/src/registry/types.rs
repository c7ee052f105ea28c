//! The state of the registry.

use crate::common::{
    Address, EVENT_ADMIN_TRANSFERRED, EVENT_CONTRACT_DEPRECATED, EVENT_CONTRACT_REGISTERED,
};
use crate::store::KeyedStore;
use vstd::prelude::*;

verus! {

#[derive(Debug, PartialEq)]
pub struct ContractEntry {
    /// Registered contract address
    pub address: Address,
    /// Human-readable name
    pub name: String,
    /// Version number (monotonically increasing)
    pub version: u32,
    /// Whether this entry has been deprecated
    pub deprecated: bool,
    /// Who registered it
    pub registered_by: Address,
    /// The reason given when this entry was deprecated
    pub deprecation_reason: Option<String>,
}

impl Clone for ContractEntry {
    fn clone(&self) -> (r: Self)
        ensures
            r == *self,
    {
        ContractEntry {
            address: self.address.clone(),
            name: self.name.clone(),
            version: self.version,
            deprecated: self.deprecated,
            registered_by: self.registered_by.clone(),
            deprecation_reason: match &self.deprecation_reason {
                Some(reason) => Some(reason.clone()),
                None => None,
            },
        }
    }
}

/// One entry of [`RouterRegistry::bulk_register`].
pub struct BulkRegistrationInput {
    pub name: String,
    pub address: Address,
    pub version: u32,
}

#[derive(Clone, Copy, Debug, PartialEq, Eq, Structural)]
pub enum RegistryError {
    AlreadyInitialized,
    NotInitialized,
    Unauthorized,
    NotFound,
    AlreadyRegistered,
    AlreadyDeprecated,
    InvalidVersion,
    VersionNotFound,
    InvalidConstraint,
    AllVersionsDeprecated,
    ContractUnreachable,
}

impl RegistryError {
    /// The number under which the error is reported on the ledger.
    pub fn code(self) -> (r: u32)
        ensures
            r == (match self {
                RegistryError::AlreadyInitialized => 1u32,
                RegistryError::NotInitialized => 2,
                RegistryError::Unauthorized => 3,
                RegistryError::NotFound => 4,
                RegistryError::AlreadyRegistered => 5,
                RegistryError::AlreadyDeprecated => 6,
                RegistryError::InvalidVersion => 7,
                RegistryError::VersionNotFound => 8,
                RegistryError::InvalidConstraint => 9,
                RegistryError::AllVersionsDeprecated => 10,
                RegistryError::ContractUnreachable => 11,
            }),
    {
        match self {
            RegistryError::AlreadyInitialized => 1,
            RegistryError::NotInitialized => 2,
            RegistryError::Unauthorized => 3,
            RegistryError::NotFound => 4,
            RegistryError::AlreadyRegistered => 5,
            RegistryError::AlreadyDeprecated => 6,
            RegistryError::InvalidVersion => 7,
            RegistryError::VersionNotFound => 8,
            RegistryError::InvalidConstraint => 9,
            RegistryError::AllVersionsDeprecated => 10,
            RegistryError::ContractUnreachable => 11,
        }
    }

    pub open spec fn name(self) -> Seq<char> {
        match self {
            RegistryError::AlreadyInitialized => "AlreadyInitialized"@,
            RegistryError::NotInitialized => "NotInitialized"@,
            RegistryError::Unauthorized => "Unauthorized"@,
            RegistryError::NotFound => "NotFound"@,
            RegistryError::AlreadyRegistered => "AlreadyRegistered"@,
            RegistryError::AlreadyDeprecated => "AlreadyDeprecated"@,
            RegistryError::InvalidVersion => "InvalidVersion"@,
            RegistryError::VersionNotFound => "VersionNotFound"@,
            RegistryError::InvalidConstraint => "InvalidConstraint"@,
            RegistryError::AllVersionsDeprecated => "AllVersionsDeprecated"@,
            RegistryError::ContractUnreachable => "ContractUnreachable"@,
        }
    }

    /// The error's name, as batches report it.
    pub fn registry_error_message(self) -> (r: &'static str)
        ensures
            r@ == self.name(),
    {
        match self {
            RegistryError::AlreadyInitialized => "AlreadyInitialized",
            RegistryError::NotInitialized => "NotInitialized",
            RegistryError::Unauthorized => "Unauthorized",
            RegistryError::NotFound => "NotFound",
            RegistryError::AlreadyRegistered => "AlreadyRegistered",
            RegistryError::AlreadyDeprecated => "AlreadyDeprecated",
            RegistryError::InvalidVersion => "InvalidVersion",
            RegistryError::VersionNotFound => "VersionNotFound",
            RegistryError::InvalidConstraint => "InvalidConstraint",
            RegistryError::AllVersionsDeprecated => "AllVersionsDeprecated",
            RegistryError::ContractUnreachable => "ContractUnreachable",
        }
    }
}

/// What the registry publishes.
#[derive(Debug, PartialEq)]
pub enum RegistryEvent {
    ContractRegistered { name: String, version: u32 },
    ContractDeprecated { name: String, version: u32 },
    AdminTransferred { old_admin: Address, new_admin: Address },
}

impl RegistryEvent {
    /// The topic under which the event is published.
    pub fn topic(&self) -> (r: &'static str)
        ensures
            r@ == (match self {
                RegistryEvent::ContractRegistered { .. } => EVENT_CONTRACT_REGISTERED@,
                RegistryEvent::ContractDeprecated { .. } => EVENT_CONTRACT_DEPRECATED@,
                RegistryEvent::AdminTransferred { .. } => EVENT_ADMIN_TRANSFERRED@,
            }),
    {
        match self {
            RegistryEvent::ContractRegistered { .. } => EVENT_CONTRACT_REGISTERED,
            RegistryEvent::ContractDeprecated { .. } => EVENT_CONTRACT_DEPRECATED,
            RegistryEvent::AdminTransferred { .. } => EVENT_ADMIN_TRANSFERRED,
        }
    }
}

/// The state of the registry. `events` is what it has published.
pub struct RouterRegistry {
    pub admin: Option<Address>,
    /// (name, version) -> entry
    pub entries: KeyedStore<(String, u32), ContractEntry>,
    /// name -> its versions, in the order of registration
    pub versions: KeyedStore<String, Vec<u32>>,
    /// The registered names, in the order of their first registration
    pub names: Vec<String>,
    /// address -> the (name, version) last registered for it
    pub addresses: KeyedStore<String, (String, u32)>,
    pub events: Vec<RegistryEvent>,
}

} // verus!
