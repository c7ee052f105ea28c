//! The state of the router.

use crate::common::{
    Address, EVENT_ADMIN_TRANSFERRED, EVENT_ALIAS_ADDED, EVENT_ALIAS_REMOVED,
    EVENT_BEST_ROUTE_SELECTED, EVENT_METADATA_UPDATED, EVENT_ROUTED, EVENT_ROUTER_PAUSED,
    EVENT_ROUTE_OVERWRITTEN, EVENT_ROUTE_PAUSED, EVENT_ROUTE_REGISTERED, EVENT_ROUTE_REMOVED,
    EVENT_ROUTE_RESOLVE_EXPIRED, EVENT_ROUTE_RESOLVE_PAUSED, EVENT_ROUTE_SCORED,
    EVENT_ROUTE_TAG_ADDED, EVENT_ROUTE_TAG_REMOVED, EVENT_ROUTE_TTL_EXTENDED, EVENT_ROUTE_TTL_SET,
    EVENT_ROUTE_UPDATED,
};
use crate::store::KeyedStore;
use crate::text::copy_strings;
use vstd::prelude::*;

verus! {

#[derive(Debug, PartialEq)]
pub struct RouteMetadata {
    /// Human-readable description (at most 256 characters)
    pub description: String,
    /// Tags for categorization (at most 5)
    pub tags: Vec<String>,
    /// Owner address
    pub owner: Address,
}

/// What metadata say.
pub struct MetadataView {
    pub description: Seq<char>,
    pub tags: Seq<String>,
    pub owner: Seq<char>,
}

impl View for RouteMetadata {
    type V = MetadataView;

    open spec fn view(&self) -> MetadataView {
        MetadataView {
            description: self.description@,
            tags: self.tags@,
            owner: self.owner@,
        }
    }
}

impl Clone for RouteMetadata {
    fn clone(&self) -> (r: Self)
        ensures
            r@ == self@,
    {
        RouteMetadata {
            description: self.description.clone(),
            tags: copy_strings(&self.tags),
            owner: self.owner.clone(),
        }
    }
}

#[derive(Debug, PartialEq)]
pub struct RouteEntry {
    /// Resolved contract address for this route
    pub address: Address,
    /// Human-readable route name
    pub name: String,
    /// Whether this specific route is paused
    pub paused: bool,
    /// Who last updated this route
    pub updated_by: Address,
    /// Ledger sequence number after which the route is expired; `None` is never
    pub expires_at: Option<u32>,
}

impl Clone for RouteEntry {
    fn clone(&self) -> (r: Self)
        ensures
            r == *self,
    {
        RouteEntry {
            address: self.address.clone(),
            name: self.name.clone(),
            paused: self.paused,
            updated_by: self.updated_by.clone(),
            expires_at: self.expires_at,
        }
    }
}

pub struct RouteRegisterInput {
    pub name: String,
    pub address: Address,
}

/// Scoring attributes of a route, set by the admin.
///
/// The composite score is `liquidity_score + reliability_score - fee_bps / 10`;
/// higher is preferred.
#[derive(Clone, Copy, Debug, PartialEq)]
pub struct RouteScore {
    /// Liquidity depth score. Higher = more liquid.
    pub liquidity_score: u32,
    /// Fee rate in basis points. Lower = cheaper.
    pub fee_bps: u32,
    /// Historical reliability score. Higher = more reliable.
    pub reliability_score: u32,
}

/// What can go wrong with one name of a batch resolution.
#[derive(Clone, Copy, Debug, PartialEq, Eq, Structural)]
pub enum ResolveError {
    RouterPaused,
    RouteNotFound,
    RoutePaused,
}

/// What one name of a batch resolution is answered.
#[derive(Debug, PartialEq)]
pub enum BatchResolveResult {
    Resolved(Address),
    Failed(ResolveError),
}

#[derive(Clone, Copy, Debug, PartialEq, Eq, Structural)]
pub enum RouterError {
    AlreadyInitialized,
    NotInitialized,
    Unauthorized,
    RouteNotFound,
    RoutePaused,
    RouterPaused,
    RouteAlreadyExists,
    InvalidRouteName,
    InvalidMetadata,
    CircularDependency,
    RouteInUse,
    InvalidAddress,
    RouteExpired,
}

impl RouterError {
    pub open spec fn name(self) -> Seq<char> {
        match self {
            RouterError::AlreadyInitialized => "AlreadyInitialized"@,
            RouterError::NotInitialized => "NotInitialized"@,
            RouterError::Unauthorized => "Unauthorized"@,
            RouterError::RouteNotFound => "RouteNotFound"@,
            RouterError::RoutePaused => "RoutePaused"@,
            RouterError::RouterPaused => "RouterPaused"@,
            RouterError::RouteAlreadyExists => "RouteAlreadyExists"@,
            RouterError::InvalidRouteName => "InvalidRouteName"@,
            RouterError::InvalidMetadata => "InvalidMetadata"@,
            RouterError::CircularDependency => "CircularDependency"@,
            RouterError::RouteInUse => "RouteInUse"@,
            RouterError::InvalidAddress => "InvalidAddress"@,
            RouterError::RouteExpired => "RouteExpired"@,
        }
    }

    /// The error's name, as batches report it.
    pub fn router_error_message(self) -> (r: &'static str)
        ensures
            r@ == self.name(),
    {
        match self {
            RouterError::AlreadyInitialized => "AlreadyInitialized",
            RouterError::NotInitialized => "NotInitialized",
            RouterError::Unauthorized => "Unauthorized",
            RouterError::RouteNotFound => "RouteNotFound",
            RouterError::RoutePaused => "RoutePaused",
            RouterError::RouterPaused => "RouterPaused",
            RouterError::RouteAlreadyExists => "RouteAlreadyExists",
            RouterError::InvalidRouteName => "InvalidRouteName",
            RouterError::InvalidMetadata => "InvalidMetadata",
            RouterError::CircularDependency => "CircularDependency",
            RouterError::RouteInUse => "RouteInUse",
            RouterError::InvalidAddress => "InvalidAddress",
            RouterError::RouteExpired => "RouteExpired",
        }
    }
}

/// What the router publishes.
#[derive(Debug, PartialEq)]
pub enum RouterEvent {
    RouteRegistered { name: String, address: Address },
    RouteTtlSet { name: String, expires_at: u32 },
    RouteTtlExtended { name: String, expires_at: u32 },
    RouteUpdated { name: String },
    RouteOverwritten { name: String, old_address: Address, new_address: Address },
    RouteRemoved { name: String },
    RoutePaused { name: String, paused: bool },
    RouteResolvePaused { name: String },
    RouteResolveExpired { name: String },
    Routed { name: String, address: Address },
    RouterPaused { paused: bool },
    MetadataUpdated { name: String, present: bool },
    RouteTagAdded { name: String, tag: String },
    RouteTagRemoved { name: String, tag: String },
    AliasAdded { existing_name: String, alias_name: String },
    AliasRemoved { alias_name: String },
    RouteScored { name: String, score: RouteScore },
    BestRouteSelected { name: String, composite: i64 },
    AdminTransferred { old_admin: Address, new_admin: Address },
}

impl RouterEvent {
    /// The topic under which the event is published.
    pub fn topic(&self) -> (r: &'static str)
        ensures
            r@ == (match self {
                RouterEvent::RouteRegistered { .. } => EVENT_ROUTE_REGISTERED@,
                RouterEvent::RouteTtlSet { .. } => EVENT_ROUTE_TTL_SET@,
                RouterEvent::RouteTtlExtended { .. } => EVENT_ROUTE_TTL_EXTENDED@,
                RouterEvent::RouteUpdated { .. } => EVENT_ROUTE_UPDATED@,
                RouterEvent::RouteOverwritten { .. } => EVENT_ROUTE_OVERWRITTEN@,
                RouterEvent::RouteRemoved { .. } => EVENT_ROUTE_REMOVED@,
                RouterEvent::RoutePaused { .. } => EVENT_ROUTE_PAUSED@,
                RouterEvent::RouteResolvePaused { .. } => EVENT_ROUTE_RESOLVE_PAUSED@,
                RouterEvent::RouteResolveExpired { .. } => EVENT_ROUTE_RESOLVE_EXPIRED@,
                RouterEvent::Routed { .. } => EVENT_ROUTED@,
                RouterEvent::RouterPaused { .. } => EVENT_ROUTER_PAUSED@,
                RouterEvent::MetadataUpdated { .. } => EVENT_METADATA_UPDATED@,
                RouterEvent::RouteTagAdded { .. } => EVENT_ROUTE_TAG_ADDED@,
                RouterEvent::RouteTagRemoved { .. } => EVENT_ROUTE_TAG_REMOVED@,
                RouterEvent::AliasAdded { .. } => EVENT_ALIAS_ADDED@,
                RouterEvent::AliasRemoved { .. } => EVENT_ALIAS_REMOVED@,
                RouterEvent::RouteScored { .. } => EVENT_ROUTE_SCORED@,
                RouterEvent::BestRouteSelected { .. } => EVENT_BEST_ROUTE_SELECTED@,
                RouterEvent::AdminTransferred { .. } => EVENT_ADMIN_TRANSFERRED@,
            }),
    {
        match self {
            RouterEvent::RouteRegistered { .. } => EVENT_ROUTE_REGISTERED,
            RouterEvent::RouteTtlSet { .. } => EVENT_ROUTE_TTL_SET,
            RouterEvent::RouteTtlExtended { .. } => EVENT_ROUTE_TTL_EXTENDED,
            RouterEvent::RouteUpdated { .. } => EVENT_ROUTE_UPDATED,
            RouterEvent::RouteOverwritten { .. } => EVENT_ROUTE_OVERWRITTEN,
            RouterEvent::RouteRemoved { .. } => EVENT_ROUTE_REMOVED,
            RouterEvent::RoutePaused { .. } => EVENT_ROUTE_PAUSED,
            RouterEvent::RouteResolvePaused { .. } => EVENT_ROUTE_RESOLVE_PAUSED,
            RouterEvent::RouteResolveExpired { .. } => EVENT_ROUTE_RESOLVE_EXPIRED,
            RouterEvent::Routed { .. } => EVENT_ROUTED,
            RouterEvent::RouterPaused { .. } => EVENT_ROUTER_PAUSED,
            RouterEvent::MetadataUpdated { .. } => EVENT_METADATA_UPDATED,
            RouterEvent::RouteTagAdded { .. } => EVENT_ROUTE_TAG_ADDED,
            RouterEvent::RouteTagRemoved { .. } => EVENT_ROUTE_TAG_REMOVED,
            RouterEvent::AliasAdded { .. } => EVENT_ALIAS_ADDED,
            RouterEvent::AliasRemoved { .. } => EVENT_ALIAS_REMOVED,
            RouterEvent::RouteScored { .. } => EVENT_ROUTE_SCORED,
            RouterEvent::BestRouteSelected { .. } => EVENT_BEST_ROUTE_SELECTED,
            RouterEvent::AdminTransferred { .. } => EVENT_ADMIN_TRANSFERRED,
        }
    }
}

/// Whether an entry has an expiry and the ledger has passed it.
pub open spec fn expired(entry: RouteEntry, sequence: u32) -> bool {
    entry.expires_at matches Some(expires_at) && sequence > expires_at
}

/// Whether `entry` is expired at ledger `sequence`. Entries without an expiry
/// never are.
pub fn is_route_expired(entry: &RouteEntry, sequence: u32) -> (r: bool)
    ensures
        r == expired(*entry, sequence),
{
    match entry.expires_at {
        Some(expires_at) => sequence > expires_at,
        None => false,
    }
}

/// The state of the router. `events` is what it has published.
pub struct RouterCore {
    pub admin: Option<Address>,
    /// name -> entry
    pub routes: KeyedStore<String, RouteEntry>,
    /// The registered names in the order of registration
    pub route_names: Vec<String>,
    /// The number of registered names
    pub route_count: u32,
    pub paused: bool,
    pub total_routed: u64,
    /// alias -> name, in the order in which the aliases were added
    pub aliases: KeyedStore<String, String>,
    /// name -> score
    pub scores: KeyedStore<String, RouteScore>,
    /// name -> metadata
    pub metadata: KeyedStore<String, RouteMetadata>,
    /// name -> names of its direct dependencies
    pub dependencies: KeyedStore<String, Vec<String>>,
    /// The highest-scoring eligible route, as last computed
    pub best_route: Option<String>,
    pub events: Vec<RouterEvent>,
}

} // verus!
