//! Requests, responses and messages of the API.

use crate::json::Json;
use vstd::prelude::*;

verus! {

#[derive(Debug, PartialEq)]
pub struct SimulateRequest {
    /// Target contract address (56-char Stellar contract ID starting with C)
    pub target: String,
    /// Function name to invoke
    pub function: String,
    /// Transaction amount in stroops (used for fee estimation)
    pub amount: i64,
    /// Fee rate in basis points (default 30 = 0.30%)
    pub fee_bps: u32,
    /// Network load in basis points for surge pricing (0–10000)
    pub network_load_bps: u32,
    pub route_details: Option<RouteDetails>,
}

/// The amount of a request that gives none.
pub fn default_amount() -> (r: i64)
    ensures
        r == 1_000_000,
{
    1_000_000
}

/// The fee rate of a request that gives none.
pub fn default_fee_bps() -> (r: u32)
    ensures
        r == 30,
{
    30
}

#[derive(Debug, PartialEq)]
pub struct RouteDetails {
    pub name: String,
    pub version: Option<u32>,
    pub expected_outputs: Option<Vec<String>>,
}

#[derive(Debug, PartialEq)]
pub struct SimulateResponse {
    pub success: bool,
    pub estimated_fees: FeeEstimate,
    pub simulation: SimulationDetail,
    pub message: String,
}

#[derive(Clone, Copy, Debug, PartialEq)]
pub struct FeeEstimate {
    pub base_fee: i64,
    pub resource_fee: i64,
    pub total_fee: i64,
    pub surge_multiplier: u32,
    pub high_load: bool,
    /// Whether the fees are a heuristic estimate because no simulation was to be had
    pub fee_estimated: bool,
}

#[derive(Debug, PartialEq)]
pub struct SimulationDetail {
    pub target: String,
    pub function: String,
    pub would_succeed: bool,
}

#[derive(Debug, PartialEq)]
pub struct RouteBreakdown {
    pub route_name: String,
    pub version: u32,
    pub target_contract: String,
    pub function: String,
}

/// What kind of error a response reports.
#[derive(Clone, Copy, Debug, PartialEq, Eq, Structural)]
pub enum ErrorCode {
    ValidationError,
    RpcError,
    NotFound,
    InternalError,
    ContractError,
}

impl ErrorCode {
    /// The code as responses carry it.
    pub fn wire_name(&self) -> (r: &'static str)
        ensures
            r@ == (match self {
                ErrorCode::ValidationError => "VALIDATION_ERROR"@,
                ErrorCode::RpcError => "RPC_ERROR"@,
                ErrorCode::NotFound => "NOT_FOUND"@,
                ErrorCode::InternalError => "INTERNAL_ERROR"@,
                ErrorCode::ContractError => "CONTRACT_ERROR"@,
            }),
    {
        match self {
            ErrorCode::ValidationError => "VALIDATION_ERROR",
            ErrorCode::RpcError => "RPC_ERROR",
            ErrorCode::NotFound => "NOT_FOUND",
            ErrorCode::InternalError => "INTERNAL_ERROR",
            ErrorCode::ContractError => "CONTRACT_ERROR",
        }
    }
}

/// What an error response says of the error.
#[derive(Debug, PartialEq)]
pub struct ErrorDetail {
    pub code: ErrorCode,
    pub message: String,
    /// The request field that the error is about
    pub field: Option<String>,
}

#[derive(Debug, PartialEq)]
pub struct ErrorResponse {
    pub error: ErrorDetail,
}

/// Response for GET /routes/:name
#[derive(Debug, PartialEq)]
pub struct RouteEntryResponse {
    pub address: String,
    pub name: String,
    pub paused: bool,
    pub updated_by: String,
    pub metadata: Option<RouteMetadataResponse>,
}

#[derive(Debug, PartialEq)]
pub struct RouteMetadataResponse {
    pub description: String,
    pub tags: Vec<String>,
    pub owner: String,
}

/// Transaction status event, as WebSocket clients receive it
#[derive(Debug, PartialEq)]
pub struct TransactionStatusEvent {
    pub tx_id: String,
    pub status: TransactionStatus,
    pub timestamp: String,
    pub message: Option<String>,
}

impl Clone for TransactionStatusEvent {
    fn clone(&self) -> (r: Self)
        ensures
            r == *self,
    {
        TransactionStatusEvent {
            tx_id: self.tx_id.clone(),
            status: self.status,
            timestamp: self.timestamp.clone(),
            message: match &self.message {
                Some(message) => Some(message.clone()),
                None => None,
            },
        }
    }
}

#[derive(Clone, Copy, Debug, PartialEq, Eq, Structural)]
pub enum TransactionStatus {
    Pending,
    Submitted,
    Confirmed,
    Failed,
}

impl TransactionStatus {
    /// The status as messages carry it.
    pub fn wire_name(&self) -> (r: &'static str)
        ensures
            r@ == (match self {
                TransactionStatus::Pending => "PENDING"@,
                TransactionStatus::Submitted => "SUBMITTED"@,
                TransactionStatus::Confirmed => "CONFIRMED"@,
                TransactionStatus::Failed => "FAILED"@,
            }),
    {
        match self {
            TransactionStatus::Pending => "PENDING",
            TransactionStatus::Submitted => "SUBMITTED",
            TransactionStatus::Confirmed => "CONFIRMED",
            TransactionStatus::Failed => "FAILED",
        }
    }
}

#[derive(Debug, PartialEq)]
pub struct SubscribeMessage {
    pub action: String,
    pub tx_id: String,
}

/// A message to a WebSocket client.
pub struct WsMessage {
    pub msg_type: String,
    pub data: Json,
}

} // verus!
