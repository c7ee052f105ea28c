//! What the endpoints of the API answer.

use super::rpc::{FeeBreakdown, RpcError};
use super::types::{
    ErrorCode, ErrorDetail, ErrorResponse, FeeEstimate, RouteEntryResponse, SimulateRequest,
    SimulateResponse, SimulationDetail,
};
use vstd::prelude::*;
use vstd::utf8::encode_utf8;

verus! {

pub const STATUS_OK: u16 = 200;

pub const STATUS_BAD_REQUEST: u16 = 400;

pub const STATUS_NOT_FOUND: u16 = 404;

pub const STATUS_INTERNAL_SERVER_ERROR: u16 = 500;

pub const STATUS_SERVICE_UNAVAILABLE: u16 = 503;

/// What GET /health answers.
#[derive(Clone, Copy, Debug, PartialEq)]
pub struct HealthReport {
    pub status_code: u16,
    pub status: &'static str,
    /// What is said of the RPC node, if anything
    pub rpc: Option<&'static str>,
}

/// GET /health: the server is only as well as the RPC node behind it.
pub fn health(rpc_reachable: bool) -> (r: HealthReport)
    ensures
        rpc_reachable ==> r.status_code == STATUS_OK && r.status@ == "ok"@ && r.rpc is None,
        !rpc_reachable ==> r.status_code == STATUS_SERVICE_UNAVAILABLE && r.status@
            == "degraded"@ && r.rpc is Some && r.rpc->0@ == "down"@,
{
    if rpc_reachable {
        HealthReport { status_code: STATUS_OK, status: "ok", rpc: None }
    } else {
        HealthReport {
            status_code: STATUS_SERVICE_UNAVAILABLE,
            status: "degraded",
            rpc: Some("down"),
        }
    }
}

/// Whether a response reports this error.
pub open spec fn reports(
    response: ErrorResponse,
    code: ErrorCode,
    message: Seq<char>,
    field: Option<Seq<char>>,
) -> bool {
    &&& response.error.code == code
    &&& response.error.message@ == message
    &&& match (response.error.field, field) {
        (Some(a), Some(b)) => a@ == b,
        (None, None) => true,
        _ => false,
    }
}

fn error_response(code: ErrorCode, message: String, field: Option<String>) -> (r: ErrorResponse)
    ensures
        r.error.code == code,
        r.error.message == message,
        r.error.field == field,
{
    ErrorResponse { error: ErrorDetail { code, message, field } }
}

/// What is wrong with a simulation request: the message, and the field it is about.
pub open spec fn request_fault(req: SimulateRequest) -> Option<(Seq<char>, Option<Seq<char>>)> {
    if req.target@.len() == 0 || req.function@.len() == 0 {
        Some(("target and function are required"@, None))
    } else if encode_utf8(req.target@).len() != 56 || req.target@[0] != 'C' {
        Some(
            (
                "target must be a 56-character Stellar contract ID starting with C"@,
                Some("target"@),
            ),
        )
    } else {
        None
    }
}

/// Checks a simulation request before anything is simulated.
pub fn check_simulate_request(req: &SimulateRequest) -> (r: Result<(), (u16, ErrorResponse)>)
    ensures
        match (request_fault(*req), r) {
            (None, Ok(())) => true,
            (Some((message, field)), Err((status, response))) => status == STATUS_BAD_REQUEST
                && reports(response, ErrorCode::ValidationError, message, field),
            _ => false,
        },
{
    if req.target.as_str().is_empty() || req.function.as_str().is_empty() {
        return Err(
            (
                STATUS_BAD_REQUEST,
                error_response(
                    ErrorCode::ValidationError,
                    "target and function are required".to_owned(),
                    None,
                ),
            ),
        );
    }
    if req.target.as_str().as_bytes().len() != 56 || req.target.as_str().get_char(0) != 'C' {
        return Err(
            (
                STATUS_BAD_REQUEST,
                error_response(
                    ErrorCode::ValidationError,
                    "target must be a 56-character Stellar contract ID starting with C".to_owned(),
                    Some("target".to_owned()),
                ),
            ),
        );
    }
    Ok(())
}

/// Whether a response reports these fees for this request.
pub open spec fn is_simulation(
    req: SimulateRequest,
    breakdown: FeeBreakdown,
    response: SimulateResponse,
) -> bool {
    &&& response.success == breakdown.would_succeed
    &&& response.estimated_fees == FeeEstimate {
        base_fee: breakdown.base_fee,
        resource_fee: breakdown.resource_fee,
        total_fee: breakdown.total_fee,
        surge_multiplier: breakdown.surge_multiplier,
        high_load: breakdown.high_load,
        fee_estimated: breakdown.fee_estimated,
    }
    &&& response.simulation == SimulationDetail {
        target: req.target,
        function: req.function,
        would_succeed: breakdown.would_succeed,
    }
    &&& response.message@ == if breakdown.would_succeed {
        "Simulation successful"@
    } else {
        "Simulation indicates transaction would fail"@
    }
}

/// POST /simulate: refuses a faulty request, else reports the fees.
pub fn simulate(req: SimulateRequest, breakdown: FeeBreakdown) -> (r: Result<
    SimulateResponse,
    (u16, ErrorResponse),
>)
    ensures
        match (request_fault(req), r) {
            (None, Ok(response)) => is_simulation(req, breakdown, response),
            (Some((message, field)), Err((status, response))) => status == STATUS_BAD_REQUEST
                && reports(response, ErrorCode::ValidationError, message, field),
            _ => false,
        },
{
    match check_simulate_request(&req) {
        Err(refusal) => {
            return Err(refusal);
        },
        Ok(()) => {},
    }
    let message: String = if breakdown.would_succeed {
        "Simulation successful".to_owned()
    } else {
        "Simulation indicates transaction would fail".to_owned()
    };
    Ok(
        SimulateResponse {
            success: breakdown.would_succeed,
            estimated_fees: FeeEstimate {
                base_fee: breakdown.base_fee,
                resource_fee: breakdown.resource_fee,
                total_fee: breakdown.total_fee,
                surge_multiplier: breakdown.surge_multiplier,
                high_load: breakdown.high_load,
                fee_estimated: breakdown.fee_estimated,
            },
            simulation: SimulationDetail {
                target: req.target,
                function: req.function,
                would_succeed: breakdown.would_succeed,
            },
            message,
        },
    )
}

/// What kind of error a failed RPC request is.
pub open spec fn code_of(error: RpcError) -> ErrorCode {
    match error {
        RpcError::NotConfigured => ErrorCode::InternalError,
        RpcError::Contract(_) => ErrorCode::ContractError,
        _ => ErrorCode::RpcError,
    }
}

/// GET /routes/:name: the route, 404 where there is none of that name, and 500 where
/// the RPC node gave no answer.
pub fn get_route(name: &str, outcome: Result<Option<RouteEntryResponse>, RpcError>) -> (r: Result<
    RouteEntryResponse,
    (u16, ErrorResponse),
>)
    ensures
        match (outcome, r) {
            (Ok(Some(expected)), Ok(entry)) => entry == expected,
            (Ok(None), Err((status, response))) => status == STATUS_NOT_FOUND && reports(
                response,
                ErrorCode::NotFound,
                "route '"@ + name@ + "' not found"@,
                None,
            ),
            (Err(error), Err((status, response))) => status == STATUS_INTERNAL_SERVER_ERROR
                && reports(response, code_of(error), error.text(), None),
            _ => false,
        },
{
    match outcome {
        Ok(Some(entry)) => Ok(entry),
        Ok(None) => Err(
            (
                STATUS_NOT_FOUND,
                error_response(
                    ErrorCode::NotFound,
                    "route '".to_owned().concat(name).concat("' not found"),
                    None,
                ),
            ),
        ),
        Err(error) => {
            let code: ErrorCode = match &error {
                RpcError::NotConfigured => ErrorCode::InternalError,
                RpcError::Contract(_) => ErrorCode::ContractError,
                _ => ErrorCode::RpcError,
            };
            Err((STATUS_INTERNAL_SERVER_ERROR, error_response(code, error.message(), None)))
        },
    }
}

/// Checks that there is a contract to ask for routes.
pub fn check_core_configured(contract_id: &str) -> (r: Result<(), (u16, String)>)
    ensures
        match r {
            Ok(()) => contract_id@.len() > 0,
            Err((status, message)) => contract_id@.len() == 0 && status
                == STATUS_SERVICE_UNAVAILABLE && message@
                == "ROUTER_CORE_CONTRACT_ID not configured"@,
        },
{
    if contract_id.is_empty() {
        Err((STATUS_SERVICE_UNAVAILABLE, "ROUTER_CORE_CONTRACT_ID not configured".to_owned()))
    } else {
        Ok(())
    }
}

/// GET /routes: the names of all routes, 503 where there is no contract to ask, and
/// 500 where the RPC node gave no answer.
pub fn list_routes(contract_id: &str, outcome: Result<Vec<String>, RpcError>) -> (r: Result<
    Vec<String>,
    (u16, String),
>)
    ensures
        contract_id@.len() == 0 ==> (r matches Err((status, message)) && status
            == STATUS_SERVICE_UNAVAILABLE && message@ == "ROUTER_CORE_CONTRACT_ID not configured"@),
        contract_id@.len() > 0 ==> match (outcome, r) {
            (Ok(expected), Ok(names)) => names == expected,
            (Err(error), Err((status, message))) => status == STATUS_INTERNAL_SERVER_ERROR
                && message@ == error.text(),
            _ => false,
        },
{
    match check_core_configured(contract_id) {
        Err(refusal) => {
            return Err(refusal);
        },
        Ok(()) => {},
    }
    match outcome {
        Ok(names) => Ok(names),
        Err(error) => Err((STATUS_INTERNAL_SERVER_ERROR, error.message())),
    }
}

} // verus!
