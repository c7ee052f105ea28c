use stellar_router::quote::{QuoteError, QuoteEvent, QuoteRequest, RouterQuote};

fn admin() -> String {
    "GADMIN".to_string()
}

fn setup() -> RouterQuote {
    let mut contract = RouterQuote::new();
    contract.initialize(admin(), 100).unwrap();
    contract
}

fn request(route: &str, amount_in: i128) -> QuoteRequest {
    QuoteRequest {
        route: route.to_string(),
        token_in: "CTOKENIN".to_string(),
        token_out: "CTOKENOUT".to_string(),
        amount_in,
    }
}

#[test]
fn lib_test_initialize() {
    let client = setup();
    assert_eq!(client.admin(), admin());
    assert_eq!(client.get_default_fee(), 100);
}

#[test]
fn test_initialize_twice_fails() {
    let mut client = setup();
    let result = client.initialize(admin(), 100);
    assert_eq!(result, Err(QuoteError::AlreadyInitialized));
}

#[test]
fn test_initialize_invalid_fee_fails() {
    let mut client = RouterQuote::new();
    let result = client.initialize(admin(), 10001);
    assert_eq!(result, Err(QuoteError::InvalidFeeBps));
}

#[test]
fn test_set_and_get_route_fee() {
    let mut client = setup();
    client.set_route_fee(&admin(), "uniswap".to_string(), 50).unwrap();
    assert_eq!(client.get_route_fee(&"uniswap".to_string()), 50);
}

#[test]
fn test_get_route_fee_returns_default_when_not_set() {
    let client = setup();
    assert_eq!(client.get_route_fee(&"uniswap".to_string()), 100);
}

#[test]
fn test_get_quote_with_default_fee() {
    let mut client = setup();
    let response = client.get_quote(request("uniswap", 10000)).unwrap();
    assert_eq!(response.amount_in, 10000);
    assert_eq!(response.fee_bps, 100);
    assert_eq!(response.fee_amount, 100);
    assert_eq!(response.amount_out, 9900);
}

#[test]
fn test_get_quote_with_custom_route_fee() {
    let mut client = setup();
    client.set_route_fee(&admin(), "sushiswap".to_string(), 30).unwrap();
    let response = client.get_quote(request("sushiswap", 10000)).unwrap();
    assert_eq!(response.fee_bps, 30);
    assert_eq!(response.fee_amount, 30);
    assert_eq!(response.amount_out, 9970);
}

#[test]
fn test_get_quote_invalid_amount_fails() {
    let mut client = setup();
    let result = client.get_quote(request("uniswap", 0));
    assert_eq!(result, Err(QuoteError::InvalidAmount));
}

#[test]
fn test_get_quote_negative_amount_fails() {
    let mut client = setup();
    let result = client.get_quote(request("uniswap", -5000));
    assert_eq!(result, Err(QuoteError::InvalidAmount));
}

#[test]
fn test_get_quote_max_amount_in_overflows() {
    let mut client = setup();
    let result = client.get_quote(request("uniswap", i128::MAX));
    assert_eq!(result, Err(QuoteError::ArithmeticOverflow));
}

#[test]
fn test_get_quote_rounds_fee_down_to_zero() {
    let mut client = setup();
    client.set_route_fee(&admin(), "uniswap".to_string(), 1).unwrap();
    let response = client.get_quote(request("uniswap", 1)).unwrap();
    assert_eq!(response.fee_amount, 0);
    assert_eq!(response.amount_out, 1);
}

#[test]
fn test_get_quote_full_fee_takes_entire_amount() {
    let mut client = setup();
    client.set_route_fee(&admin(), "uniswap".to_string(), 10000).unwrap();
    let response = client.get_quote(request("uniswap", 10000)).unwrap();
    assert_eq!(response.fee_amount, 10000);
    assert_eq!(response.amount_out, 0);
}

#[test]
fn test_get_quote_near_full_fee() {
    let mut client = setup();
    client.set_route_fee(&admin(), "uniswap".to_string(), 9999).unwrap();
    let response = client.get_quote(request("uniswap", 10000)).unwrap();
    assert_eq!(response.fee_amount, 9999);
    assert_eq!(response.amount_out, 10000 / 10000);
}

#[test]
fn test_get_quotes_fails_entirely_when_one_request_overflows() {
    let mut client = setup();
    let requests = vec![request("uniswap", 10000), request("sushiswap", i128::MAX)];
    let result = client.get_quotes(&requests);
    assert_eq!(result, Err(QuoteError::ArithmeticOverflow));
}

#[test]
fn test_get_quotes_multiple_routes() {
    let mut client = setup();
    client.set_route_fee(&admin(), "uniswap".to_string(), 100).unwrap();
    client.set_route_fee(&admin(), "sushiswap".to_string(), 30).unwrap();
    let requests = vec![request("uniswap", 10000), request("sushiswap", 10000)];
    let responses = client.get_quotes(&requests).unwrap();
    assert_eq!(responses.len(), 2);
    assert_eq!(responses[0].route, "uniswap");
    assert_eq!(responses[0].amount_out, 9900);
    assert_eq!(responses[1].route, "sushiswap");
    assert_eq!(responses[1].amount_out, 9970);
}

#[test]
fn test_get_quotes_empty_fails() {
    let mut client = setup();
    let result = client.get_quotes(&vec![]);
    assert_eq!(result, Err(QuoteError::NoQuotesProvided));
}

#[test]
fn test_get_best_quote() {
    let mut client = setup();
    client.set_route_fee(&admin(), "uniswap".to_string(), 100).unwrap();
    client.set_route_fee(&admin(), "sushiswap".to_string(), 30).unwrap();
    client.set_route_fee(&admin(), "pancakeswap".to_string(), 50).unwrap();
    let requests = vec![
        request("uniswap", 10000),
        request("sushiswap", 10000),
        request("pancakeswap", 10000),
    ];
    let best = client.get_best_quote(&requests).unwrap();
    assert_eq!(best.route, "sushiswap");
    assert_eq!(best.amount_out, 9970);
    assert_eq!(best.fee_bps, 30);
}

#[test]
fn test_get_best_quote_empty_fails() {
    let mut client = setup();
    let result = client.get_best_quote(&vec![]);
    assert_eq!(result, Err(QuoteError::NoQuotesProvided));
}

#[test]
fn test_set_default_fee() {
    let mut client = setup();
    client.set_default_fee(&admin(), 200).unwrap();
    assert_eq!(client.get_default_fee(), 200);
}

#[test]
fn test_set_default_fee_invalid_fails() {
    let mut client = setup();
    let result = client.set_default_fee(&admin(), 10001);
    assert_eq!(result, Err(QuoteError::InvalidFeeBps));
}

#[test]
fn lib_test_transfer_admin() {
    let mut client = setup();
    client.transfer_admin(admin(), "GNEW".to_string()).unwrap();
    assert_eq!(client.admin(), "GNEW");
}

#[test]
fn test_unauthorized_set_route_fee_fails() {
    let mut client = setup();
    let result = client.set_route_fee(&"GOTHER".to_string(), "uniswap".to_string(), 50);
    assert_eq!(result, Err(QuoteError::Unauthorized));
}

#[test]
fn lib_test_admin_getter() {
    let client = setup();
    assert_eq!(client.admin(), admin());
}

#[test]
fn test_get_all_configured_routes() {
    let mut client = setup();
    client.set_route_fee(&admin(), "uniswap".to_string(), 50).unwrap();
    client.set_route_fee(&admin(), "sushiswap".to_string(), 10).unwrap();
    client.set_route_fee(&admin(), "balancer".to_string(), 40).unwrap();
    client.set_route_fee(&admin(), "aerodrome".to_string(), 50).unwrap();

    let all = client.get_all_configured_routes();
    assert_eq!(all.len(), 4);
    assert_eq!(all[0].0, "uniswap");
    assert_eq!(all[0].1, 50);
    assert_eq!(all[1].0, "sushiswap");
    assert_eq!(all[1].1, 10);
    assert_eq!(all[2].0, "balancer");
    assert_eq!(all[2].1, 40);
    assert_eq!(all[3].0, "aerodrome");
    assert_eq!(all[3].1, 50);
}

#[test]
fn reconfigured_route_keeps_its_place() {
    let mut client = setup();
    client.set_route_fee(&admin(), "a".to_string(), 1).unwrap();
    client.set_route_fee(&admin(), "b".to_string(), 2).unwrap();
    client.set_route_fee(&admin(), "a".to_string(), 3).unwrap();
    let all = client.get_all_configured_routes();
    assert_eq!(all, vec![("a".to_string(), 3), ("b".to_string(), 2)]);
}

#[test]
fn fee_without_initialization_is_one_percent() {
    let contract = RouterQuote::new();
    assert_eq!(contract.get_default_fee(), 100);
    assert_eq!(contract.get_route_fee(&"any".to_string()), 100);
}

#[test]
fn quote_splits_the_amount() {
    let mut client = setup();
    client.set_route_fee(&admin(), "r".to_string(), 333).unwrap();
    let response = client.get_quote(request("r", 12_345)).unwrap();
    assert_eq!(response.fee_amount, 411);
    assert_eq!(response.amount_out, 11_934);
    assert_eq!(response.fee_amount + response.amount_out, response.amount_in);
}

#[test]
fn earliest_of_equal_quotes_is_best() {
    let mut client = setup();
    let best = client.get_best_quote(&vec![request("a", 500), request("b", 500)]).unwrap();
    assert_eq!(best.route, "a");
}

#[test]
fn first_failing_request_decides() {
    let mut client = setup();
    let requests = vec![request("a", 100), request("b", 0), request("c", i128::MAX)];
    assert_eq!(client.get_quotes(&requests), Err(QuoteError::InvalidAmount));
    assert_eq!(client.get_best_quote(&requests), Err(QuoteError::InvalidAmount));
}

#[test]
fn quote_operations_publish_events() {
    let mut client = setup();
    client.set_route_fee(&admin(), "r".to_string(), 50).unwrap();
    client.get_best_quote(&vec![request("r", 10_000)]).unwrap();
    client.set_default_fee(&admin(), 7).unwrap();
    client.transfer_admin(admin(), "GNEW".to_string()).unwrap();
    let topics: Vec<&str> = client.events.iter().map(|e| e.topic()).collect();
    assert_eq!(
        topics,
        vec![
            "initialized",
            "route_fee_set",
            "quote_calculated",
            "best_quote_selected",
            "default_fee_updated",
            "admin_transferred",
        ]
    );
    assert_eq!(
        client.events[2],
        QuoteEvent::QuoteCalculated {
            route: "r".to_string(),
            amount_out: 9950,
            fee_amount: 50,
        }
    );
    assert_eq!(
        client.events[5],
        QuoteEvent::AdminTransferred { current: admin(), new_admin: "GNEW".to_string() }
    );
}

#[test]
fn old_quote_admin_is_locked_out() {
    let mut client = setup();
    client.transfer_admin(admin(), "GNEW".to_string()).unwrap();
    assert_eq!(client.set_default_fee(&admin(), 5), Err(QuoteError::Unauthorized));
    assert_eq!(
        client.transfer_admin(admin(), "GX".to_string()),
        Err(QuoteError::Unauthorized)
    );
    assert_eq!(client.set_default_fee(&"GNEW".to_string(), 5), Ok(()));
}

#[test]
fn route_fee_above_hundred_percent_is_refused() {
    let mut client = setup();
    assert_eq!(
        client.set_route_fee(&admin(), "r".to_string(), 10_001),
        Err(QuoteError::InvalidFeeBps)
    );
    assert_eq!(client.get_all_configured_routes(), vec![]);
}

#[test]
fn quote_error_codes() {
    let codes: Vec<u32> = vec![
        QuoteError::AlreadyInitialized.code(),
        QuoteError::NotInitialized.code(),
        QuoteError::Unauthorized.code(),
        QuoteError::InvalidAmount.code(),
        QuoteError::InvalidFeeBps.code(),
        QuoteError::NoQuotesProvided.code(),
        QuoteError::RouteNotFound.code(),
        QuoteError::ArithmeticOverflow.code(),
    ];
    assert_eq!(codes, vec![1, 2, 3, 4, 5, 6, 7, 8]);
}

#[test]
fn route_configured_again_is_listed_once() {
    let mut client = setup();
    client.set_route_fee(&admin(), "b".to_string(), 10).unwrap();
    client.set_route_fee(&admin(), "a".to_string(), 20).unwrap();
    client.set_route_fee(&admin(), "b".to_string(), 30).unwrap();
    assert_eq!(
        client.get_all_configured_routes(),
        vec![("b".to_string(), 30), ("a".to_string(), 20)]
    );
}
