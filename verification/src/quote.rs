//! Quote calculation and route comparison.
//!
//! - Configurable fee in basis points per route, with a default
//! - Comparison of several quotes
//! - Selection of the quote with the highest output amount

use crate::common::{admin_check, require_admin, Address};
use crate::store::KeyedStore;
use vstd::prelude::*;

verus! {

/// The highest fee, 100%, in basis points (1 bps = 0.01%).
pub const MAX_FEE_BPS: u32 = 10000;

/// The default fee of a contract that was never given one: 1%.
pub const FALLBACK_FEE_BPS: u32 = 100;

#[derive(Debug, PartialEq)]
pub struct QuoteRequest {
    /// Route name to get quote for
    pub route: String,
    /// Input token address
    pub token_in: Address,
    /// Output token address
    pub token_out: Address,
    /// Amount of input token
    pub amount_in: i128,
}

#[derive(Debug, PartialEq)]
pub struct QuoteResponse {
    /// Route name
    pub route: String,
    /// Input token address
    pub token_in: Address,
    /// Output token address
    pub token_out: Address,
    /// Amount of input token
    pub amount_in: i128,
    /// Expected output amount after fees
    pub amount_out: i128,
    /// Fee amount deducted (in input token units)
    pub fee_amount: i128,
    /// Fee in basis points used for this quote
    pub fee_bps: u32,
}

impl Clone for QuoteRequest {
    fn clone(&self) -> (r: Self)
        ensures
            r == *self,
    {
        QuoteRequest {
            route: self.route.clone(),
            token_in: self.token_in.clone(),
            token_out: self.token_out.clone(),
            amount_in: self.amount_in,
        }
    }
}

impl Clone for QuoteResponse {
    fn clone(&self) -> (r: Self)
        ensures
            r == *self,
    {
        QuoteResponse {
            route: self.route.clone(),
            token_in: self.token_in.clone(),
            token_out: self.token_out.clone(),
            amount_in: self.amount_in,
            amount_out: self.amount_out,
            fee_amount: self.fee_amount,
            fee_bps: self.fee_bps,
        }
    }
}

#[derive(Clone, Copy, Debug, PartialEq, Eq, Structural)]
pub enum QuoteError {
    AlreadyInitialized,
    NotInitialized,
    Unauthorized,
    InvalidAmount,
    InvalidFeeBps,
    NoQuotesProvided,
    RouteNotFound,
    ArithmeticOverflow,
}

impl QuoteError {
    /// The number under which the error is reported on the ledger.
    pub fn code(self) -> (r: u32)
        ensures
            r == (match self {
                QuoteError::AlreadyInitialized => 1u32,
                QuoteError::NotInitialized => 2,
                QuoteError::Unauthorized => 3,
                QuoteError::InvalidAmount => 4,
                QuoteError::InvalidFeeBps => 5,
                QuoteError::NoQuotesProvided => 6,
                QuoteError::RouteNotFound => 7,
                QuoteError::ArithmeticOverflow => 8,
            }),
    {
        match self {
            QuoteError::AlreadyInitialized => 1,
            QuoteError::NotInitialized => 2,
            QuoteError::Unauthorized => 3,
            QuoteError::InvalidAmount => 4,
            QuoteError::InvalidFeeBps => 5,
            QuoteError::NoQuotesProvided => 6,
            QuoteError::RouteNotFound => 7,
            QuoteError::ArithmeticOverflow => 8,
        }
    }
}

/// What the contract publishes.
#[derive(Debug, PartialEq)]
pub enum QuoteEvent {
    Initialized { admin: Address, default_fee_bps: u32 },
    RouteFeeSet { route: String, fee_bps: u32 },
    QuoteCalculated { route: String, amount_out: i128, fee_amount: i128 },
    BestQuoteSelected { route: String, amount_out: i128 },
    DefaultFeeUpdated { fee_bps: u32 },
    AdminTransferred { current: Address, new_admin: Address },
}

impl QuoteEvent {
    /// The topic under which the event is published.
    pub fn topic(&self) -> (r: &'static str)
        ensures
            r@ == (match self {
                QuoteEvent::Initialized { .. } => "initialized"@,
                QuoteEvent::RouteFeeSet { .. } => "route_fee_set"@,
                QuoteEvent::QuoteCalculated { .. } => "quote_calculated"@,
                QuoteEvent::BestQuoteSelected { .. } => "best_quote_selected"@,
                QuoteEvent::DefaultFeeUpdated { .. } => "default_fee_updated"@,
                QuoteEvent::AdminTransferred { .. } => "admin_transferred"@,
            }),
    {
        match self {
            QuoteEvent::Initialized { .. } => "initialized",
            QuoteEvent::RouteFeeSet { .. } => "route_fee_set",
            QuoteEvent::QuoteCalculated { .. } => "quote_calculated",
            QuoteEvent::BestQuoteSelected { .. } => "best_quote_selected",
            QuoteEvent::DefaultFeeUpdated { .. } => "default_fee_updated",
            QuoteEvent::AdminTransferred { .. } => "admin_transferred",
        }
    }
}

/// The event that a quote publishes.
pub open spec fn quote_event(response: QuoteResponse) -> QuoteEvent {
    QuoteEvent::QuoteCalculated {
        route: response.route,
        amount_out: response.amount_out,
        fee_amount: response.fee_amount,
    }
}

/// The state of the quote contract. `route_fees` keeps its routes in the order
/// in which they were first configured; `events` is what it has published.
pub struct RouterQuote {
    pub admin: Option<Address>,
    pub default_fee: Option<u32>,
    pub route_fees: KeyedStore<String, u32>,
    pub events: Vec<QuoteEvent>,
}

impl RouterQuote {
    /// Every configured fee is at most 100%, and no route is configured twice.
    pub open spec fn wf(self) -> bool {
        &&& self.route_fees.wf()
        &&& self.default_fee matches Some(fee) ==> fee <= MAX_FEE_BPS
        &&& forall|route: Seq<char>| #[trigger]
            self.route_fees@.contains_key(route) ==> self.route_fees@[route] <= MAX_FEE_BPS
    }

    pub open spec fn default_fee_bps(self) -> u32 {
        match self.default_fee {
            Some(fee) => fee,
            None => FALLBACK_FEE_BPS,
        }
    }

    /// The fee of a route: its own where one is set, else the default.
    pub open spec fn fee_bps(self, route: Seq<char>) -> u32 {
        if self.route_fees@.contains_key(route) {
            self.route_fees@[route]
        } else {
            self.default_fee_bps()
        }
    }

    /// What a request is answered.
    pub open spec fn quote(self, request: QuoteRequest) -> Result<QuoteResponse, QuoteError> {
        let fee_bps = self.fee_bps(request.route@);
        if request.amount_in <= 0 {
            Err(QuoteError::InvalidAmount)
        } else if request.amount_in * fee_bps > i128::MAX {
            Err(QuoteError::ArithmeticOverflow)
        } else {
            let fee = request.amount_in * fee_bps / MAX_FEE_BPS as int;
            Ok(
                QuoteResponse {
                    route: request.route,
                    token_in: request.token_in,
                    token_out: request.token_out,
                    amount_in: request.amount_in,
                    amount_out: (request.amount_in - fee) as i128,
                    fee_amount: fee as i128,
                    fee_bps,
                },
            )
        }
    }

    /// The error of the first of the first `n` requests that has one.
    pub open spec fn first_error(self, requests: Seq<QuoteRequest>, n: nat) -> Option<QuoteError>
        decreases n,
    {
        if n == 0 {
            None
        } else if self.first_error(requests, (n - 1) as nat) is Some {
            self.first_error(requests, (n - 1) as nat)
        } else {
            match self.quote(requests[n - 1]) {
                Ok(_) => None,
                Err(e) => Some(e),
            }
        }
    }

    /// The quotes of the first `n` requests, up to the first that fails.
    pub open spec fn quoted(self, requests: Seq<QuoteRequest>, n: nat) -> Seq<QuoteResponse>
        decreases n,
    {
        if n == 0 {
            seq![]
        } else if self.first_error(requests, n) is Some {
            self.quoted(requests, (n - 1) as nat)
        } else {
            self.quoted(requests, (n - 1) as nat).push(self.quote(requests[n - 1])->Ok_0)
        }
    }

    /// What a list of requests is answered.
    pub open spec fn quotes(self, requests: Seq<QuoteRequest>) -> Result<
        Seq<QuoteResponse>,
        QuoteError,
    > {
        if requests.len() == 0 {
            Err(QuoteError::NoQuotesProvided)
        } else {
            match self.first_error(requests, requests.len()) {
                Some(e) => Err(e),
                None => Ok(self.quoted(requests, requests.len())),
            }
        }
    }

    /// Nothing but the published events differs.
    pub open spec fn same_settings(self, other: Self) -> bool {
        &&& self.admin == other.admin
        &&& self.default_fee == other.default_fee
        &&& self.route_fees == other.route_fees
    }

    pub fn new() -> (r: Self)
        ensures
            r.wf(),
            r.admin is None,
            r.default_fee is None,
            r.route_fees@ == Map::<Seq<char>, u32>::empty(),
            r.route_fees.entries@.len() == 0,
            r.events@.len() == 0,
    {
        RouterQuote {
            admin: None,
            default_fee: None,
            route_fees: KeyedStore::new(),
            events: Vec::new(),
        }
    }

    /// Sets the admin and the default fee in basis points.
    ///
    /// # Errors
    /// * [`QuoteError::AlreadyInitialized`] if there is an admin already.
    /// * [`QuoteError::InvalidFeeBps`] if the fee is above 100%.
    pub fn initialize(&mut self, admin: Address, default_fee_bps: u32) -> (r: Result<
        (),
        QuoteError,
    >)
        ensures
            r == (if old(self).admin is Some {
                Err(QuoteError::AlreadyInitialized)
            } else if default_fee_bps > MAX_FEE_BPS {
                Err(QuoteError::InvalidFeeBps)
            } else {
                Ok(())
            }),
            r is Err ==> *final(self) == *old(self),
            r is Ok ==> final(self).admin == Some(admin) && final(self).default_fee == Some(
                default_fee_bps,
            ) && final(self).route_fees == old(self).route_fees && final(self).events@ == old(
                self,
            ).events@.push(QuoteEvent::Initialized { admin, default_fee_bps }),
            old(self).wf() ==> final(self).wf(),
    {
        if self.admin.is_some() {
            return Err(QuoteError::AlreadyInitialized);
        }
        if default_fee_bps > MAX_FEE_BPS {
            return Err(QuoteError::InvalidFeeBps);
        }
        self.admin = Some(admin.clone());
        self.default_fee = Some(default_fee_bps);
        self.events.push(QuoteEvent::Initialized { admin, default_fee_bps });
        Ok(())
    }

    /// Sets the fee of one route in basis points.
    ///
    /// # Errors
    /// * [`QuoteError::Unauthorized`] if the caller is not the admin.
    /// * [`QuoteError::InvalidFeeBps`] if the fee is above 100%.
    pub fn set_route_fee(&mut self, caller: &Address, route: String, fee_bps: u32) -> (r: Result<
        (),
        QuoteError,
    >)
        requires
            old(self).admin is Some,
        ensures
            r == (if old(self).admin->0@ != caller@ {
                Err(QuoteError::Unauthorized)
            } else if fee_bps > MAX_FEE_BPS {
                Err(QuoteError::InvalidFeeBps)
            } else {
                Ok(())
            }),
            r is Err ==> *final(self) == *old(self),
            r is Ok ==> {
                &&& final(self).admin == old(self).admin
                &&& final(self).default_fee == old(self).default_fee
                &&& final(self).route_fees@ == old(self).route_fees@.insert(route@, fee_bps)
                &&& final(self).route_fees.key_seq() == if old(self).route_fees@.contains_key(
                    route@,
                ) {
                    old(self).route_fees.key_seq()
                } else {
                    old(self).route_fees.key_seq().push(route@)
                }
                &&& final(self).events@ == old(self).events@.push(
                    QuoteEvent::RouteFeeSet { route, fee_bps },
                )
            },
            // the fee reads back, and no other route's changes
            r is Ok ==> final(self).fee_bps(route@) == fee_bps && forall|other: Seq<char>|
                other != route@ ==> #[trigger] final(self).fee_bps(other) == old(self).fee_bps(
                    other,
                ),
            old(self).wf() ==> final(self).wf(),
    {
        match self.require_admin(caller) {
            Err(e) => {
                return Err(e);
            },
            Ok(()) => {},
        }
        if fee_bps > MAX_FEE_BPS {
            return Err(QuoteError::InvalidFeeBps);
        }
        self.route_fees.insert(route.clone(), fee_bps);
        self.events.push(QuoteEvent::RouteFeeSet { route, fee_bps });
        Ok(())
    }

    /// The fee of a route in basis points, the default where none is set.
    pub fn get_route_fee(&self, route: &String) -> (r: u32)
        ensures
            r == self.fee_bps(route@),
    {
        match self.route_fees.get(route) {
            Some(fee) => *fee,
            None => self.get_default_fee(),
        }
    }

    /// Every configured route once with its fee, in the order of configuration.
    pub fn get_all_configured_routes(&self) -> (r: Vec<(String, u32)>)
        ensures
            self.wf() ==> forall|i: int, j: int|
                0 <= i < j < r@.len() ==> (#[trigger] r@[i]).0@ != (#[trigger] r@[j]).0@,
            r@.len() == self.route_fees.key_seq().len(),
            forall|i: int|
                0 <= i < r@.len() ==> (#[trigger] r@[i]).0@ == self.route_fees.key_seq()[i]
                    && r@[i].1 == self.fee_bps(r@[i].0@),
    {
        let mut all: Vec<(String, u32)> = Vec::new();
        let mut i: usize = 0;
        while i < self.route_fees.entries.len()
            invariant
                i <= self.route_fees.entries@.len(),
                all@.len() == i,
                forall|j: int|
                    0 <= j < i ==> (#[trigger] all@[j]).0@ == self.route_fees.key_seq()[j]
                        && all@[j].1 == self.fee_bps(all@[j].0@),
            decreases self.route_fees.entries@.len() - i,
        {
            let route: String = self.route_fees.entries[i].0.clone();
            let fee: u32 = self.get_route_fee(&route);
            all.push((route, fee));
            i = i + 1;
        }
        proof {
            let ids = self.route_fees.key_seq();
            assert forall|j: int, k: int| 0 <= j < k < all@.len() && self.wf() implies (
            #[trigger] all@[j]).0@ != (#[trigger] all@[k]).0@ by {
                assert(ids[j] != ids[k]);
            }
        }
        all
    }

    /// Computes the output amount of one request after its route's fee.
    ///
    /// # Errors
    /// * [`QuoteError::InvalidAmount`] if the amount is not positive.
    /// * [`QuoteError::ArithmeticOverflow`] if amount times fee is out of range.
    pub fn get_quote(&mut self, request: QuoteRequest) -> (r: Result<QuoteResponse, QuoteError>)
        ensures
            r == old(self).quote(request),
            final(self).same_settings(*old(self)),
            final(self).events@ == match r {
                Ok(response) => old(self).events@.push(quote_event(response)),
                Err(_) => old(self).events@,
            },
    {
        if request.amount_in <= 0 {
            return Err(QuoteError::InvalidAmount);
        }
        let fee_bps: u32 = self.get_route_fee(&request.route);
        proof {
            assert(request.amount_in * fee_bps >= 0) by (nonlinear_arith)
                requires
                    request.amount_in > 0,
            ;
        }
        let fee_amount: i128 = match request.amount_in.checked_mul(fee_bps as i128) {
            Some(scaled) => scaled / 10000,
            None => {
                return Err(QuoteError::ArithmeticOverflow);
            },
        };
        let amount_out: i128 = match request.amount_in.checked_sub(fee_amount) {
            Some(amount_out) => amount_out,
            None => {
                return Err(QuoteError::ArithmeticOverflow);
            },
        };
        let response = QuoteResponse {
            route: request.route.clone(),
            token_in: request.token_in,
            token_out: request.token_out,
            amount_in: request.amount_in,
            amount_out,
            fee_amount,
            fee_bps,
        };
        self.events.push(
            QuoteEvent::QuoteCalculated { route: request.route, amount_out, fee_amount },
        );
        Ok(response)
    }

    /// Computes the quotes of all requests, or fails as the first that fails.
    ///
    /// # Errors
    /// * [`QuoteError::NoQuotesProvided`] if there are no requests.
    /// * The error of the first request that has one.
    pub fn get_quotes(&mut self, requests: &Vec<QuoteRequest>) -> (r: Result<
        Vec<QuoteResponse>,
        QuoteError,
    >)
        ensures
            match r {
                Ok(responses) => old(self).quotes(requests@) == Ok::<_, QuoteError>(responses@),
                Err(e) => old(self).quotes(requests@) == Err::<Seq<QuoteResponse>, _>(e),
            },
            final(self).same_settings(*old(self)),
            final(self).events@ == old(self).events@ + old(self).quoted(
                requests@,
                requests@.len(),
            ).map_values(|response: QuoteResponse| quote_event(response)),
    {
        let ghost publish = |response: QuoteResponse| quote_event(response);
        if requests.len() == 0 {
            proof {
                assert(old(self).events@ + Seq::<QuoteEvent>::empty() =~= old(self).events@);
                assert(Seq::<QuoteResponse>::empty().map_values(publish) =~= Seq::empty());
            }
            return Err(QuoteError::NoQuotesProvided);
        }
        let mut responses: Vec<QuoteResponse> = Vec::new();
        let mut i: usize = 0;
        proof {
            assert(old(self).events@ + responses@.map_values(publish) =~= old(self).events@);
        }
        while i < requests.len()
            invariant
                i <= requests@.len(),
                publish == (|response: QuoteResponse| quote_event(response)),
                self.same_settings(*old(self)),
                old(self).first_error(requests@, i as nat) is None,
                responses@ == old(self).quoted(requests@, i as nat),
                self.events@ == old(self).events@ + responses@.map_values(publish),
            decreases requests@.len() - i,
        {
            let request: QuoteRequest = requests[i].clone();
            proof {
                assert(self.quote(request) == old(self).quote(requests@[i as int]));
            }
            match self.get_quote(request) {
                Ok(response) => {
                    proof {
                        assert(responses@.push(response).map_values(publish)
                            =~= responses@.map_values(publish).push(publish(response)));
                        assert(self.events@ =~= old(self).events@ + responses@.push(
                            response,
                        ).map_values(publish));
                    }
                    responses.push(response);
                },
                Err(e) => {
                    proof {
                        lemma_stops_at_error(*old(self), requests@, (i + 1) as nat, requests@.len());
                    }
                    return Err(e);
                },
            }
            i = i + 1;
        }
        Ok(responses)
    }

    /// Computes the quotes of all requests and selects the one with the highest
    /// output amount, the earliest of them where several are highest.
    ///
    /// # Errors
    /// As [`RouterQuote::get_quotes`].
    pub fn get_best_quote(&mut self, requests: &Vec<QuoteRequest>) -> (r: Result<
        QuoteResponse,
        QuoteError,
    >)
        ensures
            match (r, old(self).quotes(requests@)) {
                (Ok(best), Ok(all)) => is_first_best(all, best),
                (Err(e), Err(expected)) => e == expected,
                _ => false,
            },
            final(self).same_settings(*old(self)),
            final(self).events@ == {
                let published = old(self).events@ + old(self).quoted(
                    requests@,
                    requests@.len(),
                ).map_values(|response: QuoteResponse| quote_event(response));
                match r {
                    Ok(best) => published.push(
                        QuoteEvent::BestQuoteSelected {
                            route: best.route,
                            amount_out: best.amount_out,
                        },
                    ),
                    Err(_) => published,
                }
            },
    {
        let quotes: Vec<QuoteResponse> = match self.get_quotes(requests) {
            Ok(quotes) => quotes,
            Err(e) => {
                return Err(e);
            },
        };
        proof {
            lemma_quoted_len(*old(self), requests@, requests@.len());
        }
        let mut best: usize = 0;
        let mut i: usize = 1;
        while i < quotes.len()
            invariant
                best < i <= quotes@.len(),
                forall|j: int|
                    0 <= j < i ==> (#[trigger] quotes@[j]).amount_out
                        <= quotes@[best as int].amount_out,
                forall|j: int|
                    0 <= j < best ==> (#[trigger] quotes@[j]).amount_out
                        < quotes@[best as int].amount_out,
            decreases quotes@.len() - i,
        {
            if quotes[i].amount_out > quotes[best].amount_out {
                best = i;
            }
            i = i + 1;
        }
        let best_quote: QuoteResponse = quotes[best].clone();
        self.events.push(
            QuoteEvent::BestQuoteSelected {
                route: best_quote.route.clone(),
                amount_out: best_quote.amount_out,
            },
        );
        Ok(best_quote)
    }

    /// Changes the default fee in basis points.
    ///
    /// # Errors
    /// * [`QuoteError::Unauthorized`] if the caller is not the admin.
    /// * [`QuoteError::InvalidFeeBps`] if the fee is above 100%.
    pub fn set_default_fee(&mut self, caller: &Address, fee_bps: u32) -> (r: Result<
        (),
        QuoteError,
    >)
        requires
            old(self).admin is Some,
        ensures
            r == (if old(self).admin->0@ != caller@ {
                Err(QuoteError::Unauthorized)
            } else if fee_bps > MAX_FEE_BPS {
                Err(QuoteError::InvalidFeeBps)
            } else {
                Ok(())
            }),
            r is Err ==> *final(self) == *old(self),
            r is Ok ==> final(self).admin == old(self).admin && final(self).default_fee == Some(
                fee_bps,
            ) && final(self).route_fees == old(self).route_fees && final(self).events@ == old(
                self,
            ).events@.push(QuoteEvent::DefaultFeeUpdated { fee_bps }),
            // it is the fee of exactly those routes that have none of their own
            r is Ok ==> forall|route: Seq<char>| #[trigger]
                final(self).fee_bps(route) == if old(self).route_fees@.contains_key(route) {
                    old(self).fee_bps(route)
                } else {
                    fee_bps
                },
            old(self).wf() ==> final(self).wf(),
    {
        match self.require_admin(caller) {
            Err(e) => {
                return Err(e);
            },
            Ok(()) => {},
        }
        if fee_bps > MAX_FEE_BPS {
            return Err(QuoteError::InvalidFeeBps);
        }
        self.default_fee = Some(fee_bps);
        self.events.push(QuoteEvent::DefaultFeeUpdated { fee_bps });
        Ok(())
    }

    /// The default fee in basis points.
    pub fn get_default_fee(&self) -> (r: u32)
        ensures
            r == self.default_fee_bps(),
    {
        match self.default_fee {
            Some(fee) => fee,
            None => FALLBACK_FEE_BPS,
        }
    }

    /// The admin address.
    pub fn admin(&self) -> (r: Address)
        requires
            self.admin is Some,
        ensures
            Some(r) == self.admin,
    {
        match &self.admin {
            Some(admin) => admin.clone(),
            None => String::new(),
        }
    }

    /// Hands the admin role to `new_admin`.
    ///
    /// # Errors
    /// * [`QuoteError::Unauthorized`] if `current` is not the admin.
    pub fn transfer_admin(&mut self, current: Address, new_admin: Address) -> (r: Result<
        (),
        QuoteError,
    >)
        requires
            old(self).admin is Some,
        ensures
            r == (if old(self).admin->0@ != current@ {
                Err(QuoteError::Unauthorized)
            } else {
                Ok(())
            }),
            r is Err ==> *final(self) == *old(self),
            r is Ok ==> final(self).admin == Some(new_admin) && final(self).default_fee == old(
                self,
            ).default_fee && final(self).route_fees == old(self).route_fees && final(self).events@
                == old(self).events@.push(QuoteEvent::AdminTransferred { current, new_admin }),
            old(self).wf() ==> final(self).wf(),
    {
        match self.require_admin(&current) {
            Err(e) => {
                return Err(e);
            },
            Ok(()) => {},
        }
        self.admin = Some(new_admin.clone());
        self.events.push(QuoteEvent::AdminTransferred { current, new_admin });
        Ok(())
    }

    fn require_admin(&self, caller: &Address) -> (r: Result<(), QuoteError>)
        requires
            self.admin is Some,
        ensures
            r == admin_check(
                self.admin,
                *caller,
                QuoteError::NotInitialized,
                QuoteError::Unauthorized,
            ),
    {
        require_admin(
            &self.admin,
            caller,
            QuoteError::NotInitialized,
            QuoteError::Unauthorized,
        )
    }
}

/// Whether `best` is the earliest quote that no other exceeds.
pub open spec fn is_first_best(quotes: Seq<QuoteResponse>, best: QuoteResponse) -> bool {
    exists|i: int|
        {
            &&& 0 <= i < quotes.len()
            &&& #[trigger] quotes[i] == best
            &&& forall|j: int|
                0 <= j < quotes.len() ==> (#[trigger] quotes[j]).amount_out <= best.amount_out
            &&& forall|j: int| 0 <= j < i ==> (#[trigger] quotes[j]).amount_out < best.amount_out
        }
}

/// Once a request has failed, those after it change nothing.
proof fn lemma_stops_at_error(state: RouterQuote, requests: Seq<QuoteRequest>, m: nat, n: nat)
    requires
        m <= n,
        state.first_error(requests, m) is Some,
    ensures
        state.first_error(requests, n) == state.first_error(requests, m),
        state.quoted(requests, n) == state.quoted(requests, m),
    decreases n - m,
{
    if m < n {
        lemma_stops_at_error(state, requests, m, (n - 1) as nat);
    }
}

/// Without an error every request has its quote, in place.
proof fn lemma_quoted_len(state: RouterQuote, requests: Seq<QuoteRequest>, n: nat)
    ensures
        state.first_error(requests, n) is None ==> {
            &&& state.quoted(requests, n).len() == n
            &&& forall|i: int|
                0 <= i < n ==> state.quote(requests[i]) == Ok::<_, QuoteError>(
                    #[trigger] state.quoted(requests, n)[i],
                )
        },
    decreases n,
{
    if n > 0 {
        lemma_quoted_len(state, requests, (n - 1) as nat);
    }
}

/// A quote splits the input amount: fee and output add up to it, neither is
/// negative, and the fee never exceeds what its basis points allow.
pub proof fn quote_splits_amount(state: RouterQuote, request: QuoteRequest)
    requires
        state.wf(),
    ensures
        state.quote(request) matches Ok(response) ==> {
            &&& response.fee_amount + response.amount_out == request.amount_in
            &&& 0 <= response.fee_amount <= request.amount_in
            &&& 0 <= response.amount_out <= request.amount_in
            &&& response.fee_amount * MAX_FEE_BPS <= request.amount_in * response.fee_bps
            &&& request.amount_in * response.fee_bps < (response.fee_amount + 1) * MAX_FEE_BPS
        },
{
    let fee_bps = state.fee_bps(request.route@);
    if request.amount_in > 0 && request.amount_in * fee_bps <= i128::MAX {
        let scaled = request.amount_in * fee_bps;
        assert(0 <= scaled <= request.amount_in * 10000) by (nonlinear_arith)
            requires
                scaled == request.amount_in * fee_bps,
                request.amount_in > 0,
                0 <= fee_bps <= 10000,
        ;
    }
}

/// Of two quotes for the same amount, the one with the lower fee pays out at
/// least as much.
pub proof fn lower_fee_pays_no_less(state: RouterQuote, a: QuoteRequest, b: QuoteRequest)
    requires
        a.amount_in == b.amount_in,
        state.fee_bps(a.route@) <= state.fee_bps(b.route@),
        state.quote(b) is Ok,
    ensures
        state.quote(a) is Ok,
        state.quote(a)->Ok_0.amount_out >= state.quote(b)->Ok_0.amount_out,
{
    let fee_a = state.fee_bps(a.route@);
    let fee_b = state.fee_bps(b.route@);
    assert(0 <= a.amount_in * fee_a <= a.amount_in * fee_b) by (nonlinear_arith)
        requires
            a.amount_in > 0,
            0 <= fee_a <= fee_b,
    ;
    assert(a.amount_in * fee_a / 10000 <= a.amount_in * fee_b / 10000);
}

/// A list of requests is quoted only as a whole: it succeeds exactly where it is
/// not empty and every request of it does, and then the quotes stand in the
/// order of the requests.
pub proof fn quotes_all_or_nothing(state: RouterQuote, requests: Seq<QuoteRequest>)
    ensures
        state.quotes(requests) is Ok <==> requests.len() > 0 && forall|i: int|
            0 <= i < requests.len() ==> state.quote(#[trigger] requests[i]) is Ok,
        state.quotes(requests) matches Ok(responses) ==> responses.len() == requests.len()
            && forall|i: int|
            0 <= i < requests.len() ==> state.quote(requests[i]) == Ok::<_, QuoteError>(
                #[trigger] responses[i],
            ),
{
    lemma_quoted_len(state, requests, requests.len());
    lemma_first_error_witness(state, requests, requests.len());
    if state.quotes(requests) is Ok {
        let responses = state.quoted(requests, requests.len());
        assert forall|i: int| 0 <= i < requests.len() implies state.quote(
            #[trigger] requests[i],
        ) is Ok by {
            assert(state.quote(requests[i]) == Ok::<_, QuoteError>(responses[i]));
        }
    }
}

/// An error of a list is the error of one of its requests.
proof fn lemma_first_error_witness(state: RouterQuote, requests: Seq<QuoteRequest>, n: nat)
    requires
        n <= requests.len(),
    ensures
        state.first_error(requests, n) is Some ==> exists|i: int|
            0 <= i < n && state.quote(#[trigger] requests[i]) is Err,
    decreases n,
{
    if n > 0 {
        lemma_first_error_witness(state, requests, (n - 1) as nat);
        if state.first_error(requests, n) is Some && state.first_error(
            requests,
            (n - 1) as nat,
        ) is None {
            assert(state.quote(requests[n - 1]) is Err);
        }
    }
}

} // verus!
