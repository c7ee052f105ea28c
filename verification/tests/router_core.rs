use stellar_router::common::{Address, BatchResult};
use stellar_router::router_core::types::{
    BatchResolveResult, ResolveError, RouteEntry, RouteMetadata, RouteRegisterInput, RouteScore,
    RouterCore, RouterError, RouterEvent,
};

/// A router, the ledger it lives on and the addresses handed out so far.
struct Client {
    core: RouterCore,
    sequence: u32,
    addresses: u32,
}

fn text(s: &str) -> String {
    s.to_string()
}

fn setup() -> (Address, Client) {
    let mut client = Client { core: RouterCore::new(), sequence: 0, addresses: 0 };
    let admin = client.generate();
    client.core.initialize(admin.clone()).unwrap();
    (admin, client)
}

impl Client {
    fn generate(&mut self) -> Address {
        self.addresses += 1;
        format!("address-{}", self.addresses)
    }

    fn last_event(&self) -> &RouterEvent {
        self.core.events.last().unwrap()
    }

    fn try_initialize(&mut self, admin: &Address) -> Result<(), RouterError> {
        self.core.initialize(admin.clone())
    }

    fn admin(&self) -> Address {
        self.core.admin().unwrap()
    }

    fn transfer_admin(&mut self, current: &Address, new_admin: &Address) {
        self.core.transfer_admin(current.clone(), new_admin.clone()).unwrap()
    }

    fn try_register_route(
        &mut self,
        caller: &Address,
        name: &String,
        address: &Address,
        metadata: &Option<RouteMetadata>,
    ) -> Result<(), RouterError> {
        self.core.register_route(caller, name.clone(), address.clone(), metadata.clone())
    }

    fn register_route(
        &mut self,
        caller: &Address,
        name: &String,
        address: &Address,
        metadata: &Option<RouteMetadata>,
    ) {
        self.try_register_route(caller, name, address, metadata).unwrap()
    }

    fn try_register_route_with_ttl(
        &mut self,
        caller: &Address,
        name: &String,
        address: &Address,
        ttl: &Option<u32>,
    ) -> Result<(), RouterError> {
        let sequence = self.sequence;
        self.core.register_route_with_ttl(caller, name.clone(), address.clone(), *ttl, sequence)
    }

    fn register_route_with_ttl(
        &mut self,
        caller: &Address,
        name: &String,
        address: &Address,
        ttl: &Option<u32>,
    ) {
        self.try_register_route_with_ttl(caller, name, address, ttl).unwrap()
    }

    fn get_route_expiry(&self, name: &String) -> Option<u32> {
        self.core.get_route_expiry(name)
    }

    fn try_extend_route_ttl(
        &mut self,
        caller: &Address,
        name: &String,
        ledgers: &u32,
    ) -> Result<(), RouterError> {
        let sequence = self.sequence;
        self.core.extend_route_ttl(caller, name.clone(), *ledgers, sequence)
    }

    fn extend_route_ttl(&mut self, caller: &Address, name: &String, ledgers: &u32) {
        self.try_extend_route_ttl(caller, name, ledgers).unwrap();
    }

    fn update_route(&mut self, caller: &Address, name: &String, address: &Address) {
        self.core.update_route(caller, name.clone(), address.clone()).unwrap()
    }

    fn try_remove_route(&mut self, caller: &Address, name: &String) -> Result<(), RouterError> {
        let sequence = self.sequence;
        self.core.remove_route(caller, name.clone(), sequence)
    }

    fn remove_route(&mut self, caller: &Address, name: &String) {
        self.try_remove_route(caller, name).unwrap()
    }

    fn register_routes_batch(
        &mut self,
        caller: &Address,
        routes: &Vec<RouteRegisterInput>,
        fail_fast: &bool,
    ) -> BatchResult {
        self.core.register_routes_batch(caller, routes, *fail_fast).unwrap()
    }

    fn remove_routes_batch(
        &mut self,
        caller: &Address,
        names: &Vec<String>,
        fail_fast: &bool,
    ) -> BatchResult {
        let sequence = self.sequence;
        self.core.remove_routes_batch(caller, names, *fail_fast, sequence).unwrap()
    }

    fn try_resolve(&mut self, name: &String) -> Result<Address, RouterError> {
        let sequence = self.sequence;
        self.core.resolve(name, sequence)
    }

    fn resolve(&mut self, name: &String) -> Address {
        self.try_resolve(name).unwrap()
    }

    fn batch_resolve(&mut self, names: &Vec<String>) -> Vec<BatchResolveResult> {
        let sequence = self.sequence;
        self.core.batch_resolve(names, sequence)
    }

    fn set_route_paused(&mut self, caller: &Address, name: &String, paused: &bool) {
        let sequence = self.sequence;
        self.core.set_route_paused(caller, name.clone(), *paused, sequence).unwrap()
    }

    fn set_paused(&mut self, caller: &Address, paused: &bool) {
        self.core.set_paused(caller, *paused).unwrap()
    }

    fn get_route(&self, name: &String) -> Option<RouteEntry> {
        self.core.get_route(name)
    }

    fn try_set_route_dependency(
        &mut self,
        caller: &Address,
        route: &String,
        depends_on: &String,
    ) -> Result<(), RouterError> {
        self.core.set_route_dependency(caller, route.clone(), depends_on.clone())
    }

    fn set_route_dependency(&mut self, caller: &Address, route: &String, depends_on: &String) {
        self.try_set_route_dependency(caller, route, depends_on).unwrap()
    }

    fn get_route_dependencies(&self, route: &String) -> Vec<String> {
        self.core.get_route_dependencies(route).unwrap()
    }

    fn resolve_with_dependencies(&self, name: &String) -> Vec<(String, Address)> {
        self.core.resolve_with_dependencies(name).unwrap()
    }

    fn try_update_metadata(
        &mut self,
        caller: &Address,
        name: &String,
        metadata: &Option<RouteMetadata>,
    ) -> Result<(), RouterError> {
        self.core.update_metadata(caller, name.clone(), metadata.clone())
    }

    fn update_metadata(
        &mut self,
        caller: &Address,
        name: &String,
        metadata: &Option<RouteMetadata>,
    ) {
        self.try_update_metadata(caller, name, metadata).unwrap()
    }

    fn get_metadata(&self, name: &String) -> Option<RouteMetadata> {
        self.core.get_metadata(name)
    }

    fn get_routes_by_tag(&self, tag: &String) -> Vec<String> {
        self.core.get_routes_by_tag(tag)
    }

    fn try_add_route_tag(
        &mut self,
        caller: &Address,
        name: &String,
        tag: &String,
    ) -> Result<(), RouterError> {
        self.core.add_route_tag(caller, name.clone(), tag.clone())
    }

    fn add_route_tag(&mut self, caller: &Address, name: &String, tag: &String) {
        self.try_add_route_tag(caller, name, tag).unwrap()
    }

    fn try_remove_route_tag(
        &mut self,
        caller: &Address,
        name: &String,
        tag: &String,
    ) -> Result<(), RouterError> {
        self.core.remove_route_tag(caller, name.clone(), tag.clone())
    }

    fn remove_route_tag(&mut self, caller: &Address, name: &String, tag: &String) {
        self.try_remove_route_tag(caller, name, tag).unwrap()
    }

    fn get_all_tags(&self) -> Vec<String> {
        self.core.get_all_tags()
    }

    fn total_routed(&self) -> u64 {
        self.core.total_routed()
    }

    fn route_count(&self) -> u32 {
        self.core.route_count()
    }

    fn try_add_alias(
        &mut self,
        caller: &Address,
        existing: &String,
        alias: &String,
    ) -> Result<(), RouterError> {
        self.core.add_alias(caller, existing.clone(), alias.clone())
    }

    fn add_alias(&mut self, caller: &Address, existing: &String, alias: &String) {
        self.try_add_alias(caller, existing, alias).unwrap()
    }

    fn remove_alias(&mut self, caller: &Address, alias: &String) {
        self.core.remove_alias(caller, alias.clone()).unwrap()
    }

    fn get_alias_target(&self, alias: &String) -> Option<String> {
        self.core.get_alias_target(alias)
    }

    fn get_all_routes(&self) -> Vec<String> {
        self.core.get_all_routes(self.sequence)
    }

    fn get_routes_paginated(&self, start: &u32, limit: &u32) -> Vec<String> {
        self.core.get_routes_paginated(*start, *limit)
    }

    fn try_set_route_score(
        &mut self,
        caller: &Address,
        name: &String,
        score: &RouteScore,
    ) -> Result<(), RouterError> {
        let sequence = self.sequence;
        self.core.set_route_score(caller, name.clone(), *score, sequence)
    }

    fn set_route_score(&mut self, caller: &Address, name: &String, score: &RouteScore) {
        self.try_set_route_score(caller, name, score).unwrap()
    }

    fn get_route_score(&self, name: &String) -> Option<RouteScore> {
        self.core.get_route_score(name)
    }

    fn try_get_best_route(
        &mut self,
        candidates: &Vec<String>,
        min_score: &i64,
        fallback: &Option<String>,
    ) -> Result<Option<String>, RouterError> {
        let sequence = self.sequence;
        self.core.get_best_route(candidates, *min_score, fallback.clone(), sequence)
    }

    fn get_best_route(
        &mut self,
        candidates: &Vec<String>,
        min_score: &i64,
        fallback: &Option<String>,
    ) -> Option<String> {
        self.try_get_best_route(candidates, min_score, fallback).unwrap()
    }
}

#[test]
fn test_update_route() {
    let (admin, mut client) = setup();
    let name = text("oracle");
    let addr1 = client.generate();
    let addr2 = client.generate();
    client.register_route(&admin, &name, &addr1, &None);
    client.update_route(&admin, &name, &addr2);
    assert_eq!(client.resolve(&name), addr2);
}

#[test]
fn test_remove_route() {
    let (admin, mut client) = setup();
    let name = text("oracle");
    let addr = client.generate();
    client.register_route(&admin, &name, &addr, &None);
    client.remove_route(&admin, &name);
    let result = client.try_resolve(&name);
    assert_eq!(result, Err(RouterError::RouteNotFound));
}

#[test]
fn test_set_and_get_route_dependencies() {
    let (admin, mut client) = setup();
    let oracle = text("oracle");
    let dex = text("dex");
    let oracle_addr = client.generate();
    let dex_addr = client.generate();

    client.register_route(&admin, &oracle, &oracle_addr, &None);
    client.register_route(&admin, &dex, &dex_addr, &None);
    client.set_route_dependency(&admin, &dex, &oracle);

    let dependencies = client.get_route_dependencies(&dex);
    assert_eq!(dependencies.len(), 1);
    assert_eq!(dependencies[0], oracle);
}

#[test]
fn test_circular_dependency_is_rejected() {
    let (admin, mut client) = setup();
    let name = text("oracle");
    let addr = client.generate();

    client.register_route(&admin, &name, &addr, &None);
    let result = client.try_set_route_dependency(&admin, &name, &name);
    assert_eq!(result, Err(RouterError::CircularDependency));
}

#[test]
fn test_remove_route_rejected_when_other_routes_depend_on_it() {
    let (admin, mut client) = setup();
    let oracle = text("oracle");
    let dex = text("dex");
    let oracle_addr = client.generate();
    let dex_addr = client.generate();

    client.register_route(&admin, &oracle, &oracle_addr, &None);
    client.register_route(&admin, &dex, &dex_addr, &None);
    client.set_route_dependency(&admin, &dex, &oracle);

    let result = client.try_remove_route(&admin, &oracle);
    assert_eq!(result, Err(RouterError::RouteInUse));
}

#[test]
fn test_resolve_with_dependencies_returns_dependency_order() {
    let (admin, mut client) = setup();
    let oracle = text("oracle");
    let dex = text("dex");
    let oracle_addr = client.generate();
    let dex_addr = client.generate();

    client.register_route(&admin, &oracle, &oracle_addr, &None);
    client.register_route(&admin, &dex, &dex_addr, &None);
    client.set_route_dependency(&admin, &dex, &oracle);

    let resolved = client.resolve_with_dependencies(&dex);
    assert_eq!(resolved.len(), 2);
    assert_eq!(resolved[0].0, oracle);
    assert_eq!(resolved[0].1, oracle_addr);
    assert_eq!(resolved[1].0, dex);
    assert_eq!(resolved[1].1, dex_addr);
}

#[test]
fn test_duplicate_route_fails() {
    let (admin, mut client) = setup();
    let name = text("oracle");
    let addr = client.generate();
    client.register_route(&admin, &name, &addr, &None);
    let result = client.try_register_route(&admin, &name, &addr, &None);
    assert_eq!(result, Err(RouterError::RouteAlreadyExists));
}

#[test]
fn test_register_route_description_too_long_returns_invalid_metadata() {
    let (admin, mut client) = setup();
    let name = text("oracle");
    let addr = client.generate();
    let long_description = "a".repeat(257);
    let metadata = RouteMetadata {
        description: text(&long_description),
        tags: Vec::new(),
        owner: admin.clone(),
    };

    let result = client.try_register_route(&admin, &name, &addr, &Some(metadata));
    assert_eq!(result, Err(RouterError::InvalidMetadata));
}

#[test]
fn test_register_route_too_many_tags_returns_invalid_metadata() {
    let (admin, mut client) = setup();
    let name = text("oracle");
    let addr = client.generate();
    let mut tags = Vec::new();
    for i in 0..6 {
        tags.push(text(&"tag".repeat(i + 1),
        ));
    }
    let metadata = RouteMetadata {
        description: text("valid description"),
        tags,
        owner: admin.clone(),
    };

    let result = client.try_register_route(&admin, &name, &addr, &Some(metadata));
    assert_eq!(result, Err(RouterError::InvalidMetadata));
}

#[test]
fn test_pause_route() {
    let (admin, mut client) = setup();
    let name = text("oracle");
    let addr = client.generate();
    client.register_route(&admin, &name, &addr, &None);
    client.set_route_paused(&admin, &name, &true);
    let result = client.try_resolve(&name);
    assert_eq!(result, Err(RouterError::RoutePaused));
}

#[test]
fn test_pause_and_unpause_route() {
    let (admin, mut client) = setup();
    let name = text("oracle");
    let addr = client.generate();

    // Register a route
    client.register_route(&admin, &name, &addr, &None);

    // Verify resolve works initially
    let resolved = client.resolve(&name);
    assert_eq!(resolved, addr);

    // Pause the route
    client.set_route_paused(&admin, &name, &true);

    // Assert that resolve now fails with RoutePaused error
    let result = client.try_resolve(&name);
    assert_eq!(result, Err(RouterError::RoutePaused));

    // Unpause the route
    client.set_route_paused(&admin, &name, &false);

    // Assert that resolve works again
    let resolved = client.resolve(&name);
    assert_eq!(resolved, addr);
}

#[test]
fn test_pause_router() {
    let (admin, mut client) = setup();
    let name = text("oracle");
    let addr = client.generate();
    client.register_route(&admin, &name, &addr, &None);
    client.set_paused(&admin, &true);
    let result = client.try_resolve(&name);
    assert_eq!(result, Err(RouterError::RouterPaused));
}

#[test]
fn test_unauthorized_register_fails() {
    let (_admin, mut client) = setup();
    let attacker = client.generate();
    let name = text("oracle");
    let addr = client.generate();
    let result = client.try_register_route(&attacker, &name, &addr, &None);
    assert_eq!(result, Err(RouterError::Unauthorized));
}

#[test]
fn core_test_transfer_admin() {
    let (admin, mut client) = setup();
    let new_admin = client.generate();
    client.transfer_admin(&admin, &new_admin);
    assert_eq!(client.admin(), new_admin);
}

#[test]
fn test_register_empty_name_fails() {
    let (admin, mut client) = setup();
    let addr = client.generate();
    let result = client.try_register_route(&admin, &text(""), &addr, &None);
    assert_eq!(result, Err(RouterError::InvalidRouteName));
}

#[test]
fn test_register_space_only_name_fails() {
    let (admin, mut client) = setup();
    let addr = client.generate();
    let result =
        client.try_register_route(&admin, &text("   "), &addr, &None);
    assert_eq!(result, Err(RouterError::InvalidRouteName));
}

#[test]
fn test_register_tab_only_name_fails() {
    let (admin, mut client) = setup();
    let addr = client.generate();
    let result = client.try_register_route(&admin, &text("\t"), &addr, &None);
    assert_eq!(result, Err(RouterError::InvalidRouteName));
}

#[test]
fn test_register_newline_only_name_fails() {
    let (admin, mut client) = setup();
    let addr = client.generate();
    let result = client.try_register_route(&admin, &text("\n"), &addr, &None);
    assert_eq!(result, Err(RouterError::InvalidRouteName));
}

#[test]
fn test_set_route_paused_emits_event() {
    let (admin, mut client) = setup();
    let name = text("oracle");
    let addr = client.generate();
    client.register_route(&admin, &name, &addr, &None);

    let events_before = client.core.events.len();
    client.set_route_paused(&admin, &name, &true);
    let events_after = client.core.events.len();

    // Verify an event was emitted
    assert_eq!(events_after, events_before + 1);
}

#[test]
fn test_set_paused_emits_event() {
    let (admin, mut client) = setup();

    let events_before = client.core.events.len();
    client.set_paused(&admin, &true);
    let events_after = client.core.events.len();

    // Verify an event was emitted
    assert_eq!(events_after, events_before + 1);
}

#[test]
fn test_resolve_unknown_route_fails() {
    let (_admin, mut client) = setup();
    let name = text("unknown");
    let result = client.try_resolve(&name);
    assert_eq!(result, Err(RouterError::RouteNotFound));
}

#[test]
fn test_get_all_routes_empty() {
    let (_admin, client) = setup();
    let routes: Vec<String> = client.get_all_routes();
    assert!(routes.is_empty());
}

#[test]
fn core_test_initialize_twice_fails() {
    let (_admin, mut client) = setup();
    let second_admin = client.generate();
    let result = client.try_initialize(&second_admin);
    assert_eq!(result, Err(RouterError::AlreadyInitialized));
}

#[test]
fn test_update_route_while_paused_succeeds() {
    let (admin, mut client) = setup();
    let name = text("oracle");
    let addr1 = client.generate();
    let addr2 = client.generate();
    client.register_route(&admin, &name, &addr1, &None);
    client.set_route_paused(&admin, &name, &true);
    client.update_route(&admin, &name, &addr2);
    let entry = client.get_route(&name).unwrap();
    assert_eq!(entry.address, addr2);
    assert!(entry.paused); // still paused after update
}

#[test]
fn test_resolve_succeeds_after_unpause() {
    let (admin, mut client) = setup();
    let name = text("oracle");
    let addr = client.generate();
    client.register_route(&admin, &name, &addr, &None);
    client.set_route_paused(&admin, &name, &true);
    client.set_route_paused(&admin, &name, &false);
    assert_eq!(client.resolve(&name), addr);
}

#[test]
fn test_router_unpause_round_trip() {
    let (admin, mut client) = setup();
    let name = text("oracle");
    let addr = client.generate();
    client.register_route(&admin, &name, &addr, &None);
    client.set_paused(&admin, &true);
    assert_eq!(
        client.try_resolve(&name),
        Err(RouterError::RouterPaused)
    );
    client.set_paused(&admin, &false);
    assert_eq!(client.resolve(&name), addr);
}

#[test]
fn test_get_all_routes_multiple() {
    let (admin, mut client) = setup();
    let oracle = text("oracle");
    let vault = text("vault");
    let addr1 = client.generate();
    let addr2 = client.generate();
    client.register_route(&admin, &oracle, &addr1, &None);
    client.register_route(&admin, &vault, &addr2, &None);
    let routes: Vec<String> = client.get_all_routes();
    assert_eq!(routes.len(), 2);
    assert!(routes.contains(&oracle));
    assert!(routes.contains(&vault));
}

#[test]
fn test_register_empty_route_name_fails() {
    let (admin, mut client) = setup();
    let empty_name = text("");
    let addr = client.generate();
    let result = client.try_register_route(&admin, &empty_name, &addr, &None);
    assert_eq!(result, Err(RouterError::InvalidRouteName));
}

#[test]
fn test_register_carriage_return_only_name_fails() {
    let (admin, mut client) = setup();
    let addr = client.generate();
    let result = client.try_register_route(&admin, &text("\r"), &addr, &None);
    assert_eq!(result, Err(RouterError::InvalidRouteName));
}

#[test]
fn test_register_mixed_whitespace_name_fails() {
    let (admin, mut client) = setup();
    let addr = client.generate();
    let result =
        client.try_register_route(&admin, &text(" \t\n\r"), &addr, &None);
    assert_eq!(result, Err(RouterError::InvalidRouteName));
}

#[test]
fn test_register_name_too_long_fails() {
    let (admin, mut client) = setup();
    let addr = client.generate();
    // 65 alphanumeric chars — exceeds max length of 64
    let long_name = text(&"a".repeat(65));
    let result = client.try_register_route(&admin, &long_name, &addr, &None);
    assert_eq!(result, Err(RouterError::InvalidRouteName));
}

#[test]
fn test_register_name_at_max_length_succeeds() {
    let (admin, mut client) = setup();
    let addr = client.generate();
    // Exactly 64 chars — must succeed
    let name = text(&"a".repeat(64));
    assert!(client
        .try_register_route(&admin, &name, &addr, &None)
        .is_ok());
}

#[test]
fn test_register_name_with_special_chars_fails() {
    let (admin, mut client) = setup();
    let addr = client.generate();
    // Underscore is not allowed
    let result =
        client.try_register_route(&admin, &text("oracle_v1"), &addr, &None);
    assert_eq!(result, Err(RouterError::InvalidRouteName));
}

#[test]
fn test_register_name_with_slash_and_hyphen_succeeds() {
    let (admin, mut client) = setup();
    let addr = client.generate();
    // Slash and hyphen are allowed
    let name = text("oracle/get-price");
    assert!(client
        .try_register_route(&admin, &name, &addr, &None)
        .is_ok());
}

#[test]
fn test_get_all_routes_updates_after_remove() {
    let (admin, mut client) = setup();
    let oracle = text("oracle");
    let vault = text("vault");
    let addr1 = client.generate();
    let addr2 = client.generate();

    client.register_route(&admin, &oracle, &addr1, &None);
    client.register_route(&admin, &vault, &addr2, &None);
    assert_eq!(client.get_all_routes().len(), 2);

    client.remove_route(&admin, &oracle);
    let routes = client.get_all_routes();
    assert_eq!(routes.len(), 1);
    assert!(!routes.contains(&oracle));
    assert!(routes.contains(&vault));
}

#[test]
fn test_get_all_routes_re_register_after_remove() {
    let (admin, mut client) = setup();
    let oracle = text("oracle");
    let addr1 = client.generate();
    let addr2 = client.generate();

    client.register_route(&admin, &oracle, &addr1, &None);
    assert_eq!(client.get_all_routes().len(), 1);

    client.remove_route(&admin, &oracle);
    assert_eq!(client.get_all_routes().len(), 0);

    client.register_route(&admin, &oracle, &addr2, &None);
    let routes = client.get_all_routes();
    assert_eq!(routes.len(), 1);
    assert!(routes.contains(&oracle));
}

#[test]
fn test_pause_all_blocks_new_resolutions() {
    let (admin, mut client) = setup();
    let name = text("oracle");
    let addr = client.generate();
    client.register_route(&admin, &name, &addr, &None);

    // Verify resolve works before pause
    assert_eq!(client.resolve(&name), addr);

    // Pause the router
    client.set_paused(&admin, &true);

    // Verify resolve fails after pause
    let result = client.try_resolve(&name);
    assert_eq!(result, Err(RouterError::RouterPaused));
}

#[test]
fn test_pause_all_checked_before_route_lookup() {
    let (admin, mut client) = setup();
    let name = text("oracle");
    let addr = client.generate();
    client.register_route(&admin, &name, &addr, &None);

    // Pause the router
    client.set_paused(&admin, &true);

    // Even with a valid route, resolve should fail with RouterPaused, not RouteNotFound
    let result = client.try_resolve(&name);
    assert_eq!(result, Err(RouterError::RouterPaused));
}

#[test]
fn test_add_alias_resolves_to_original() {
    let (admin, mut client) = setup();
    let name = text("oracle");
    let alias = text("oracle-v1");
    let addr = client.generate();
    client.register_route(&admin, &name, &addr, &None);
    client.add_alias(&admin, &name, &alias);
    assert_eq!(client.resolve(&alias), addr);
}

#[test]
fn test_remove_alias() {
    let (admin, mut client) = setup();
    let name = text("oracle");
    let alias = text("oracle-v1");
    let addr = client.generate();
    client.register_route(&admin, &name, &addr, &None);
    client.add_alias(&admin, &name, &alias);
    client.remove_alias(&admin, &alias);
    let result = client.try_resolve(&alias);
    assert_eq!(result, Err(RouterError::RouteNotFound));
}

#[test]
fn test_alias_for_nonexistent_route_fails() {
    let (admin, mut client) = setup();
    let name = text("oracle");
    let alias = text("oracle-v1");
    let result = client.try_add_alias(&admin, &name, &alias);
    assert_eq!(result, Err(RouterError::RouteNotFound));
}

#[test]
fn test_alias_name_cannot_be_existing_route() {
    let (admin, mut client) = setup();
    let name1 = text("oracle");
    let name2 = text("vault");
    let addr1 = client.generate();
    let addr2 = client.generate();
    client.register_route(&admin, &name1, &addr1, &None);
    client.register_route(&admin, &name2, &addr2, &None);
    let result = client.try_add_alias(&admin, &name1, &name2);
    assert_eq!(result, Err(RouterError::RouteAlreadyExists));
}

#[test]
fn test_resolve_dangling_alias_returns_route_not_found() {
    let (admin, mut client) = setup();
    let name = text("oracle");
    let alias = text("oracle-v1");
    let addr = client.generate();

    client.register_route(&admin, &name, &addr, &None);
    client.add_alias(&admin, &name, &alias);

    // Remove the underlying route
    client.remove_route(&admin, &name);

    // Alias key still exists, but target route is gone
    assert_eq!(
        client.try_resolve(&alias),
        Err(RouterError::RouteNotFound)
    );
}

#[test]
fn test_add_alias_to_removed_route_fails() {
    let (admin, mut client) = setup();
    let name = text("oracle");
    let alias = text("oracle-alias");
    let addr = client.generate();

    client.register_route(&admin, &name, &addr, &None);
    client.remove_route(&admin, &name);

    // Should fail — target route no longer exists
    assert_eq!(
        client.try_add_alias(&admin, &name, &alias),
        Err(RouterError::RouteNotFound)
    );
}

#[test]
fn test_register_route_with_metadata() {
    let (admin, mut client) = setup();
    let name = text("oracle");
    let addr = client.generate();
    let description = text("Oracle price feed");
    let tags = vec![text("defi"),
        text("oracle"),
    ];
    let owner = admin.clone();

    let metadata = Some(RouteMetadata {
        description: description.clone(),
        tags: tags.clone(),
        owner: owner.clone(),
    });

    client.register_route(&admin, &name, &addr, &metadata);

    let retrieved_metadata = client.get_metadata(&name);
    assert_eq!(retrieved_metadata, metadata);
}

#[test]
fn test_update_metadata() {
    let (admin, mut client) = setup();
    let name = text("oracle");
    let addr = client.generate();

    client.register_route(&admin, &name, &addr, &None);

    let description = text("Updated oracle");
    let tags = vec![text("v2")];
    let metadata = Some(RouteMetadata {
        description,
        tags,
        owner: client.generate(),
    });

    let events_before = client.core.events.len();
    client.update_metadata(&admin, &name, &metadata);
    let events_after = client.core.events.len();

    assert_eq!(events_after, events_before + 1);

    let retrieved = client.get_metadata(&name);
    assert_eq!(retrieved, metadata);
}

#[test]
fn test_set_route_paused_updates_updated_by() {
    let (admin, mut client) = setup();
    let name = text("oracle");
    let addr = client.generate();

    // Register a route with admin A
    client.register_route(&admin, &name, &addr, &None);

    // Verify initial updated_by is admin
    let entry = client.get_route(&name).unwrap();
    assert_eq!(entry.updated_by, admin);

    // Transfer admin to B
    let new_admin = client.generate();
    client.transfer_admin(&admin, &new_admin);

    // Pause with B
    client.set_route_paused(&new_admin, &name, &true);

    // Verify updated_by is now B
    let entry = client.get_route(&name).unwrap();
    assert_eq!(entry.updated_by, new_admin);
}

#[test]
fn test_resolve_alias_to_paused_route_fails() {
    let (admin, mut client) = setup();
    let name = text("oracle");
    let alias = text("oracle-v1");
    let addr = client.generate();
    client.register_route(&admin, &name, &addr, &None);
    client.add_alias(&admin, &name, &alias);
    client.set_route_paused(&admin, &name, &true);
    // Resolving alias should fail with RoutePaused
    assert_eq!(
        client.try_resolve(&alias),
        Err(RouterError::RoutePaused)
    );
}

#[test]
fn test_update_metadata_description_too_long_returns_invalid_metadata() {
    let (admin, mut client) = setup();
    let name = text("oracle");
    let addr = client.generate();
    client.register_route(&admin, &name, &addr, &None);

    // 257-char description — must fail
    let long_desc = text(&"a".repeat(257));
    let metadata = Some(RouteMetadata {
        description: long_desc,
        tags: Vec::new(),
        owner: client.generate(),
    });
    assert_eq!(
        client.try_update_metadata(&admin, &name, &metadata),
        Err(RouterError::InvalidMetadata)
    );
}

#[test]
fn test_update_metadata_too_many_tags_returns_invalid_metadata() {
    let (admin, mut client) = setup();
    let name = text("oracle");
    let addr = client.generate();
    client.register_route(&admin, &name, &addr, &None);

    // 6 tags — must fail
    let mut tags = Vec::new();
    for i in 0..6u32 {
        tags.push(text(&i.to_string()));
    }
    let metadata = Some(RouteMetadata {
        description: text("valid"),
        tags,
        owner: client.generate(),
    });
    assert_eq!(
        client.try_update_metadata(&admin, &name, &metadata),
        Err(RouterError::InvalidMetadata)
    );
}

#[test]
fn test_update_metadata_valid_succeeds() {
    let (admin, mut client) = setup();
    let name = text("oracle");
    let addr = client.generate();
    client.register_route(&admin, &name, &addr, &None);

    let mut tags = Vec::new();
    tags.push(text("defi"));
    let metadata = Some(RouteMetadata {
        description: text("valid description"),
        tags,
        owner: client.generate(),
    });
    assert!(client.try_update_metadata(&admin, &name, &metadata).is_ok());
    assert_eq!(client.get_metadata(&name), metadata);
}

#[test]
fn test_update_metadata_clears_when_none() {
    let (admin, mut client) = setup();
    let name = text("oracle");
    let addr = client.generate();

    let metadata = Some(RouteMetadata {
        description: text("initial"),
        tags: Vec::new(),
        owner: client.generate(),
    });
    client.register_route(&admin, &name, &addr, &metadata);
    assert!(client.get_metadata(&name).is_some());

    client.update_metadata(&admin, &name, &None);
    assert_eq!(client.get_metadata(&name), None);
}

#[test]
fn test_update_metadata_description_at_limit() {
    let (admin, mut client) = setup();
    let name = text("oracle");
    let addr = client.generate();
    client.register_route(&admin, &name, &addr, &None);

    // Exactly 256 chars — must succeed
    let desc = text(&"a".repeat(256));
    let metadata = Some(RouteMetadata {
        description: desc,
        tags: Vec::new(),
        owner: client.generate(),
    });
    assert!(client.try_update_metadata(&admin, &name, &metadata).is_ok());
}

#[test]
fn test_update_metadata_description_over_limit() {
    let (admin, mut client) = setup();
    let name = text("oracle");
    let addr = client.generate();
    client.register_route(&admin, &name, &addr, &None);

    // 257 chars — must fail
    let desc = text(&"a".repeat(257));
    let metadata = Some(RouteMetadata {
        description: desc,
        tags: Vec::new(),
        owner: client.generate(),
    });
    assert_eq!(
        client.try_update_metadata(&admin, &name, &metadata),
        Err(RouterError::InvalidMetadata)
    );
}

#[test]
fn test_update_metadata_tags_at_limit() {
    let (admin, mut client) = setup();
    let name = text("oracle");
    let addr = client.generate();
    client.register_route(&admin, &name, &addr, &None);

    // Exactly 5 tags — must succeed
    let mut tags = Vec::new();
    for i in 0..5u32 {
        tags.push(text(&i.to_string()));
    }
    let metadata = Some(RouteMetadata {
        description: text("valid"),
        tags,
        owner: client.generate(),
    });
    assert!(client.try_update_metadata(&admin, &name, &metadata).is_ok());
}

#[test]
fn test_update_metadata_tags_over_limit() {
    let (admin, mut client) = setup();
    let name = text("oracle");
    let addr = client.generate();
    client.register_route(&admin, &name, &addr, &None);

    // 6 tags — must fail
    let mut tags = Vec::new();
    for i in 0..6u32 {
        tags.push(text(&i.to_string()));
    }
    let metadata = Some(RouteMetadata {
        description: text("valid"),
        tags,
        owner: client.generate(),
    });
    assert_eq!(
        client.try_update_metadata(&admin, &name, &metadata),
        Err(RouterError::InvalidMetadata)
    );
}

#[test]
fn test_get_metadata_nonexistent_route_returns_none() {
    let (_admin, client) = setup();
    let name = text("nonexistent");
    assert_eq!(client.get_metadata(&name), None);
}

#[test]
fn test_remove_route_cleans_up_dangling_aliases() {
    let (admin, mut client) = setup();
    let oracle = text("oracle");
    let oracle_v1 = text("oracle-v1");
    let addr = client.generate();

    // Register route and create alias
    client.register_route(&admin, &oracle, &addr, &None);
    client.add_alias(&admin, &oracle, &oracle_v1);

    // Verify alias works initially
    assert_eq!(client.resolve(&oracle_v1), addr);

    // Remove the original route
    client.remove_route(&admin, &oracle);

    // Alias should now return RouteNotFound (not dangling)
    assert_eq!(
        client.try_resolve(&oracle_v1),
        Err(RouterError::RouteNotFound)
    );

    // Original route should also return RouteNotFound
    assert_eq!(
        client.try_resolve(&oracle),
        Err(RouterError::RouteNotFound)
    );
}

#[test]
fn test_total_routed_increments_on_alias_resolution() {
    let (admin, mut client) = setup();
    let name = text("oracle");
    let alias = text("oracle-v1");
    let addr = client.generate();

    client.register_route(&admin, &name, &addr, &None);
    client.add_alias(&admin, &name, &alias);

    assert_eq!(client.total_routed(), 0);
    client.resolve(&alias);
    assert_eq!(client.total_routed(), 1); // alias resolution increments counter
    client.resolve(&name);
    assert_eq!(client.total_routed(), 2);
}

#[test]
fn test_update_metadata_nonexistent_route_fails() {
    let (admin, mut client) = setup();
    let name = text("ghost");
    let result = client.try_update_metadata(&admin, &name, &None);
    assert_eq!(result, Err(RouterError::RouteNotFound));
}

#[test]
fn test_update_metadata_unauthorized_fails() {
    let (admin, mut client) = setup();
    let name = text("oracle");
    let addr = client.generate();
    client.register_route(&admin, &name, &addr, &None);
    let attacker = client.generate();
    let result = client.try_update_metadata(&attacker, &name, &None);
    assert_eq!(result, Err(RouterError::Unauthorized));
}

#[test]
fn test_get_alias_target_returns_canonical_name() {
    let (admin, mut client) = setup();
    let name = text("oracle");
    let alias = text("oracle-v1");
    let addr = client.generate();
    client.register_route(&admin, &name, &addr, &None);
    client.add_alias(&admin, &name, &alias);
    assert_eq!(client.get_alias_target(&alias), Some(name));
}

#[test]
fn test_get_alias_target_returns_none_for_non_alias() {
    let (_admin, client) = setup();
    let name = text("not_an_alias");
    assert_eq!(client.get_alias_target(&name), None);
}

#[test]
fn test_alias_chain_resolves_to_original_address() {
    // alias_b → oracle (alias pointing to another alias is not supported;
    // add_alias only accepts existing *routes*, not aliases, as the target).
    // This test verifies that an alias of an alias is rejected with RouteNotFound
    // because the intermediate alias is not a registered route.
    let (admin, mut client) = setup();
    let oracle = text("oracle");
    let alias_a = text("oracle-a");
    let alias_b = text("oracle-b");
    let addr = client.generate();

    client.register_route(&admin, &oracle, &addr, &None);
    client.add_alias(&admin, &oracle, &alias_a);

    // alias_a is not a route, so aliasing it should fail
    let result = client.try_add_alias(&admin, &alias_a, &alias_b);
    assert_eq!(result, Err(RouterError::RouteNotFound));
}

#[test]
fn test_dangling_alias_after_parent_route_removed() {
    // After remove_route, the alias is cleaned up and resolving it returns RouteNotFound.
    let (admin, mut client) = setup();
    let oracle = text("oracle");
    let alias = text("oracle-v1");
    let addr = client.generate();

    client.register_route(&admin, &oracle, &addr, &None);
    client.add_alias(&admin, &oracle, &alias);
    assert_eq!(client.resolve(&alias), addr);

    client.remove_route(&admin, &oracle);

    assert_eq!(
        client.try_resolve(&alias),
        Err(RouterError::RouteNotFound)
    );
    // The alias target lookup should also return None after cleanup
    assert_eq!(client.get_alias_target(&alias), None);
}

#[test]
fn test_duplicate_alias_name_fails() {
    // Creating an alias with the same name as an existing alias returns RouteAlreadyExists.
    let (admin, mut client) = setup();
    let oracle = text("oracle");
    let alias = text("oracle-v1");
    let addr = client.generate();

    client.register_route(&admin, &oracle, &addr, &None);
    client.add_alias(&admin, &oracle, &alias);

    // Second add_alias with the same alias name must fail
    let result = client.try_add_alias(&admin, &oracle, &alias);
    assert_eq!(result, Err(RouterError::RouteAlreadyExists));
}

#[test]
fn test_set_and_get_route_score() {
    let (admin, mut client) = setup();
    let name = text("oracle");
    let addr = client.generate();
    client.register_route(&admin, &name, &addr, &None);

    let score = RouteScore {
        liquidity_score: 80,
        fee_bps: 30,
        reliability_score: 90,
    };
    client.set_route_score(&admin, &name, &score);

    let retrieved = client.get_route_score(&name).unwrap();
    assert_eq!(retrieved.liquidity_score, 80);
    assert_eq!(retrieved.fee_bps, 30);
    assert_eq!(retrieved.reliability_score, 90);
}

#[test]
fn test_set_route_score_nonexistent_fails() {
    let (admin, mut client) = setup();
    let name = text("ghost");
    let score = RouteScore {
        liquidity_score: 50,
        fee_bps: 10,
        reliability_score: 50,
    };
    let result = client.try_set_route_score(&admin, &name, &score);
    assert_eq!(result, Err(RouterError::RouteNotFound));
}

#[test]
fn test_get_best_route_selects_highest_score() {
    let (admin, mut client) = setup();
    let r1 = text("route-a");
    let r2 = text("route-b");
    let r3 = text("route-c");
    let addr = client.generate();

    client.register_route(&admin, &r1, &addr, &None);
    client.register_route(&admin, &r2, &addr, &None);
    client.register_route(&admin, &r3, &addr, &None);

    // route_a: 50 + 70 - 30/10 = 117
    client.set_route_score(
        &admin,
        &r1,
        &RouteScore {
            liquidity_score: 50,
            fee_bps: 30,
            reliability_score: 70,
        },
    );
    // route_b: 90 + 95 - 10/10 = 184  ← best
    client.set_route_score(
        &admin,
        &r2,
        &RouteScore {
            liquidity_score: 90,
            fee_bps: 10,
            reliability_score: 95,
        },
    );
    // route_c: 60 + 60 - 50/10 = 115
    client.set_route_score(
        &admin,
        &r3,
        &RouteScore {
            liquidity_score: 60,
            fee_bps: 50,
            reliability_score: 60,
        },
    );

    let candidates = vec![r1, r2.clone(), r3];
    let best = client.get_best_route(&candidates, &0, &None);
    assert_eq!(best, Some(r2));
}

#[test]
fn test_get_best_route_skips_paused() {
    let (admin, mut client) = setup();
    let r1 = text("route-a");
    let r2 = text("route-b");
    let addr = client.generate();

    client.register_route(&admin, &r1, &addr, &None);
    client.register_route(&admin, &r2, &addr, &None);

    // r1 has higher score but is paused
    client.set_route_score(
        &admin,
        &r1,
        &RouteScore {
            liquidity_score: 100,
            fee_bps: 0,
            reliability_score: 100,
        },
    );
    client.set_route_score(
        &admin,
        &r2,
        &RouteScore {
            liquidity_score: 50,
            fee_bps: 10,
            reliability_score: 50,
        },
    );
    client.set_route_paused(&admin, &r1, &true);

    let candidates = vec![r1, r2.clone()];
    let best = client.get_best_route(&candidates, &0, &None);
    assert_eq!(best, Some(r2));
}

#[test]
fn test_get_best_route_returns_none_when_all_unscored() {
    let (admin, mut client) = setup();
    let r1 = text("route-a");
    let addr = client.generate();
    client.register_route(&admin, &r1, &addr, &None);
    // No score set
    let candidates = vec![r1];
    let best = client.get_best_route(&candidates, &0, &None);
    assert_eq!(best, None);
}

#[test]
fn test_get_best_route_fails_when_router_paused() {
    let (admin, mut client) = setup();
    client.set_paused(&admin, &true);
    let candidates = Vec::new();
    let result = client.try_get_best_route(&candidates, &0, &None);
    assert_eq!(result, Err(RouterError::RouterPaused));
}

#[test]
fn test_get_best_route_fallback_when_below_min_score() {
    let (admin, mut client) = setup();
    let r1 = text("route-a");
    let fallback = text("fallback-route");
    let addr = client.generate();
    client.register_route(&admin, &r1, &addr, &None);
    // route_a: 50 + 50 - 10/10 = 99
    client.set_route_score(
        &admin,
        &r1,
        &RouteScore {
            liquidity_score: 50,
            fee_bps: 10,
            reliability_score: 50,
        },
    );

    let candidates = vec![r1];
    // min_score = 200 — route_a (99) doesn't qualify → fallback returned
    let best = client.get_best_route(&candidates, &200, &Some(fallback.clone()));
    assert_eq!(best, Some(fallback));
}

#[test]
fn test_get_best_route_no_fallback_returns_none_when_below_min_score() {
    let (admin, mut client) = setup();
    let r1 = text("route-a");
    let addr = client.generate();
    client.register_route(&admin, &r1, &addr, &None);
    client.set_route_score(
        &admin,
        &r1,
        &RouteScore {
            liquidity_score: 10,
            fee_bps: 0,
            reliability_score: 10,
        },
    );

    let candidates = vec![r1];
    // min_score = 1000 — no route qualifies, no fallback
    let best = client.get_best_route(&candidates, &1000, &None);
    assert_eq!(best, None);
}

#[test]
fn test_get_all_routes_count_decrements_after_remove() {
    let (admin, mut client) = setup();
    let oracle = text("oracle");
    let vault = text("vault");
    let swap = text("swap");
    let addr = client.generate();

    // Register 3 routes
    client.register_route(&admin, &oracle, &addr, &None);
    client.register_route(&admin, &vault, &addr, &None);
    client.register_route(&admin, &swap, &addr, &None);
    assert_eq!(client.get_all_routes().len(), 3);

    // Remove one route
    client.remove_route(&admin, &vault);

    // Count should decrement by one
    let routes = client.get_all_routes();
    assert_eq!(routes.len(), 2);
    assert!(routes.contains(&oracle));
    assert!(!routes.contains(&vault));
    assert!(routes.contains(&swap));
}

#[test]
fn test_get_all_routes_includes_re_registered_route() {
    let (admin, mut client) = setup();
    let oracle = text("oracle");
    let addr1 = client.generate();
    let addr2 = client.generate();

    // Register, remove, then re-register
    client.register_route(&admin, &oracle, &addr1, &None);
    assert_eq!(client.get_all_routes().len(), 1);

    client.remove_route(&admin, &oracle);
    assert_eq!(client.get_all_routes().len(), 0);

    client.register_route(&admin, &oracle, &addr2, &None);

    // Route should be back in the list
    let routes = client.get_all_routes();
    assert_eq!(routes.len(), 1);
    assert!(routes.contains(&oracle));
}

#[test]
fn test_get_all_routes_no_duplicates_after_multiple_operations() {
    let (admin, mut client) = setup();
    let oracle = text("oracle");
    let vault = text("vault");
    let swap = text("swap");
    let addr = client.generate();

    // Register multiple routes
    client.register_route(&admin, &oracle, &addr, &None);
    client.register_route(&admin, &vault, &addr, &None);
    client.register_route(&admin, &swap, &addr, &None);

    // Remove and re-register some routes
    client.remove_route(&admin, &vault);
    client.register_route(&admin, &vault, &addr, &None);
    client.remove_route(&admin, &oracle);
    client.register_route(&admin, &oracle, &addr, &None);

    // Verify no duplicates
    let routes = client.get_all_routes();
    assert_eq!(routes.len(), 3);

    // Count occurrences of each route name
    let mut oracle_count = 0;
    let mut vault_count = 0;
    let mut swap_count = 0;
    for route in routes.iter() {
        if *route == oracle {
            oracle_count += 1;
        } else if *route == vault {
            vault_count += 1;
        } else if *route == swap {
            swap_count += 1;
        }
    }

    assert_eq!(oracle_count, 1, "oracle should appear exactly once");
    assert_eq!(vault_count, 1, "vault should appear exactly once");
    assert_eq!(swap_count, 1, "swap should appear exactly once");
}

#[test]
fn test_validate_route_name_rejects_empty_string() {
    let (admin, mut client) = setup();
    let empty_name = text("");
    let addr = client.generate();
    let result = client.try_register_route(&admin, &empty_name, &addr, &None);
    assert_eq!(result, Err(RouterError::InvalidRouteName));
}

#[test]
fn test_validate_route_name_rejects_whitespace_only() {
    let (admin, mut client) = setup();
    let whitespace_name = text("   ");
    let addr = client.generate();
    let result = client.try_register_route(&admin, &whitespace_name, &addr, &None);
    assert_eq!(result, Err(RouterError::InvalidRouteName));
}

#[test]
fn test_validate_route_name_prevents_duplicate_route() {
    let (admin, mut client) = setup();
    let name = text("oracle");
    let addr1 = client.generate();
    let addr2 = client.generate();

    client.register_route(&admin, &name, &addr1, &None);
    let result = client.try_register_route(&admin, &name, &addr2, &None);
    assert_eq!(result, Err(RouterError::RouteAlreadyExists));
}

#[test]
fn test_validate_route_name_prevents_alias_as_route() {
    let (admin, mut client) = setup();
    let route_name = text("oracle");
    let alias_name = text("oracle-v1");
    let addr1 = client.generate();
    let addr2 = client.generate();

    // Register route and create alias
    client.register_route(&admin, &route_name, &addr1, &None);
    client.add_alias(&admin, &route_name, &alias_name);

    // Try to register a route with the same name as the alias
    let result = client.try_register_route(&admin, &alias_name, &addr2, &None);
    assert_eq!(result, Err(RouterError::RouteAlreadyExists));
}

#[test]
fn test_validate_route_name_prevents_route_as_alias() {
    let (admin, mut client) = setup();
    let route1 = text("oracle");
    let route2 = text("vault");
    let addr1 = client.generate();
    let addr2 = client.generate();

    // Register two routes
    client.register_route(&admin, &route1, &addr1, &None);
    client.register_route(&admin, &route2, &addr2, &None);

    // Try to create an alias with the same name as an existing route
    let result = client.try_add_alias(&admin, &route1, &route2);
    assert_eq!(result, Err(RouterError::RouteAlreadyExists));
}

#[test]
fn test_validate_route_name_alias_empty_string_fails() {
    let (admin, mut client) = setup();
    let route_name = text("oracle");
    let empty_alias = text("");
    let addr = client.generate();

    client.register_route(&admin, &route_name, &addr, &None);
    let result = client.try_add_alias(&admin, &route_name, &empty_alias);
    assert_eq!(result, Err(RouterError::InvalidRouteName));
}

#[test]
fn test_validate_route_name_alias_whitespace_fails() {
    let (admin, mut client) = setup();
    let route_name = text("oracle");
    let whitespace_alias = text("\t\n ");
    let addr = client.generate();

    client.register_route(&admin, &route_name, &addr, &None);
    let result = client.try_add_alias(&admin, &route_name, &whitespace_alias);
    assert_eq!(result, Err(RouterError::InvalidRouteName));
}

#[test]
fn test_route_count() {
    let (admin, mut client) = setup();
    assert_eq!(client.route_count(), 0);

    let name1 = text("oracle");
    let addr1 = client.generate();
    client.register_route(&admin, &name1, &addr1, &None);
    assert_eq!(client.route_count(), 1);

    let name2 = text("vault");
    let addr2 = client.generate();
    client.register_route(&admin, &name2, &addr2, &None);
    assert_eq!(client.route_count(), 2);

    client.remove_route(&admin, &name1);
    assert_eq!(client.route_count(), 1);
}

#[test]
fn test_route_count_reregister_does_not_double_count() {
    let (admin, mut client) = setup();
    let name = text("oracle");
    let addr1 = client.generate();
    let addr2 = client.generate();

    client.register_route(&admin, &name, &addr1, &None);
    assert_eq!(client.route_count(), 1);

    client.remove_route(&admin, &name);
    assert_eq!(client.route_count(), 0);

    client.register_route(&admin, &name, &addr2, &None);
    assert_eq!(client.route_count(), 1);
}

#[test]
fn test_batch_resolve_all_succeed() {
    let (admin, mut client) = setup();
    let oracle = text("oracle");
    let vault = text("vault");
    let addr1 = client.generate();
    let addr2 = client.generate();
    client.register_route(&admin, &oracle, &addr1, &None);
    client.register_route(&admin, &vault, &addr2, &None);

    let names = vec![oracle, vault];
    let results = client.batch_resolve(&names);

    assert_eq!(results.len(), 2);
    assert_eq!(results[0], BatchResolveResult::Resolved(addr1));
    assert_eq!(results[1], BatchResolveResult::Resolved(addr2));
}

#[test]
fn test_batch_resolve_empty_input() {
    let (_admin, mut client) = setup();
    let names: Vec<String> = Vec::new();
    let results = client.batch_resolve(&names);
    assert_eq!(results.len(), 0);
}

#[test]
fn test_batch_resolve_partial_failure() {
    let (admin, mut client) = setup();
    let oracle = text("oracle");
    let missing = text("missing");
    let addr = client.generate();
    client.register_route(&admin, &oracle, &addr, &None);

    let names = vec![oracle, missing];
    let results = client.batch_resolve(&names);

    assert_eq!(results.len(), 2);
    assert_eq!(results[0], BatchResolveResult::Resolved(addr));
    assert_eq!(
        results[1],
        BatchResolveResult::Failed(ResolveError::RouteNotFound)
    );
}

#[test]
fn test_batch_resolve_router_paused_all_fail() {
    let (admin, mut client) = setup();
    let oracle = text("oracle");
    let addr = client.generate();
    client.register_route(&admin, &oracle, &addr, &None);
    client.set_paused(&admin, &true);

    let names = vec![oracle];
    let results = client.batch_resolve(&names);

    assert_eq!(results.len(), 1);
    assert_eq!(
        results[0],
        BatchResolveResult::Failed(ResolveError::RouterPaused)
    );
}

#[test]
fn test_batch_resolve_paused_route_returns_err() {
    let (admin, mut client) = setup();
    let oracle = text("oracle");
    let vault = text("vault");
    let addr1 = client.generate();
    let addr2 = client.generate();
    client.register_route(&admin, &oracle, &addr1, &None);
    client.register_route(&admin, &vault, &addr2, &None);
    client.set_route_paused(&admin, &oracle, &true);

    let names = vec![oracle, vault];
    let results = client.batch_resolve(&names);

    assert_eq!(results.len(), 2);
    assert_eq!(
        results[0],
        BatchResolveResult::Failed(ResolveError::RoutePaused)
    );
    assert_eq!(results[1], BatchResolveResult::Resolved(addr2));
}

#[test]
fn test_batch_resolve_preserves_order() {
    let (admin, mut client) = setup();
    let r1 = text("route1");
    let r2 = text("route2");
    let r3 = text("route3");
    let addr1 = client.generate();
    let addr2 = client.generate();
    let addr3 = client.generate();
    client.register_route(&admin, &r1, &addr1, &None);
    client.register_route(&admin, &r2, &addr2, &None);
    client.register_route(&admin, &r3, &addr3, &None);

    // Intentionally reverse order to verify output order matches input
    let names = vec![r3, r1, r2];
    let results = client.batch_resolve(&names);

    assert_eq!(results.len(), 3);
    assert_eq!(results[0], BatchResolveResult::Resolved(addr3));
    assert_eq!(results[1], BatchResolveResult::Resolved(addr1));
    assert_eq!(results[2], BatchResolveResult::Resolved(addr2));
}

#[test]
fn test_batch_resolve_increments_total_routed() {
    let (admin, mut client) = setup();
    let oracle = text("oracle");
    let vault = text("vault");
    let addr1 = client.generate();
    let addr2 = client.generate();
    client.register_route(&admin, &oracle, &addr1, &None);
    client.register_route(&admin, &vault, &addr2, &None);

    assert_eq!(client.total_routed(), 0);
    let names = vec![oracle, vault];
    client.batch_resolve(&names);
    assert_eq!(client.total_routed(), 2);
}

#[test]
fn test_batch_resolve_resolves_alias() {
    let (admin, mut client) = setup();
    let name = text("oracle");
    let alias = text("oracle-v1");
    let addr = client.generate();
    client.register_route(&admin, &name, &addr, &None);
    client.add_alias(&admin, &name, &alias);

    let names = vec![alias];
    let results = client.batch_resolve(&names);

    assert_eq!(results.len(), 1);
    assert_eq!(results[0], BatchResolveResult::Resolved(addr));
}

#[test]
fn test_register_routes_batch_all_succeed() {
    let (admin, mut client) = setup();
    let (a1, a2) = (client.generate(), client.generate());
    let routes = vec![RouteRegisterInput {
            name: text("oracle"),
            address: a1.clone(),
        },
        RouteRegisterInput {
            name: text("vault"),
            address: a2.clone(),
        },
    ];
    let result = client.register_routes_batch(&admin, &routes, &false);
    assert_eq!(result.successes.len(), 2);
    assert_eq!(result.failures.len(), 0);
    assert_eq!(client.resolve(&routes[0].name), a1);
    assert_eq!(client.resolve(&routes[1].name), a2);
}

#[test]
fn test_register_routes_batch_partial_errors() {
    let (admin, mut client) = setup();
    let name = text("oracle");
    let addr = client.generate();
    client.register_route(&admin, &name, &addr, &None);
    let routes = vec![RouteRegisterInput {
            name: name.clone(),
            address: client.generate(),
        },
        RouteRegisterInput {
            name: text("vault"),
            address: client.generate(),
        },
    ];
    let result = client.register_routes_batch(&admin, &routes, &false);
    assert_eq!(result.successes.len(), 1);
    assert_eq!(result.successes[0].index, 1);
    assert_eq!(result.failures.len(), 1);
    assert_eq!(
        result.failures[0].message,
        text("RouteAlreadyExists")
    );
}

#[test]
fn test_remove_routes_batch_partial_errors() {
    let (admin, mut client) = setup();
    let name = text("oracle");
    let addr = client.generate();
    client.register_route(&admin, &name, &addr, &None);
    let names = vec![name.clone(), text("missing")];
    let result = client.remove_routes_batch(&admin, &names, &false);
    assert_eq!(result.successes.len(), 1);
    assert_eq!(result.failures.len(), 1);
    assert_eq!(
        result.failures[0].message,
        text("RouteNotFound")
    );
    let resolve_result = client.try_resolve(&name);
    assert_eq!(resolve_result, Err(RouterError::RouteNotFound));
}

#[test]
fn test_resolve_uses_cached_best_route() {
    let (admin, mut client) = setup();
    let r1 = text("route-a");
    let r2 = text("route-b");
    let addr1 = client.generate();
    let addr2 = client.generate();
    client.register_route(&admin, &r1, &addr1, &None);
    client.register_route(&admin, &r2, &addr2, &None);

    // r2 scores higher than r1
    client.set_route_score(
        &admin,
        &r1,
        &RouteScore {
            liquidity_score: 50,
            fee_bps: 30,
            reliability_score: 50,
        },
    );
    client.set_route_score(
        &admin,
        &r2,
        &RouteScore {
            liquidity_score: 90,
            fee_bps: 10,
            reliability_score: 90,
        },
    );

    // Resolving any route name returns the globally best scored route.
    assert_eq!(client.resolve(&r1), addr2);
    assert_eq!(client.resolve(&r2), addr2);
}

#[test]
fn test_cached_best_route_updates_when_best_paused() {
    let (admin, mut client) = setup();
    let r1 = text("route-a");
    let r2 = text("route-b");
    let addr1 = client.generate();
    let addr2 = client.generate();
    client.register_route(&admin, &r1, &addr1, &None);
    client.register_route(&admin, &r2, &addr2, &None);
    client.set_route_score(
        &admin,
        &r1,
        &RouteScore {
            liquidity_score: 50,
            fee_bps: 30,
            reliability_score: 50,
        },
    );
    client.set_route_score(
        &admin,
        &r2,
        &RouteScore {
            liquidity_score: 90,
            fee_bps: 10,
            reliability_score: 90,
        },
    );

    // Initially r2 is best.
    assert_eq!(client.resolve(&r1), addr2);

    // Pausing the best route promotes r1 in the cache.
    client.set_route_paused(&admin, &r2, &true);
    assert_eq!(client.resolve(&r1), addr1);
}

#[test]
fn test_cached_best_route_updates_on_remove() {
    let (admin, mut client) = setup();
    let r1 = text("route-a");
    let r2 = text("route-b");
    let addr1 = client.generate();
    let addr2 = client.generate();
    client.register_route(&admin, &r1, &addr1, &None);
    client.register_route(&admin, &r2, &addr2, &None);
    client.set_route_score(
        &admin,
        &r1,
        &RouteScore {
            liquidity_score: 50,
            fee_bps: 30,
            reliability_score: 50,
        },
    );
    client.set_route_score(
        &admin,
        &r2,
        &RouteScore {
            liquidity_score: 90,
            fee_bps: 10,
            reliability_score: 90,
        },
    );

    assert_eq!(client.resolve(&r1), addr2);

    // Removing the best route falls back to the next-best.
    client.remove_route(&admin, &r2);
    assert_eq!(client.resolve(&r1), addr1);
}

#[test]
fn test_resolve_without_scores_uses_requested_route() {
    let (admin, mut client) = setup();
    let r1 = text("route-a");
    let r2 = text("route-b");
    let addr1 = client.generate();
    let addr2 = client.generate();
    client.register_route(&admin, &r1, &addr1, &None);
    client.register_route(&admin, &r2, &addr2, &None);

    // No scores set: each name resolves to its own address.
    assert_eq!(client.resolve(&r1), addr1);
    assert_eq!(client.resolve(&r2), addr2);
}

#[test]
fn test_get_routes_paginated_basic() {
    let (admin, mut client) = setup();
    let addr = client.generate();
    let r1 = text("route-a");
    let r2 = text("route-b");
    let r3 = text("route-c");
    client.register_route(&admin, &r1, &addr, &None);
    client.register_route(&admin, &r2, &addr, &None);
    client.register_route(&admin, &r3, &addr, &None);

    // First page of two.
    let page = client.get_routes_paginated(&0, &2);
    assert_eq!(page.len(), 2);
    assert_eq!(page[0], r1);
    assert_eq!(page[1], r2);

    // Second page returns the remaining one.
    let page = client.get_routes_paginated(&2, &2);
    assert_eq!(page.len(), 1);
    assert_eq!(page[0], r3);
}

#[test]
fn test_get_routes_paginated_edge_cases() {
    let (admin, mut client) = setup();
    let addr = client.generate();
    let r1 = text("route-a");
    client.register_route(&admin, &r1, &addr, &None);

    // start past the end -> empty
    assert_eq!(client.get_routes_paginated(&5, &10).len(), 0);
    // zero limit -> empty
    assert_eq!(client.get_routes_paginated(&0, &0).len(), 0);
    // limit larger than remaining -> clamped
    assert_eq!(client.get_routes_paginated(&0, &100).len(), 1);
}

#[test]
fn test_get_routes_by_tag_returns_matching_routes() {
    let (admin, mut client) = setup();
    let addr = client.generate();
    let dex = text("dex");
    let lending = text("lending");
    let stable = text("stable");
    let route_a = text("swap-a");
    let route_b = text("swap-b");
    let route_c = text("loan-a");

    client.register_route(
        &admin,
        &route_a,
        &addr,
        &Some(RouteMetadata {
            description: text("Swap route A"),
            tags: vec![dex.clone(), stable],
            owner: admin.clone(),
        }),
    );
    client.register_route(
        &admin,
        &route_b,
        &addr,
        &Some(RouteMetadata {
            description: text("Swap route B"),
            tags: vec![dex.clone()],
            owner: admin.clone(),
        }),
    );
    client.register_route(
        &admin,
        &route_c,
        &addr,
        &Some(RouteMetadata {
            description: text("Lending route"),
            tags: vec![lending.clone()],
            owner: admin.clone(),
        }),
    );

    let dex_routes = client.get_routes_by_tag(&dex);
    assert_eq!(dex_routes.len(), 2);
    assert_eq!(dex_routes[0], route_a);
    assert_eq!(dex_routes[1], route_b);

    let lending_routes = client.get_routes_by_tag(&lending);
    assert_eq!(lending_routes.len(), 1);
    assert_eq!(lending_routes[0], route_c);
}

#[test]
fn test_add_route_tag_updates_metadata_and_is_idempotent() {
    let (admin, mut client) = setup();
    let name = text("oracle");
    let tag = text("stable");
    let addr = client.generate();

    client.register_route(&admin, &name, &addr, &None);
    client.add_route_tag(&admin, &name, &tag);
    client.add_route_tag(&admin, &name, &tag);

    let metadata = client.get_metadata(&name).unwrap();
    assert_eq!(metadata.tags.len(), 1);
    assert_eq!(metadata.tags[0], tag);

    let routes = client.get_routes_by_tag(&tag);
    assert_eq!(routes.len(), 1);
    assert_eq!(routes[0], name);
}

#[test]
fn test_remove_route_tag_updates_lookup() {
    let (admin, mut client) = setup();
    let name = text("oracle");
    let dex = text("dex");
    let stable = text("stable");
    let addr = client.generate();

    client.register_route(
        &admin,
        &name,
        &addr,
        &Some(RouteMetadata {
            description: text("Oracle route"),
            tags: vec![dex.clone(), stable.clone()],
            owner: admin.clone(),
        }),
    );

    client.remove_route_tag(&admin, &name, &dex);

    assert_eq!(client.get_routes_by_tag(&dex).len(), 0);

    let stable_routes = client.get_routes_by_tag(&stable);
    assert_eq!(stable_routes.len(), 1);
    assert_eq!(stable_routes[0], name);
}

#[test]
fn test_get_all_tags_returns_unique_tags() {
    let (admin, mut client) = setup();
    let addr = client.generate();
    let dex = text("dex");
    let stable = text("stable");
    let beta = text("beta");
    let r1 = text("route-a");
    let r2 = text("route-b");

    client.register_route(
        &admin,
        &r1,
        &addr,
        &Some(RouteMetadata {
            description: text("Route A"),
            tags: vec![dex.clone(), stable.clone()],
            owner: admin.clone(),
        }),
    );
    client.register_route(
        &admin,
        &r2,
        &addr,
        &Some(RouteMetadata {
            description: text("Route B"),
            tags: vec![dex.clone(), beta.clone()],
            owner: admin.clone(),
        }),
    );

    let tags = client.get_all_tags();
    assert_eq!(tags.len(), 3);
    assert!(tags.contains(&dex));
    assert!(tags.contains(&stable));
    assert!(tags.contains(&beta));
}

#[test]
fn test_route_tag_writes_require_admin_and_existing_route() {
    let (admin, mut client) = setup();
    let name = text("oracle");
    let missing = text("missing");
    let tag = text("dex");
    let addr = client.generate();
    let attacker = client.generate();

    client.register_route(&admin, &name, &addr, &None);

    assert_eq!(
        client.try_add_route_tag(&attacker, &name, &tag),
        Err(RouterError::Unauthorized)
    );
    assert_eq!(
        client.try_add_route_tag(&admin, &missing, &tag),
        Err(RouterError::RouteNotFound)
    );
    assert_eq!(
        client.try_remove_route_tag(&admin, &missing, &tag),
        Err(RouterError::RouteNotFound)
    );
}

#[test]
fn test_register_route_with_ttl_and_resolve_before_expiry() {
    let (admin, mut client) = setup();
    let name = text("temp-route");
    let addr = client.generate();
    client.register_route_with_ttl(&admin, &name, &addr, &Some(100));
    assert_eq!(client.resolve(&name), addr);
}

#[test]
fn test_register_route_with_ttl_none_is_permanent() {
    let (admin, mut client) = setup();
    let name = text("permanent-route");
    let addr = client.generate();
    client.register_route_with_ttl(&admin, &name, &addr, &None);
    assert_eq!(client.get_route_expiry(&name), None);

    client.sequence += 1_000_000;
    assert_eq!(client.resolve(&name), addr);
}

#[test]
fn test_register_route_with_ttl_unauthorized() {
    let (_admin, mut client) = setup();
    let attacker = client.generate();
    let name = text("oracle");
    let addr = client.generate();
    let result = client.try_register_route_with_ttl(&attacker, &name, &addr, &Some(10));
    assert_eq!(result, Err(RouterError::Unauthorized));
}

#[test]
fn test_register_route_with_ttl_duplicate_fails() {
    let (admin, mut client) = setup();
    let name = text("oracle");
    let addr = client.generate();
    client.register_route(&admin, &name, &addr, &None);
    let result = client.try_register_route_with_ttl(&admin, &name, &addr, &Some(10));
    assert_eq!(result, Err(RouterError::RouteAlreadyExists));
}

#[test]
fn test_get_route_expiry_returns_expected_values() {
    let (admin, mut client) = setup();
    let ttl_name = text("ttl-route");
    let permanent_name = text("permanent-route");
    let missing_name = text("missing-route");
    let addr = client.generate();

    let start = client.sequence;
    client.register_route_with_ttl(&admin, &ttl_name, &addr, &Some(50));
    client.register_route_with_ttl(&admin, &permanent_name, &addr, &None);

    assert_eq!(client.get_route_expiry(&ttl_name), Some(start + 50));
    assert_eq!(client.get_route_expiry(&permanent_name), None);
    assert_eq!(client.get_route_expiry(&missing_name), None);
}

#[test]
fn test_resolve_fails_after_ttl_expires() {
    let (admin, mut client) = setup();
    let name = text("temp-route");
    let addr = client.generate();
    client.register_route_with_ttl(&admin, &name, &addr, &Some(10));

    client.sequence += 11;

    let result = client.try_resolve(&name);
    assert_eq!(result, Err(RouterError::RouteExpired));
}

#[test]
fn test_resolve_succeeds_at_exact_expiry_ledger_then_fails_after() {
    let (admin, mut client) = setup();
    let name = text("temp-route");
    let addr = client.generate();
    let start = client.sequence;
    client.register_route_with_ttl(&admin, &name, &addr, &Some(10));

    // At exactly the expiry ledger, the route is still valid: expiry is
    // only crossed once the current ledger *exceeds* it.
    client.sequence = start + 10;
    assert_eq!(client.resolve(&name), addr);

    client.sequence = start + 11;
    assert_eq!(client.try_resolve(&name), Err(RouterError::RouteExpired));
}

#[test]
fn test_extend_route_ttl_before_expiry() {
    let (admin, mut client) = setup();
    let name = text("temp-route");
    let addr = client.generate();
    let start = client.sequence;
    client.register_route_with_ttl(&admin, &name, &addr, &Some(10));

    client.extend_route_ttl(&admin, &name, &20);
    assert_eq!(client.get_route_expiry(&name), Some(start + 30));

    // Would have expired under the original TTL, but the extension covers it.
    client.sequence = start + 25;
    assert_eq!(client.resolve(&name), addr);
}

#[test]
fn test_extend_route_ttl_after_expiry_fails() {
    let (admin, mut client) = setup();
    let name = text("temp-route");
    let addr = client.generate();
    let start = client.sequence;
    client.register_route_with_ttl(&admin, &name, &addr, &Some(10));

    client.sequence = start + 11;

    let result = client.try_extend_route_ttl(&admin, &name, &20);
    assert_eq!(result, Err(RouterError::RouteExpired));
}

#[test]
fn test_extend_route_ttl_on_permanent_route_sets_new_ttl() {
    let (admin, mut client) = setup();
    let name = text("oracle");
    let addr = client.generate();
    client.register_route(&admin, &name, &addr, &None);
    assert_eq!(client.get_route_expiry(&name), None);

    let now = client.sequence;
    client.extend_route_ttl(&admin, &name, &15);
    assert_eq!(client.get_route_expiry(&name), Some(now + 15));
}

#[test]
fn test_extend_route_ttl_route_not_found() {
    let (admin, mut client) = setup();
    let missing = text("missing");
    let result = client.try_extend_route_ttl(&admin, &missing, &10);
    assert_eq!(result, Err(RouterError::RouteNotFound));
}

#[test]
fn test_extend_route_ttl_unauthorized() {
    let (admin, mut client) = setup();
    let name = text("oracle");
    let addr = client.generate();
    let attacker = client.generate();
    client.register_route_with_ttl(&admin, &name, &addr, &Some(10));

    let result = client.try_extend_route_ttl(&attacker, &name, &5);
    assert_eq!(result, Err(RouterError::Unauthorized));
}

#[test]
fn test_get_all_routes_excludes_expired() {
    let (admin, mut client) = setup();
    let temp = text("temp-route");
    let permanent = text("permanent-route");
    let addr = client.generate();

    client.register_route_with_ttl(&admin, &temp, &addr, &Some(5));
    client.register_route(&admin, &permanent, &addr, &None);

    let routes = client.get_all_routes();
    assert_eq!(routes.len(), 2);

    client.sequence += 6;

    let routes = client.get_all_routes();
    assert_eq!(routes.len(), 1);
    assert!(routes.contains(&permanent));
    assert!(!routes.contains(&temp));
}

#[test]
fn test_resolve_falls_back_when_cached_best_route_expires() {
    let (admin, mut client) = setup();
    let scored = text("scored-route");
    let other = text("other-route");
    let addr1 = client.generate();
    let addr2 = client.generate();

    client.register_route_with_ttl(&admin, &scored, &addr1, &Some(5));
    client.register_route(&admin, &other, &addr2, &None);

    client.set_route_score(
        &admin,
        &scored,
        &RouteScore {
            liquidity_score: 80,
            fee_bps: 10,
            reliability_score: 90,
        },
    );

    // The scored route is cached as best and wins resolution regardless of
    // the requested name, per the existing score-based selection behavior.
    assert_eq!(client.resolve(&other), addr1);

    // Once it expires, the stale cache must not poison resolution for
    // unrelated routes: this call should fall back to the requested route.
    client.sequence += 6;
    assert_eq!(client.resolve(&other), addr2);
}

#[test]
fn test_register_and_resolve() {
    let (admin, mut client) = setup();
    let name = text("oracle");
    let addr = client.generate();
    client.register_route(&admin, &name, &addr, &None);
    let resolved = client.resolve(&name);
    assert_eq!(resolved, addr);
    assert_eq!(client.total_routed(), 1);

    let reg_event = client
        .core
        .events
        .iter()
        .find(|e| e.topic() == "route_registered")
        .unwrap();
    assert_eq!(*reg_event, RouterEvent::RouteRegistered { name, address: addr });
}

#[test]
fn test_paused_route_emits_event() {
    let (admin, mut client) = setup();
    let name = text("oracle");
    let addr = client.generate();
    client.register_route(&admin, &name, &addr, &None);
    client.set_route_paused(&admin, &name, &true);

    let _ = client.try_resolve(&name);

    assert_eq!(client.last_event().topic(), "route_resolve_paused");
    assert_eq!(*client.last_event(), RouterEvent::RouteResolvePaused { name });
}

#[test]
fn test_transfer_admin_emits_event() {
    let (admin, mut client) = setup();
    let new_admin = client.generate();

    client.transfer_admin(&admin, &new_admin);

    assert_eq!(client.last_event().topic(), "admin_transferred");
}

#[test]
fn test_update_route_emits_overwritten_event() {
    let (admin, mut client) = setup();
    let name = text("oracle");
    let addr1 = client.generate();
    let addr2 = client.generate();
    client.register_route(&admin, &name, &addr1, &None);

    let events_before = client.core.events.len();
    client.update_route(&admin, &name, &addr2);
    let events_after = client.core.events.len();

    // Two events: route_updated + route_overwritten
    assert_eq!(events_after, events_before + 2);
    assert_eq!(client.last_event().topic(), "route_overwritten");
    assert_eq!(
        *client.last_event(),
        RouterEvent::RouteOverwritten { name, old_address: addr1, new_address: addr2 }
    );
}

#[test]
fn test_metadata_updated_event_includes_metadata() {
    let (admin, mut client) = setup();
    let name = text("oracle");
    let addr = client.generate();
    let metadata = Some(RouteMetadata {
        description: text("Test metadata"),
        tags: vec![text("test")],
        owner: client.generate(),
    });

    client.register_route(&admin, &name, &addr, &None);
    client.update_metadata(&admin, &name, &metadata);

    assert_eq!(client.last_event().topic(), "metadata_updated");
    assert_eq!(*client.last_event(), RouterEvent::MetadataUpdated { name, present: true });
}

#[test]
fn test_metadata_updated_event_when_cleared() {
    let (admin, mut client) = setup();
    let name = text("oracle");
    let addr = client.generate();
    let metadata = Some(RouteMetadata {
        description: text("Initial metadata"),
        tags: vec![text("test")],
        owner: client.generate(),
    });
    client.register_route(&admin, &name, &addr, &metadata);

    client.update_metadata(&admin, &name, &None);

    let meta_event = client
        .core
        .events
        .iter()
        .find(|e| e.topic() == "metadata_updated")
        .unwrap();
    assert_eq!(*meta_event, RouterEvent::MetadataUpdated { name, present: false });
}

#[test]
fn test_resolve_alias_to_paused_route_emits_canonical_name() {
    let (admin, mut client) = setup();
    let name = text("oracle");
    let alias = text("oracle-v1");
    let addr = client.generate();
    client.register_route(&admin, &name, &addr, &None);
    client.add_alias(&admin, &name, &alias);
    client.set_route_paused(&admin, &name, &true);

    let _ = client.try_resolve(&alias);

    assert_eq!(client.last_event().topic(), "route_resolve_paused");
    assert_eq!(*client.last_event(), RouterEvent::RouteResolvePaused { name });
    assert_ne!(*client.last_event(), RouterEvent::RouteResolvePaused { name: alias });
}

#[test]
fn test_resolve_expired_route_emits_event() {
    let (admin, mut client) = setup();
    let name = text("temp-route");
    let addr = client.generate();
    client.register_route_with_ttl(&admin, &name, &addr, &Some(1));

    client.sequence += 2;

    let _ = client.try_resolve(&name);
    assert_eq!(client.last_event().topic(), "route_resolve_expired");
}

#[test]
fn test_route_ttl_set_event_emitted() {
    let (admin, mut client) = setup();
    let name = text("temp-route");
    let addr = client.generate();

    client.register_route_with_ttl(&admin, &name, &addr, &Some(10));

    assert!(client.core.events.iter().any(|e| e.topic() == "route_ttl_set"));
}

#[test]
fn test_route_ttl_extended_event_emitted() {
    let (admin, mut client) = setup();
    let name = text("temp-route");
    let addr = client.generate();
    client.register_route_with_ttl(&admin, &name, &addr, &Some(10));

    let events_before = client.core.events.len();
    client.extend_route_ttl(&admin, &name, &5);
    let events_after = client.core.events.len();
    assert_eq!(events_after, events_before + 1);
    assert_eq!(client.last_event().topic(), "route_ttl_extended");
}

#[test]
fn zero_address_is_refused() {
    let (admin, mut client) = setup();
    let zero = text("GAAAAAAAAAAAAAAAAAAAAAAAAAAAAAAAAAAAAAAAAAAAAAAAAAAAAWHF");
    assert_eq!(
        client.try_register_route(&admin, &text("oracle"), &zero, &None),
        Err(RouterError::InvalidAddress)
    );
}

#[test]
fn uninitialized_router_refuses_writes() {
    let mut core = RouterCore::new();
    assert_eq!(
        core.set_paused(&text("anyone"), true),
        Err(RouterError::NotInitialized)
    );
    assert_eq!(core.admin(), Err(RouterError::NotInitialized));
}

#[test]
fn longer_circle_is_refused_and_leaves_no_trace() {
    let (admin, mut client) = setup();
    for name in ["a", "b", "c"] {
        let addr = client.generate();
        client.register_route(&admin, &text(name), &addr, &None);
    }
    client.set_route_dependency(&admin, &text("a"), &text("b"));
    client.set_route_dependency(&admin, &text("b"), &text("c"));
    assert_eq!(
        client.try_set_route_dependency(&admin, &text("c"), &text("a")),
        Err(RouterError::CircularDependency)
    );
    assert_eq!(client.get_route_dependencies(&text("c")), Vec::<String>::new());
    assert_eq!(
        client.try_set_route_dependency(&admin, &text("a"), &text("ghost")),
        Err(RouterError::RouteNotFound)
    );
}

#[test]
fn shared_dependency_is_resolved_once() {
    let (admin, mut client) = setup();
    for name in ["top", "left", "right", "base"] {
        let addr = text(name) + "-address";
        client.register_route(&admin, &text(name), &addr, &None);
    }
    client.set_route_dependency(&admin, &text("top"), &text("right"));
    client.set_route_dependency(&admin, &text("top"), &text("left"));
    client.set_route_dependency(&admin, &text("left"), &text("base"));
    client.set_route_dependency(&admin, &text("right"), &text("base"));
    client.set_route_dependency(&admin, &text("top"), &text("right"));
    assert_eq!(
        client.resolve_with_dependencies(&text("top")),
        vec![
            (text("base"), text("base-address")),
            (text("right"), text("right-address")),
            (text("left"), text("left-address")),
            (text("top"), text("top-address")),
        ]
    );
    client.set_route_paused(&admin, &text("base"), &true);
    assert_eq!(
        client.core.resolve_with_dependencies(&text("top")),
        Err(RouterError::RoutePaused)
    );
    assert_eq!(
        client.core.resolve_with_dependencies(&text("ghost")),
        Err(RouterError::RouteNotFound)
    );
    client.set_paused(&admin, &true);
    assert_eq!(
        client.core.resolve_with_dependencies(&text("top")),
        Err(RouterError::RouterPaused)
    );
}

#[test]
fn dependencies_of_a_removed_route_are_kept_for_its_name() {
    let (admin, mut client) = setup();
    for name in ["dex", "oracle"] {
        let addr = client.generate();
        client.register_route(&admin, &text(name), &addr, &None);
    }
    client.set_route_dependency(&admin, &text("dex"), &text("oracle"));
    client.remove_route(&admin, &text("dex"));
    client.remove_route(&admin, &text("oracle"));
    let addr = client.generate();
    client.register_route(&admin, &text("dex"), &addr, &None);
    assert_eq!(
        client.core.resolve_with_dependencies(&text("dex")),
        Err(RouterError::RouteNotFound)
    );
}

#[test]
fn batch_removal_forgets_dependencies() {
    let (admin, mut client) = setup();
    for name in ["dex", "oracle"] {
        let addr = client.generate();
        client.register_route(&admin, &text(name), &addr, &None);
    }
    client.set_route_dependency(&admin, &text("dex"), &text("oracle"));
    let result =
        client.remove_routes_batch(&admin, &vec![text("oracle"), text("dex")], &false);
    assert_eq!(result.successes.len(), 1);
    assert_eq!(result.successes[0].index, 1);
    assert_eq!(result.failures[0].index, 0);
    assert_eq!(result.failures[0].message, "RouteInUse");
    let addr = client.generate();
    client.register_route(&admin, &text("dex"), &addr, &None);
    assert_eq!(client.get_route_dependencies(&text("dex")), Vec::<String>::new());
}

#[test]
fn fail_fast_batches_change_nothing_when_a_name_is_refused() {
    let (admin, mut client) = setup();
    let routes = vec![
        RouteRegisterInput { name: text("oracle"), address: text("a") },
        RouteRegisterInput { name: text("oracle"), address: text("b") },
    ];
    let result = client.register_routes_batch(&admin, &routes, &true);
    assert!(result.successes.is_empty());
    assert_eq!(result.failures[0].index, 1);
    assert_eq!(result.failures[0].message, "RouteAlreadyExists");
    assert_eq!(client.route_count(), 0);

    let routes = vec![
        RouteRegisterInput { name: text("oracle"), address: text("a") },
        RouteRegisterInput { name: text("bad_name"), address: text("b") },
    ];
    let result = client.register_routes_batch(&admin, &routes, &true);
    assert_eq!(result.failures[0].message, "InvalidRouteName");
    assert_eq!(client.route_count(), 0);

    let routes = vec![
        RouteRegisterInput { name: text("oracle"), address: text("a") },
        RouteRegisterInput { name: text("vault"), address: text("b") },
    ];
    let result = client.register_routes_batch(&admin, &routes, &true);
    assert_eq!(result.successes.len(), 2);
    assert_eq!(client.resolve(&text("vault")), "b");

    let result =
        client.remove_routes_batch(&admin, &vec![text("oracle"), text("ghost")], &true);
    assert!(result.successes.is_empty());
    assert_eq!(result.failures[0].index, 1);
    assert_eq!(result.failures[0].message, "RouteNotFound");
    assert_eq!(client.route_count(), 2);

    let result =
        client.remove_routes_batch(&admin, &vec![text("oracle"), text("vault")], &true);
    assert_eq!(result.successes.len(), 2);
    assert_eq!(client.route_count(), 0);
}

#[test]
fn fail_fast_batches_return_later_errors() {
    let (admin, mut client) = setup();
    let zero = text("GAAAAAAAAAAAAAAAAAAAAAAAAAAAAAAAAAAAAAAAAAAAAAAAAAAAAWHF");
    let routes = vec![
        RouteRegisterInput { name: text("swap"), address: text("s") },
        RouteRegisterInput { name: text("oracle"), address: zero },
    ];
    assert_eq!(
        client.core.register_routes_batch(&admin, &routes, true),
        Err(RouterError::InvalidAddress)
    );
    assert!(client.core.route_names.is_empty());
    assert!(client.core.events.is_empty());
    client.register_route(&admin, &text("vault"), &text("v"), &None);
    client.register_route(&admin, &text("oracle"), &text("o"), &None);
    client.register_route(&admin, &text("swap"), &text("s"), &None);
    client.core.set_route_dependency(&admin, text("swap"), text("oracle")).unwrap();
    let published = client.core.events.len();
    assert_eq!(
        client.core.remove_routes_batch(&admin, &vec![text("vault"), text("vault")], true, 0),
        Err(RouterError::RouteNotFound)
    );
    assert_eq!(
        client.core.remove_routes_batch(&admin, &vec![text("vault"), text("oracle")], true, 0),
        Err(RouterError::RouteInUse)
    );
    assert_eq!(client.core.route_names, vec![text("vault"), text("oracle"), text("swap")]);
    assert_eq!(client.core.events.len(), published);
    let result = client
        .core
        .remove_routes_batch(&admin, &vec![text("swap"), text("oracle")], true, 0)
        .unwrap();
    assert_eq!(result.successes.len(), 2);
    assert!(result.failures.is_empty());
    assert_eq!(client.core.route_names, vec![text("vault")]);
    assert_eq!(
        client.core.remove_routes_batch(&text("stranger"), &vec![], true, 0),
        Err(RouterError::Unauthorized)
    );
}

#[test]
fn fallback_stands_in_where_no_candidate_can_be_selected() {
    let (_, mut client) = setup();
    let fallback = Some(text("vault"));
    let best = client.get_best_route(&vec![text("ghost")], &i64::MIN, &fallback);
    assert_eq!(best, Some(text("vault")));
    assert_eq!(client.get_best_route(&vec![], &i64::MIN, &None), None);
}

#[test]
fn description_is_limited_in_characters() {
    let (admin, mut client) = setup();
    client.register_route(&admin, &text("oracle"), &text("o"), &None);
    let described = |n: usize| {
        Some(RouteMetadata {
            description: text(&"\u{e9}".repeat(n)),
            tags: vec![],
            owner: text("owner"),
        })
    };
    assert_eq!(client.core.update_metadata(&admin, text("oracle"), described(256)), Ok(()));
    assert_eq!(
        client.core.update_metadata(&admin, text("oracle"), described(257)),
        Err(RouterError::InvalidMetadata)
    );
}

#[test]
fn sixth_tag_is_refused() {
    let (admin, mut client) = setup();
    let name = text("oracle");
    let addr = client.generate();
    client.register_route(&admin, &name, &addr, &None);
    for tag in ["a", "b", "c", "d", "e"] {
        client.add_route_tag(&admin, &name, &text(tag));
    }
    assert_eq!(
        client.try_add_route_tag(&admin, &name, &text("f")),
        Err(RouterError::InvalidMetadata)
    );
    assert_eq!(client.try_add_route_tag(&admin, &name, &text("a")), Ok(()));
    let metadata = client.get_metadata(&name).unwrap();
    assert_eq!(metadata.tags, vec!["a", "b", "c", "d", "e"]);
    assert_eq!(metadata.description, "");
    assert_eq!(metadata.owner, admin);
    let events = client.core.events.len();
    client.remove_route_tag(&admin, &name, &text("ghost"));
    assert_eq!(client.core.events.len(), events);
    client.remove_route_tag(&admin, &name, &text("c"));
    assert_eq!(client.get_all_tags(), vec!["a", "b", "d", "e"]);
}

#[test]
fn first_of_equally_good_routes_is_best() {
    let (admin, mut client) = setup();
    let score = RouteScore { liquidity_score: 10, fee_bps: 19, reliability_score: 5 };
    for name in ["first", "second"] {
        let addr = text(name);
        client.register_route(&admin, &text(name), &addr, &None);
        client.set_route_score(&admin, &text(name), &score);
    }
    assert_eq!(
        *client.last_event(),
        RouterEvent::BestRouteSelected { name: text("first"), composite: 14 }
    );
    assert_eq!(client.resolve(&text("second")), "first");
}

#[test]
fn removing_a_route_frees_its_name_and_aliases() {
    let (admin, mut client) = setup();
    client.register_route(&admin, &text("oracle"), &text("o"), &None);
    client.register_route(&admin, &text("vault"), &text("v"), &None);
    client.add_alias(&admin, &text("oracle"), &text("price"));
    client.add_alias(&admin, &text("vault"), &text("safe"));
    client.remove_route(&admin, &text("oracle"));
    assert_eq!(client.get_alias_target(&text("price")), None);
    assert_eq!(client.get_alias_target(&text("safe")), Some(text("vault")));
    client.register_route(&admin, &text("price"), &text("p"), &None);
    client.register_route(&admin, &text("oracle"), &text("o2"), &None);
    assert_eq!(client.get_all_routes(), vec!["vault", "price", "oracle"]);
}

#[test]
fn full_counters_do_not_hide_errors() {
    let (admin, mut client) = setup();
    let stranger = client.generate();
    let route = client.generate();
    let name = text("oracle");
    client.register_route(&admin, &name, &route, &None);
    client.core.route_count = u32::MAX;
    client.core.total_routed = u64::MAX;
    assert_eq!(
        client.core.register_route(&stranger, text("vault"), route.clone(), None),
        Err(RouterError::Unauthorized)
    );
    assert_eq!(
        client.core.register_route(&admin, name.clone(), route.clone(), None),
        Err(RouterError::RouteAlreadyExists)
    );
    let input = RouteRegisterInput { name: text("vault"), address: route.clone() };
    assert_eq!(
        client.core.register_routes_batch(&stranger, &vec![input], false).err(),
        Some(RouterError::Unauthorized)
    );
    assert_eq!(client.try_resolve(&text("vault")), Err(RouterError::RouteNotFound));
    assert_eq!(
        client.batch_resolve(&vec![text("vault")]),
        vec![BatchResolveResult::Failed(ResolveError::RouteNotFound)]
    );
}

#[test]
fn checks_answer_as_the_calls_do_and_change_nothing() {
    let (admin, mut client) = setup();
    let stranger = client.generate();
    let route = client.generate();
    let name = text("oracle");
    let core = &client.core;
    assert_eq!(core.require_admin(&admin), Ok(()));
    assert_eq!(core.require_admin(&stranger), Err(RouterError::Unauthorized));
    assert_eq!(core.check_registration(&admin, &name, &route, &None), Ok(()));
    assert_eq!(
        core.check_registration(&stranger, &name, &route, &None),
        Err(RouterError::Unauthorized)
    );
    assert_eq!(
        core.check_registration(&admin, &text("no spaces"), &route, &None),
        Err(RouterError::InvalidRouteName)
    );
    assert_eq!(core.check_resolution(&name, 0), Err(RouterError::RouteNotFound));

    client.core.register_route_with_ttl(&admin, name.clone(), route.clone(), Some(5), 0).unwrap();
    let events = client.core.events.len();
    assert_eq!(
        client.core.check_registration(&admin, &name, &route, &None),
        Err(RouterError::RouteAlreadyExists)
    );
    assert_eq!(client.core.check_resolution(&name, 4), Ok(route.clone()));
    assert_eq!(client.core.check_resolution(&name, 6), Err(RouterError::RouteExpired));
    client.core.set_route_paused(&admin, name.clone(), true, 0).unwrap();
    assert_eq!(client.core.check_resolution(&name, 4), Err(RouterError::RoutePaused));
    assert_eq!(client.core.total_routed(), 0);
    assert_eq!(client.core.route_count(), 1);
    assert_eq!(client.core.events.len(), events + 1);
}

#[test]
fn initialization_starts_the_router_afresh() {
    let mut core = RouterCore::new();
    core.paused = true;
    core.total_routed = 7;
    core.route_count = 2;
    core.route_names = vec![text("stale")];
    core.aliases.insert(text("old"), text("stale"));
    core.initialize(text("admin")).unwrap();
    assert!(!core.paused);
    assert_eq!(core.total_routed(), 0);
    assert_eq!(core.route_count(), 0);
    assert!(core.route_names.is_empty());
    assert!(core.aliases.entries.is_empty());

    core.paused = true;
    assert_eq!(core.initialize(text("other")), Err(RouterError::AlreadyInitialized));
    assert!(core.paused);
    assert_eq!(core.admin(), Ok(text("admin")));
}
