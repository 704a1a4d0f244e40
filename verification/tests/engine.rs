use conn_tracer::flow::{
    is_loopback_address, Connection, RawFlowKey, RawFlowStats, CONNECTION_ROLE_CLIENT,
    CONNECTION_ROLE_SERVER,
};
use conn_tracer::resolver::Resolver;
use conn_tracer::service_map::{find_connections_map, ServiceMap, StartEvent, StepOutcome};
use conn_tracer::table::RawTable;
use conn_tracer::types::{
    program_state_code, program_type_code, AgentError, ParseError, ProgramState, ProgramType,
    ShutdownSignal,
};

fn key(src_addr: u32, src_port: u32, dest_addr: u32, dest_port: u32, role: u32) -> RawFlowKey {
    RawFlowKey { src_addr, src_port, dest_addr, dest_port, role }
}

fn active(bytes: u64) -> RawFlowStats {
    RawFlowStats { bytes_sent: bytes, is_active: true }
}

fn inactive(bytes: u64) -> RawFlowStats {
    RawFlowStats { bytes_sent: bytes, is_active: false }
}

const ADDR_A: u32 = 0x0A00_0001;
const ADDR_B: u32 = 0x0A00_0002;

fn two_workload_resolver() -> Resolver {
    let mut resolver = Resolver::new();
    resolver.insert(ADDR_A, 1);
    resolver.insert(ADDR_B, 2);
    resolver
}

#[test]
fn role_symmetric_pair_aggregation() {
    // The pinned client/server collapsing rule: connection equality is
    // structural over client, server, role and server port. Two
    // role-opposite observations of the same physical flow normalize to
    // the same client, server and port but keep their distinct roles, so
    // they stay two entries rather than merging into one total of 150.
    let mut table = RawTable::new();
    table.insert(key(ADDR_A, 1000, ADDR_B, 80, CONNECTION_ROLE_CLIENT), active(100));
    table.insert(key(ADDR_B, 80, ADDR_A, 1000, CONNECTION_ROLE_SERVER), active(50));
    let mut sm = ServiceMap::new();
    sm.init(Vec::new(), two_workload_resolver(), Some(table)).unwrap();
    let totals = sm.poll().unwrap();
    let client_side = Connection { client: 1, server: 2, role: CONNECTION_ROLE_CLIENT, server_port: 80 };
    let server_side = Connection { client: 1, server: 2, role: CONNECTION_ROLE_SERVER, server_port: 80 };
    assert_eq!(totals.len(), 2);
    assert_eq!(totals.total(client_side), 100);
    assert_eq!(totals.total(server_side), 50);
}

#[test]
fn eviction_archives_final_bytes_exactly_once() {
    let k = key(ADDR_A, 1000, ADDR_B, 80, CONNECTION_ROLE_CLIENT);
    let mut table = RawTable::new();
    table.insert(k, active(100));
    let mut sm = ServiceMap::new();
    sm.init(Vec::new(), two_workload_resolver(), Some(table)).unwrap();
    let conn = Connection { client: 1, server: 2, role: CONNECTION_ROLE_CLIENT, server_port: 80 };

    let first = sm.poll().unwrap();
    assert_eq!(first.total(conn), 100);

    // the kernel side observes the socket close: the counter reaches its
    // final value and the activity flag is cleared
    sm.update_flow(k, inactive(120)).unwrap();
    let second = sm.poll().unwrap();
    // marked for eviction: not accumulated in this pass's snapshot
    assert!(!second.contains(conn));
    assert_eq!(second.total(conn), 0);

    // the next poll sees the archived total and no raw entry
    let third = sm.poll().unwrap();
    assert_eq!(third.total(conn), 120);
    assert_eq!(third.len(), 1);

    // exactly once: a further poll does not archive it again
    let fourth = sm.poll().unwrap();
    assert_eq!(fourth.total(conn), 120);
}

#[test]
fn self_connections_and_loopback_never_appear() {
    let loopback: u32 = 0x7F00_0001;
    let mut resolver = two_workload_resolver();
    resolver.insert(loopback, 3);
    let mut table = RawTable::new();
    table.insert(key(ADDR_A, 1000, ADDR_A, 80, CONNECTION_ROLE_CLIENT), active(10));
    table.insert(key(ADDR_A, 1000, loopback, 80, CONNECTION_ROLE_CLIENT), active(20));
    table.insert(key(ADDR_B, 1000, ADDR_B, 81, CONNECTION_ROLE_SERVER), inactive(30));
    table.insert(key(ADDR_B, 1000, loopback, 81, CONNECTION_ROLE_SERVER), inactive(40));
    let mut sm = ServiceMap::new();
    sm.init(Vec::new(), resolver, Some(table)).unwrap();
    let first = sm.poll().unwrap();
    assert_eq!(first.len(), 0);
    // the inactive entries were evicted, but never archived
    let second = sm.poll().unwrap();
    assert_eq!(second.len(), 0);
}

#[test]
fn unresolvable_endpoints_are_skipped_without_error() {
    let unknown: u32 = 0x0A00_0063;
    let mut table = RawTable::new();
    table.insert(key(ADDR_A, 1000, unknown, 80, CONNECTION_ROLE_CLIENT), active(10));
    table.insert(key(unknown, 80, ADDR_B, 1000, CONNECTION_ROLE_SERVER), active(20));
    table.insert(key(unknown, 80, ADDR_B, 1000, CONNECTION_ROLE_CLIENT), inactive(30));
    let mut sm = ServiceMap::new();
    sm.init(Vec::new(), two_workload_resolver(), Some(table)).unwrap();
    let first = sm.poll().unwrap();
    assert_eq!(first.len(), 0);
    let second = sm.poll().unwrap();
    assert_eq!(second.len(), 0);
}

#[test]
fn unknown_role_is_skipped() {
    let mut table = RawTable::new();
    table.insert(key(ADDR_A, 1000, ADDR_B, 80, 0), active(10));
    table.insert(key(ADDR_A, 1000, ADDR_B, 80, 7), active(20));
    let mut sm = ServiceMap::new();
    sm.init(Vec::new(), two_workload_resolver(), Some(table)).unwrap();
    let totals = sm.poll().unwrap();
    assert_eq!(totals.len(), 0);
}

#[test]
fn client_role_selects_destination_port() {
    let mut table = RawTable::new();
    table.insert(key(ADDR_A, 49152, ADDR_B, 443, CONNECTION_ROLE_CLIENT), active(7));
    let mut sm = ServiceMap::new();
    sm.init(Vec::new(), two_workload_resolver(), Some(table)).unwrap();
    let totals = sm.poll().unwrap();
    let conn = Connection { client: 1, server: 2, role: CONNECTION_ROLE_CLIENT, server_port: 443 };
    assert_eq!(totals.total(conn), 7);
    assert_eq!(totals.len(), 1);
}

#[test]
fn server_role_selects_source_port() {
    let mut table = RawTable::new();
    table.insert(key(ADDR_B, 8080, ADDR_A, 49153, CONNECTION_ROLE_SERVER), active(9));
    let mut sm = ServiceMap::new();
    sm.init(Vec::new(), two_workload_resolver(), Some(table)).unwrap();
    let totals = sm.poll().unwrap();
    let conn = Connection { client: 1, server: 2, role: CONNECTION_ROLE_SERVER, server_port: 8080 };
    assert_eq!(totals.total(conn), 9);
    assert_eq!(totals.len(), 1);
}

#[test]
fn repeated_raw_flows_collapse_into_one_connection() {
    // two client-side flows from different ephemeral ports to the same
    // service collapse under one logical connection and their bytes sum
    let mut table = RawTable::new();
    table.insert(key(ADDR_A, 1000, ADDR_B, 80, CONNECTION_ROLE_CLIENT), active(100));
    table.insert(key(ADDR_A, 1001, ADDR_B, 80, CONNECTION_ROLE_CLIENT), active(50));
    let mut sm = ServiceMap::new();
    sm.init(Vec::new(), two_workload_resolver(), Some(table)).unwrap();
    let totals = sm.poll().unwrap();
    let conn = Connection { client: 1, server: 2, role: CONNECTION_ROLE_CLIENT, server_port: 80 };
    assert_eq!(totals.len(), 1);
    assert_eq!(totals.total(conn), 150);
}

#[test]
fn snapshot_sums_live_and_archived_totals() {
    let evicted_key = key(ADDR_A, 1000, ADDR_B, 80, CONNECTION_ROLE_CLIENT);
    let mut table = RawTable::new();
    table.insert(evicted_key, inactive(120));
    let mut sm = ServiceMap::new();
    sm.init(Vec::new(), two_workload_resolver(), Some(table)).unwrap();
    // the first pass archives the finished flow
    sm.poll().unwrap();
    // a new raw flow towards the same logical connection appears
    sm.update_flow(key(ADDR_A, 1002, ADDR_B, 80, CONNECTION_ROLE_CLIENT), active(30))
        .unwrap();
    let totals = sm.poll().unwrap();
    let conn = Connection { client: 1, server: 2, role: CONNECTION_ROLE_CLIENT, server_port: 80 };
    assert_eq!(totals.total(conn), 150);
    assert_eq!(totals.len(), 1);
}

#[test]
fn repeated_polls_do_not_double_count() {
    let mut table = RawTable::new();
    table.insert(key(ADDR_A, 1000, ADDR_B, 80, CONNECTION_ROLE_CLIENT), active(100));
    let mut sm = ServiceMap::new();
    sm.init(Vec::new(), two_workload_resolver(), Some(table)).unwrap();
    let conn = Connection { client: 1, server: 2, role: CONNECTION_ROLE_CLIENT, server_port: 80 };
    assert_eq!(sm.poll().unwrap().total(conn), 100);
    assert_eq!(sm.poll().unwrap().total(conn), 100);
    assert_eq!(sm.poll().unwrap().total(conn), 100);
}

#[test]
fn start_on_uninitialized_engine_fails_deterministically() {
    let mut sm = ServiceMap::new();
    assert_eq!(sm.get_state(), ProgramState::Uninitialized);
    assert_eq!(sm.start_begin(), Err(AgentError::NotInitialized));
    assert_eq!(sm.get_state(), ProgramState::Uninitialized);
}

#[test]
fn poll_without_table_fails() {
    let mut sm = ServiceMap::new();
    assert!(matches!(sm.poll(), Err(AgentError::NoConnectionsMap)));
}

#[test]
fn init_without_binding_fails_and_does_not_advance() {
    let mut sm = ServiceMap::new();
    let r = sm.init(Vec::new(), Resolver::new(), None);
    assert_eq!(r, Err(AgentError::MapBindingFailed));
    assert_eq!(sm.get_state(), ProgramState::Uninitialized);
    assert_eq!(sm.start_begin(), Err(AgentError::NotInitialized));
}

#[test]
fn fatal_poll_error_moves_to_failed_and_tears_down() {
    let mut sm = ServiceMap::new();
    sm.set_state(ProgramState::Running);
    match sm.start_step(StartEvent::Tick) {
        StepOutcome::Fatal(e) => assert_eq!(e, AgentError::NoConnectionsMap),
        _ => panic!("expected a fatal outcome"),
    }
    assert_eq!(sm.get_state(), ProgramState::Failed);
    assert!(sm.get_metadata().is_empty());
}

#[test]
fn shutdown_addressing() {
    let mut table = RawTable::new();
    table.insert(key(ADDR_A, 1000, ADDR_B, 80, CONNECTION_ROLE_CLIENT), active(5));
    let mut sm = ServiceMap::new();
    sm.init(Vec::new(), two_workload_resolver(), Some(table)).unwrap();
    sm.start_begin().unwrap();
    assert_eq!(sm.get_state(), ProgramState::Running);

    match sm.start_step(StartEvent::Tick) {
        StepOutcome::Polled(totals) => assert_eq!(totals.len(), 1),
        _ => panic!("expected a completed pass"),
    }
    assert!(matches!(
        sm.start_step(StartEvent::Shutdown(ShutdownSignal::ProgramName("other".to_string()))),
        StepOutcome::Continue
    ));
    assert_eq!(sm.get_state(), ProgramState::Running);
    assert!(matches!(
        sm.start_step(StartEvent::Shutdown(ShutdownSignal::ProgramName(
            "service_map".to_string()
        ))),
        StepOutcome::Stop
    ));
    assert!(matches!(
        sm.start_step(StartEvent::Shutdown(ShutdownSignal::All)),
        StepOutcome::Stop
    ));

    // the loop's exit path: the engine resets itself
    sm.reset().unwrap();
    assert_eq!(sm.get_state(), ProgramState::Uninitialized);
    assert!(matches!(sm.poll(), Err(AgentError::NoConnectionsMap)));
}

#[test]
fn build_connection_reports_per_sample_errors() {
    let sm = ServiceMap::new();
    // no resolver bound: every endpoint is unknown
    let r = sm.build_connection(key(ADDR_A, 1, ADDR_B, 2, CONNECTION_ROLE_CLIENT));
    assert_eq!(r, Err(AgentError::UnknownIp));

    let mut sm2 = ServiceMap::new();
    let mut table = RawTable::new();
    table.insert(key(ADDR_A, 1, ADDR_B, 2, CONNECTION_ROLE_CLIENT), active(1));
    sm2.init(Vec::new(), two_workload_resolver(), Some(table)).unwrap();
    let r2 = sm2.build_connection(key(ADDR_A, 1, ADDR_B, 2, 9));
    assert_eq!(r2, Err(AgentError::UnknownRole));
}

#[test]
fn loopback_detection() {
    assert!(is_loopback_address(0x7F00_0001));
    assert!(is_loopback_address(0x7FFF_FFFF));
    assert!(!is_loopback_address(0x7E00_0001));
    assert!(!is_loopback_address(0x8000_0001));
}

#[test]
fn accessors_and_metadata() {
    let mut sm = ServiceMap::new();
    assert_eq!(sm.get_name(), "service_map");
    assert_eq!(sm.get_type(), ProgramType::Builtin);
    assert!(sm.get_metadata().is_empty());
    sm.set_metadata(vec![("team".to_string(), "platform".to_string())]);
    assert_eq!(
        sm.get_metadata(),
        vec![("team".to_string(), "platform".to_string())]
    );
    assert!(sm.collect().is_ok());
}

#[test]
fn program_info_schema() {
    let mut sm = ServiceMap::new();
    sm.set_metadata(vec![("k".to_string(), "v".to_string())]);
    let info = sm.get_program_info().unwrap();
    assert_eq!(info.name, "service_map");
    assert_eq!(info.program_type, 0);
    assert_eq!(info.state, 0);
    assert_eq!(info.metadata, vec![("k".to_string(), "v".to_string())]);

    sm.set_state(ProgramState::Running);
    assert_eq!(sm.get_program_info().unwrap().state, 2);

    assert_eq!(program_type_code(ProgramType::Builtin), Ok(0));
    assert_eq!(
        program_type_code(ProgramType::Wasm),
        Err(ParseError::UnsupportedProgramType)
    );
    assert_eq!(program_state_code(ProgramState::Uninitialized), Ok(0));
    assert_eq!(program_state_code(ProgramState::Initialized), Ok(1));
    assert_eq!(program_state_code(ProgramState::Running), Ok(2));
    assert_eq!(program_state_code(ProgramState::Failed), Ok(3));
}

#[test]
fn poll_ready_detects_counter_overflow() {
    let mut table = RawTable::new();
    table.insert(key(ADDR_A, 1000, ADDR_B, 80, CONNECTION_ROLE_CLIENT), active(u64::MAX));
    table.insert(key(ADDR_A, 1001, ADDR_B, 80, CONNECTION_ROLE_CLIENT), active(1));
    let mut sm = ServiceMap::new();
    sm.init(Vec::new(), two_workload_resolver(), Some(table)).unwrap();
    assert!(!sm.poll_ready());

    let mut small = RawTable::new();
    small.insert(key(ADDR_A, 1000, ADDR_B, 80, CONNECTION_ROLE_CLIENT), active(100));
    let mut sm2 = ServiceMap::new();
    sm2.init(Vec::new(), two_workload_resolver(), Some(small)).unwrap();
    assert!(sm2.poll_ready());
    // and trivially ready without a table bound
    assert!(ServiceMap::new().poll_ready());
}

#[test]
fn raw_table_single_entry_operations() {
    let mut table = RawTable::new();
    let k1 = key(ADDR_A, 1, ADDR_B, 2, CONNECTION_ROLE_CLIENT);
    let k2 = key(ADDR_B, 3, ADDR_A, 4, CONNECTION_ROLE_SERVER);
    assert!(table.get(k1).is_none());
    table.insert(k1, active(10));
    table.insert(k2, active(20));
    // insert on an existing key replaces its stats
    table.insert(k1, active(15));
    assert_eq!(table.len(), 2);
    assert_eq!(table.get(k1), Some(active(15)));
    assert_eq!(table.get(k2), Some(active(20)));
    table.remove(k1);
    assert!(table.get(k1).is_none());
    assert_eq!(table.get(k2), Some(active(20)));
    assert_eq!(table.len(), 1);
}

#[test]
fn resolver_lookup() {
    let mut resolver = Resolver::new();
    assert!(resolver.lookup(ADDR_A).is_none());
    resolver.insert(ADDR_A, 1);
    resolver.insert(ADDR_B, 2);
    resolver.insert(ADDR_A, 5);
    assert_eq!(resolver.lookup(ADDR_A), Some(5));
    assert_eq!(resolver.lookup(ADDR_B), Some(2));
    assert!(resolver.lookup(0x0A00_0099).is_none());
}

#[test]
fn connections_map_binding_lookup() {
    let maps = vec![
        ("EVENTS".to_string(), 3u32),
        ("CONNECTIONS".to_string(), 7u32),
        ("CONNECTIONS".to_string(), 9u32),
    ];
    assert_eq!(find_connections_map(&maps), Some(7));
    let missing = vec![("EVENTS".to_string(), 3u32)];
    assert_eq!(find_connections_map(&missing), None);
    assert_eq!(find_connections_map(&Vec::new()), None);
}
