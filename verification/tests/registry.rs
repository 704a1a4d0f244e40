use conn_tracer::registry::{BuiltinRegistry, ProgramInstance, RegistryManager, WasmRegistry};
use conn_tracer::service_map::ServiceMap;
use conn_tracer::types::ProgramState;

#[test]
fn bootstrap_registers_the_builtin_engine() {
    let rm = RegistryManager::new();
    let got = rm.builtin.get("service_map".to_string());
    match got {
        Some(ProgramInstance::ServiceMap(sm)) => {
            assert_eq!(sm.get_name(), "service_map");
            assert_eq!(sm.get_state(), ProgramState::Uninitialized);
        }
        None => panic!("the engine must be registered at bootstrap"),
    }
    assert!(rm.wasm.list().is_empty());
}

#[test]
fn insert_replaces_and_list_holds_only_the_new_instance() {
    let mut registry = BuiltinRegistry::new();
    registry.register_builtin_progs();

    let mut replacement = ServiceMap::new();
    replacement.set_metadata(vec![("generation".to_string(), "2".to_string())]);
    let previous = registry.insert(
        "service_map".to_string(),
        ProgramInstance::ServiceMap(replacement),
    );
    match previous {
        Some(ProgramInstance::ServiceMap(old)) => assert!(old.get_metadata().is_empty()),
        None => panic!("the first registration must be returned"),
    }

    let listed = registry.list();
    assert_eq!(listed.len(), 1);
    match &listed[0] {
        ProgramInstance::ServiceMap(sm) => assert_eq!(
            sm.get_metadata(),
            vec![("generation".to_string(), "2".to_string())]
        ),
    }
}

#[test]
fn get_and_remove() {
    let mut registry = WasmRegistry::new();
    assert!(registry.get("counter".to_string()).is_none());
    assert!(registry
        .insert("counter".to_string(), ProgramInstance::ServiceMap(ServiceMap::new()))
        .is_none());
    assert!(registry.get("counter".to_string()).is_some());
    assert!(registry.get("other".to_string()).is_none());
    assert!(registry.remove("other".to_string()).is_none());
    assert!(registry.remove("counter".to_string()).is_some());
    assert!(registry.get("counter".to_string()).is_none());
    assert!(registry.list().is_empty());
}
