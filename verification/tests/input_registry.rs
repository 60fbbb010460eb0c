use tower_defense::input_handlers::{
    build_registry, create_combined_grid_handler, create_standard_fkey_handlers, register_standard_handlers,
    F1DebugVisualizationHandler, F9CheatMenuHandler, InputRegistryPlugin, InputRegistryPluginBuilder,
};
use tower_defense::input_registry::{InputContext, InputHandler, InputMappingRegistry, KeyCode};

#[test]
fn test_registry_creation() {
    let registry = InputMappingRegistry::new();
    let stats = registry.get_stats();

    assert_eq!(stats.total_handlers, 0);
    assert_eq!(stats.total_keys, 0);
    assert_eq!(stats.total_conflicts, 0);
}

#[test]
fn test_handler_registration() {
    let mut registry = InputMappingRegistry::new();
    let handler = F1DebugVisualizationHandler.handler();

    let result = registry.register_handler(handler);
    assert!(result.is_ok());

    let stats = registry.get_stats();
    assert_eq!(stats.total_handlers, 1);
    assert_eq!(stats.total_keys, 1);
}

#[test]
fn test_conflict_detection() {
    let mut registry = InputMappingRegistry::new();

    let handler1 = F1DebugVisualizationHandler.handler();
    let handler2 = F1DebugVisualizationHandler.handler();

    registry.register_handler(handler1).unwrap();
    let result = registry.register_handler(handler2);

    assert!(result.is_err() || registry.get_conflicts().len() > 0);
}

#[test]
fn test_priority_ordering() {
    let mut registry = InputMappingRegistry::new();
    let handlers = create_standard_fkey_handlers();

    for handler in handlers {
        registry.register_handler(handler).unwrap();
    }

    let f9_handler = registry.get_primary_handler(KeyCode::F9).unwrap();
    assert_eq!(f9_handler.get_id(), "cheat_menu");
    assert_eq!(f9_handler.get_priority(), 40);
}

#[test]
fn test_macro_handler_creation() {
    let handler = InputHandler::new("test_handler", "Test handler for F5", 25, InputContext::Game, vec![KeyCode::F5]);
    assert_eq!(handler.get_id(), "test_handler");
    assert_eq!(handler.get_priority(), 25);
    assert!(handler.handles_key(KeyCode::F5));
    assert!(!handler.handles_key(KeyCode::F6));
}

#[test]
fn duplicate_id_is_refused_with_message_and_no_change() {
    let mut registry = InputMappingRegistry::new();
    registry.register_handler(F1DebugVisualizationHandler.handler()).unwrap();
    let err = registry.register_handler(F1DebugVisualizationHandler.handler()).unwrap_err();
    assert_eq!(err, "Handler with ID 'debug_visualization' is already registered");
    let stats = registry.get_stats();
    assert_eq!(stats.total_handlers, 1);
    assert_eq!(stats.total_keys, 1);
    assert_eq!(stats.total_conflicts, 0);
    assert_eq!(registry.get_handlers_for_key(KeyCode::F1).unwrap().len(), 1);
}

#[test]
fn shared_key_records_conflict_and_orders_by_priority() {
    let mut registry = InputMappingRegistry::new();
    registry
        .register_handler(InputHandler::new("low", "low", 10, InputContext::Game, vec![KeyCode::F5]))
        .unwrap();
    registry
        .register_handler(InputHandler::new("high", "high", 90, InputContext::UI, vec![KeyCode::F5]))
        .unwrap();
    registry
        .register_handler(InputHandler::new("mid_a", "a", 50, InputContext::Debug, vec![KeyCode::F5]))
        .unwrap();
    registry
        .register_handler(InputHandler::new("mid_b", "b", 50, InputContext::Debug, vec![KeyCode::F5]))
        .unwrap();
    let ids: Vec<String> = registry
        .get_handlers_for_key(KeyCode::F5)
        .unwrap()
        .iter()
        .map(|h| h.get_id().to_string())
        .collect();
    assert_eq!(ids, vec!["high", "mid_a", "mid_b", "low"]);
    assert_eq!(registry.get_primary_handler(KeyCode::F5).unwrap().get_id(), "high");
    let conflicts = registry.get_conflicts();
    assert_eq!(conflicts.len(), 1 + 2 + 3);
    assert_eq!(conflicts[0].handler1, "low");
    assert_eq!(conflicts[0].handler2, "high");
    assert_eq!(conflicts[0].priority1, 10);
    assert_eq!(conflicts[0].priority2, 90);
    assert_eq!(conflicts[0].key, KeyCode::F5);
}

#[test]
fn unregister_after_register_restores_registry() {
    let mut registry = InputMappingRegistry::new();
    for handler in create_standard_fkey_handlers() {
        registry.register_handler(handler).unwrap();
    }
    let before = registry.get_binding_summary();
    let before_stats = registry.get_stats();
    registry.register_handler(create_combined_grid_handler()).unwrap();
    assert_eq!(registry.get_stats().total_conflicts, 2);
    registry.unregister_handler("grid_system_combined").unwrap();
    assert_eq!(registry.get_binding_summary(), before);
    let after = registry.get_stats();
    assert_eq!(after.total_handlers, before_stats.total_handlers);
    assert_eq!(after.total_keys, before_stats.total_keys);
    assert_eq!(after.total_conflicts, 0);
}

#[test]
fn unregister_unknown_handler_is_refused() {
    let mut registry = InputMappingRegistry::new();
    let err = registry.unregister_handler("nobody").unwrap_err();
    assert_eq!(err, "Handler 'nobody' is not registered");
}

#[test]
fn unregister_drops_empty_keys_and_conflicts() {
    let mut registry = InputMappingRegistry::new();
    registry.register_handler(F9CheatMenuHandler.handler()).unwrap();
    registry
        .register_handler(InputHandler::new("other", "other F9", 5, InputContext::System, vec![KeyCode::F9, KeyCode::F12]))
        .unwrap();
    assert_eq!(registry.get_conflicts().len(), 1);
    registry.unregister_handler("cheat_menu").unwrap();
    assert_eq!(registry.get_conflicts().len(), 0);
    assert_eq!(registry.get_primary_handler(KeyCode::F9).unwrap().get_id(), "other");
    registry.unregister_handler("other").unwrap();
    assert!(registry.get_handlers_for_key(KeyCode::F9).is_none());
    assert!(registry.get_handlers_for_key(KeyCode::F12).is_none());
    assert_eq!(registry.get_stats().total_keys, 0);
}

#[test]
fn stats_count_entries_per_context() {
    let mut registry = InputMappingRegistry::new();
    let errors = register_standard_handlers(&mut registry, false);
    assert!(errors.is_empty());
    let stats = registry.get_stats();
    assert_eq!(stats.total_handlers, 5);
    assert_eq!(stats.total_keys, 5);
    assert_eq!(stats.handlers_by_context.debug, 2);
    assert_eq!(stats.handlers_by_context.game, 2);
    assert_eq!(stats.handlers_by_context.admin, 1);
    assert_eq!(stats.handlers_by_context.ui, 0);
    assert_eq!(stats.handlers_by_context.system, 0);
}

#[test]
fn standard_registration_twice_reports_refusals() {
    let mut registry = InputMappingRegistry::new();
    register_standard_handlers(&mut registry, false);
    let errors = register_standard_handlers(&mut registry, false);
    assert_eq!(errors.len(), 5);
    assert_eq!(errors[4], "Handler with ID 'cheat_menu' is already registered");
}

#[test]
fn combined_grid_startup_binds_f3_and_f4_to_one_handler() {
    let mut registry = InputMappingRegistry::new();
    register_standard_handlers(&mut registry, true);
    let stats = registry.get_stats();
    assert_eq!(stats.total_handlers, 4);
    assert_eq!(stats.total_keys, 5);
    assert_eq!(registry.get_primary_handler(KeyCode::F3).unwrap().get_id(), "grid_system_combined");
    assert_eq!(registry.get_primary_handler(KeyCode::F4).unwrap().get_id(), "grid_system_combined");
}

#[test]
fn binding_summary_lists_id_and_priority() {
    let mut registry = InputMappingRegistry::new();
    registry.register_handler(F9CheatMenuHandler.handler()).unwrap();
    let summary = registry.get_binding_summary();
    assert_eq!(summary, vec![(KeyCode::F9, vec!["cheat_menu (p:40)".to_string()])]);
}

#[test]
fn clear_keeps_logging_switch() {
    let mut registry = InputMappingRegistry::new();
    registry.set_debug_logging(true);
    register_standard_handlers(&mut registry, false);
    registry.clear();
    assert!(registry.is_debug_logging());
    assert_eq!(registry.get_stats().total_handlers, 0);
    assert!(!registry.is_registered("debug_ui"));
}

#[test]
fn plugin_builder_and_registry_set_up() {
    let plugin = InputRegistryPluginBuilder::new().with_debug_logging().with_combined_grid_handler().build();
    assert!(plugin.debug_logging && plugin.use_combined_grid_handler && plugin.auto_register_fkeys);
    let (registry, errors) = build_registry(&plugin);
    assert!(errors.is_empty());
    assert!(registry.is_debug_logging());
    assert_eq!(registry.get_stats().total_handlers, 4);
    let quiet = InputRegistryPluginBuilder::new().without_auto_registration().build();
    let (empty, _) = build_registry(&quiet);
    assert_eq!(empty.get_stats().total_handlers, 0);
    assert_eq!(InputRegistryPlugin::default(), InputRegistryPluginBuilder::default().build());
}

#[test]
fn handler_copies_and_defaults() {
    let h = InputHandler::with_defaults("x", "desc", vec![KeyCode::KeyM, KeyCode::KeyR]);
    assert_eq!(h.get_priority(), 50);
    assert_eq!(h.get_context(), InputContext::Game);
    let d = h.duplicate();
    assert_eq!(d.get_id(), "x");
    assert_eq!(d.get_description(), "desc");
    assert_eq!(d.get_handled_keys(), vec![KeyCode::KeyM, KeyCode::KeyR]);
}
