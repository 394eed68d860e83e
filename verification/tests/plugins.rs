use sandbag::linters::plugin_architecture::{
    BuiltinPluginFactory, LinterPlugin, MarkdownlintPlugin, PluginConfig, PluginManager,
};
use std::collections::HashMap;

#[test]
fn test_plugin_manager_creation() {
    let manager = PluginManager::new();
    let plugin_names = manager.get_plugin_names();
    assert!(plugin_names.contains(&"markdownlint".to_string()));
}

#[test]
fn test_plugin_registration() {
    let mut manager = PluginManager::new();
    let plugin = LinterPlugin::Markdownlint(MarkdownlintPlugin::new());

    manager.register_plugin("test_plugin".to_string(), plugin);
    assert!(manager
        .get_plugin_names()
        .contains(&"test_plugin".to_string()));
}

#[test]
fn test_rule_extraction_with_plugins() {
    let manager = PluginManager::new();
    let input = "MD033: No inline HTML";
    let matches = manager.extract_rules(input);

    assert!(!matches.is_empty());
    assert_eq!(matches[0].rule_id, "MD033");
}

#[test]
fn test_plugin_enable_disable() {
    let mut manager = PluginManager::new();

    manager.disable_plugin("markdownlint");
    let enabled_plugins = manager.get_enabled_plugins();
    assert!(enabled_plugins.is_empty());

    manager.enable_plugin("markdownlint");
    let enabled_plugins = manager.get_enabled_plugins();
    assert!(!enabled_plugins.is_empty());
}

#[test]
fn disabled_plugins_extract_nothing() {
    let mut manager = PluginManager::new();
    manager.disable_plugin("markdownlint");
    assert!(manager.extract_rules("MD033: No inline HTML").is_empty());
}

#[test]
fn unknown_plugin_names_change_nothing() {
    let mut manager = PluginManager::new();
    manager.disable_plugin("nope");
    assert_eq!(manager.get_enabled_plugins().len(), 1);
    assert!(manager.get_plugin("nope").is_none());
    assert!(manager.get_plugin_metadata("nope").is_none());
}

#[test]
fn plugin_input_without_rule_is_not_handled() {
    let plugin = MarkdownlintPlugin::new();
    assert!(plugin.can_handle("MD013/line-length"));
    assert!(!plugin.can_handle("nothing to see"));
}

#[test]
fn listing_orders_by_priority() {
    let mut manager = PluginManager::new();
    let mut plugin = MarkdownlintPlugin::new();
    plugin.set_config(PluginConfig { enabled: true, priority: 200, settings: HashMap::new() });
    manager.register_plugin("high".to_string(), LinterPlugin::Markdownlint(plugin));
    let listed = manager.list_plugins();
    assert_eq!(listed.len(), 2);
    assert_eq!(listed[0].name, "high");
    assert_eq!(listed[0].config.priority, 200);
    assert_eq!(listed[1].name, "markdownlint");
    assert_eq!(listed[1].config.priority, 100);
}

#[test]
fn update_config_replaces_priority() {
    let mut manager = PluginManager::new();
    manager.update_plugin_config(
        "markdownlint",
        PluginConfig { enabled: false, priority: 7, settings: HashMap::new() },
    );
    let listed = manager.list_plugins();
    assert_eq!(listed[0].config.priority, 7);
    assert!(!listed[0].config.enabled);
    assert!(manager.get_enabled_plugins().is_empty());
}

#[test]
fn factory_creates_markdownlint_plugin() {
    let factory = BuiltinPluginFactory;
    let plugin = factory.create_plugin();
    assert_eq!(plugin.metadata().linter_name, "markdownlint");
    assert_eq!(factory.metadata().name, "markdownlint");
}

#[test]
fn disable_then_enable_restores_listing() {
    let mut manager = PluginManager::new();
    manager.disable_plugin("markdownlint");
    manager.disable_plugin("markdownlint");
    let listed = manager.list_plugins();
    assert_eq!(listed.len(), 1);
    assert!(!listed[0].config.enabled);
    manager.enable_plugin("markdownlint");
    let listed = manager.list_plugins();
    assert!(listed[0].config.enabled);
    assert_eq!(listed[0].config.priority, 100);
    assert_eq!(manager.get_enabled_plugins().len(), 1);
}

#[test]
fn initialize_takes_the_configuration_and_loading_changes_nothing() {
    let mut plugin = MarkdownlintPlugin::new();
    plugin.initialize(&PluginConfig { enabled: false, priority: 3, settings: HashMap::new() });
    assert!(!plugin.get_config().enabled);
    assert_eq!(plugin.get_config().priority, 3);
    let mut manager = PluginManager::new();
    manager.load_plugins_from_directory("plugins");
    assert_eq!(manager.get_plugin_names(), vec!["markdownlint".to_string()]);
}
