use nuclaw::providers::{
    provider_registry, providers, ChatMessage, ChatResponse, ProviderConfig, ProviderRegistry,
    ProviderSpec,
};

#[test]
fn test_providers_list() {
    let specs = providers();
    let names: Vec<&str> = specs.iter().map(|p| p.name.as_str()).collect();
    assert!(names.contains(&"anthropic"));
    assert!(names.contains(&"openai"));
    assert!(names.contains(&"openrouter"));
}

#[test]
fn test_provider_spec_fields() {
    let specs = providers();
    let spec = &specs[0];
    assert_eq!(spec.name, "anthropic");
    assert_eq!(spec.api_key_env, "ANTHROPIC_API_KEY");
    assert!(spec.default_model.is_some());
}

#[test]
fn test_provider_registry_new() {
    let registry = ProviderRegistry::new();
    assert!(!registry.list_specs().is_empty());
}

#[test]
fn test_get_spec() {
    let registry = ProviderRegistry::new();
    let spec = registry.get_spec("anthropic");
    assert!(spec.is_some());
    assert_eq!(spec.unwrap().name, "anthropic");
}

#[test]
fn test_get_spec_nonexistent() {
    let registry = ProviderRegistry::new();
    let spec = registry.get_spec("nonexistent");
    assert!(spec.is_none());
}

#[test]
fn test_set_config() {
    let mut registry = ProviderRegistry::new();
    let config = ProviderConfig {
        name: "test".to_string(),
        api_key: Some("key".to_string()),
        base_url: None,
        model: None,
    };
    registry.set_config(config.clone());
    let loaded = registry.get_config("test");
    assert!(loaded.is_some());
    assert_eq!(loaded.unwrap().api_key, Some("key".to_string()));
}

#[test]
fn test_list_specs() {
    let registry = ProviderRegistry::new();
    let specs = registry.list_specs();
    assert!(specs.len() >= 4);
}

#[test]
fn test_provider_registry_function() {
    let registry = provider_registry();
    assert!(!registry.list_specs().is_empty());
}

#[test]
fn test_provider_config_model() {
    let spec = ProviderSpec::new("test", "TEST_KEY", "TEST_URL", Some("default-model"), "desc");
    let config = ProviderConfig::from_values(&spec, None, None, None, None);
    assert_eq!(config.model, Some("default-model".to_string()));
}

#[test]
fn test_provider_config_env_model_override() {
    let spec = ProviderSpec::new("anthropic", "ANTHROPIC_API_KEY", "ANTHROPIC_BASE_URL", Some("default"), "desc");
    let config = ProviderConfig::from_values(&spec, None, None, Some("custom-model".to_string()), None);
    assert_eq!(config.model, Some("custom-model".to_string()));
}

#[test]
fn general_model_override_and_no_default() {
    let spec = ProviderSpec::new("x", "X_KEY", "X_URL", Some("d"), "desc");
    let config = ProviderConfig::from_values(&spec, Some("k".to_string()), None, None, Some("g".to_string()));
    assert_eq!(config.model, Some("g".to_string()));
    assert!(config.is_configured());
    let custom = ProviderSpec::new("custom", "C_KEY", "C_URL", None, "desc");
    let config = ProviderConfig::from_values(&custom, None, None, Some("m".to_string()), None);
    assert_eq!(config.model, None);
    assert!(!config.is_configured());
}

#[test]
fn register_replaces_spec_of_same_name() {
    let mut registry = ProviderRegistry::new();
    registry.register(ProviderSpec::new("openai", "K", "U", None, "replaced"));
    assert_eq!(registry.list_specs().len(), 4);
    assert_eq!(registry.get_spec("openai").unwrap().description, "replaced");
    registry.register(ProviderSpec::new("local", "K", "U", None, "new"));
    assert_eq!(registry.list_specs().len(), 5);
}

#[test]
fn chat_message_roles_and_response_text() {
    assert_eq!(ChatMessage::system("s").role, "system");
    assert_eq!(ChatMessage::user("u").role, "user");
    assert_eq!(ChatMessage::assistant("a").content, "a");
    let r = ChatResponse { text: Some(String::new()) };
    assert!(!r.has_text());
    assert_eq!(r.text_or_empty(), "");
    let r = ChatResponse { text: Some("hi".to_string()) };
    assert!(r.has_text());
    assert_eq!(r.text_or_empty(), "hi");
    let r = ChatResponse { text: None };
    assert!(!r.has_text());
    assert_eq!(r.text_or_empty(), "");
}

fn env(pairs: &[(&str, &str)]) -> Vec<(String, String)> {
    pairs.iter().map(|(k, v)| (k.to_string(), v.to_string())).collect()
}

#[test]
fn load_config_reads_key_url_and_model_override() {
    let registry = ProviderRegistry::new();
    let e = env(&[
        ("ANTHROPIC_API_KEY", "secret"),
        ("ANTHROPIC_BASE_URL", "http://local"),
        ("ANTHROPIC_MODEL", "m1"),
    ]);
    let config = registry.load_config("anthropic", &e, None).unwrap();
    assert_eq!(config.name, "anthropic");
    assert_eq!(config.api_key, Some("secret".to_string()));
    assert_eq!(config.base_url, Some("http://local".to_string()));
    assert_eq!(config.model, Some("m1".to_string()));
    assert!(registry.load_config("nonexistent", &e, None).is_none());
    let plain = registry.load_config("openai", &env(&[]), Some("g".to_string())).unwrap();
    assert_eq!(plain.model, Some("g".to_string()));
    assert!(plain.api_key.is_none());
}

#[test]
fn configured_and_detected_providers() {
    let registry = ProviderRegistry::new();
    assert!(!registry.is_configured("anthropic", &env(&[])));
    assert!(registry.is_configured("anthropic", &env(&[("ANTHROPIC_API_KEY", "k")])));
    assert!(!registry.is_configured("nonexistent", &env(&[("ANTHROPIC_API_KEY", "k")])));
    assert_eq!(registry.detect_provider(&env(&[])), None);
    assert_eq!(
        registry.detect_provider(&env(&[("OPENAI_API_KEY", "k"), ("ANTHROPIC_API_KEY", "k")])),
        Some("anthropic".to_string())
    );
    assert_eq!(
        registry.detect_provider(&env(&[("OPENROUTER_API_KEY", "k")])),
        Some("openrouter".to_string())
    );
}

#[test]
fn set_config_replaces_all_fields() {
    let mut registry = ProviderRegistry::new();
    registry.set_config(ProviderConfig { name: "p".to_string(), api_key: None, base_url: None, model: None });
    registry.set_config(ProviderConfig {
        name: "p".to_string(),
        api_key: Some("k".to_string()),
        base_url: Some("u".to_string()),
        model: Some("m".to_string()),
    });
    let c = registry.get_config("p").unwrap();
    assert_eq!(c.api_key, Some("k".to_string()));
    assert_eq!(c.base_url, Some("u".to_string()));
    assert_eq!(c.model, Some("m".to_string()));
    assert!(registry.get_config("q").is_none());
}
