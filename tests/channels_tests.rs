use nuclaw::channels::{channel_registry, Channel, ChannelRegistry};

struct MockChannel {
    channel_name: String,
    enabled: bool,
}

impl MockChannel {
    fn new(name: &str, enabled: bool) -> Self {
        Self {
            channel_name: name.to_string(),
            enabled,
        }
    }
}

impl Channel for MockChannel {
    fn name(&self) -> &str {
        &self.channel_name
    }

    fn is_enabled(&self) -> bool {
        self.enabled
    }
}

#[test]
fn test_channel_registry_new() {
    let registry = ChannelRegistry::<MockChannel>::new();
    assert!(registry.list().is_empty());
}

#[test]
fn test_register_channel() {
    let mut registry = ChannelRegistry::new();
    registry.register(MockChannel::new("test", true));
    assert!(registry.is_registered("test"));
}

#[test]
fn test_get_channel() {
    let mut registry = ChannelRegistry::new();
    registry.register(MockChannel::new("test", true));
    assert!(registry.is_registered("test"));
}

#[test]
fn test_get_channel_nonexistent() {
    let registry = ChannelRegistry::<MockChannel>::new();
    let channel = registry.get("nonexistent");
    assert!(channel.is_none());
}

#[test]
fn test_list_channels() {
    let mut registry = ChannelRegistry::new();
    registry.register(MockChannel::new("ch1", true));
    registry.register(MockChannel::new("ch2", false));
    let list = registry.list();
    assert_eq!(list.len(), 2);
    assert!(list.contains(&"ch1".to_string()));
    assert!(list.contains(&"ch2".to_string()));
}

#[test]
fn test_is_enabled() {
    let mut registry = ChannelRegistry::new();
    registry.register(MockChannel::new("enabled", true));
    registry.register(MockChannel::new("disabled", false));

    assert!(registry.is_enabled("enabled"));
    assert!(!registry.is_enabled("disabled"));
}

#[test]
fn test_unregister() {
    let mut registry = ChannelRegistry::new();
    registry.register(MockChannel::new("test", true));
    assert!(registry.is_registered("test"));

    registry.unregister("test");
    assert!(!registry.is_registered("test"));
}

#[test]
fn test_channel_name() {
    let channel = MockChannel::new("mychannel", true);
    assert_eq!(channel.name(), "mychannel");
}

#[test]
fn test_channel_registry_function() {
    let registry = channel_registry::<MockChannel>();
    assert!(registry.list().is_empty());
}

#[test]
fn test_register_returns_self() {
    let mut registry = ChannelRegistry::new();
    let result = registry.register(MockChannel::new("test", true));
    assert!(!result.list().is_empty());
}

#[test]
fn register_same_name_replaces_channel() {
    let mut registry = ChannelRegistry::new();
    registry.register(MockChannel::new("x", true));
    registry.register(MockChannel::new("x", false));
    assert_eq!(registry.list().len(), 1);
    assert!(!registry.is_enabled("x"));
    assert!(registry.get("x").is_some());
    assert!(!registry.unregister("missing"));
    assert!(!registry.is_enabled("missing"));
}

#[test]
fn register_named_files_under_given_name() {
    let mut registry = ChannelRegistry::new();
    registry.register_named("first", MockChannel::new("x", true));
    registry.register_named("second", MockChannel::new("x", false));
    let list = registry.list();
    assert_eq!(list, vec!["first".to_string(), "second".to_string()]);
    assert!(registry.is_enabled("first"));
    assert!(!registry.is_enabled("second"));
}
