use cc_switch::paths::{join_path, trim_whitespace};
use cc_switch::json::{JsonNumber, JsonValue};
use cc_switch::{pi_agent_config, pi_config};

fn text(s: &str) -> JsonValue {
    JsonValue::String(s.to_string())
}

fn object(members: Vec<(&str, JsonValue)>) -> JsonValue {
    JsonValue::Object(members.into_iter().map(|(k, v)| (k.to_string(), v)).collect())
}

fn provider_value() -> JsonValue {
    object(vec![
        ("baseUrl", text("https://api.example.com/v1")),
        ("apiKey", text("sk-test")),
        ("api", text("openai-completions")),
        (
            "models",
            JsonValue::Array(vec![object(vec![("id", text("test-model")), ("name", text("Test Model"))])]),
        ),
    ])
}

fn member_text<'a>(value: &'a JsonValue, key: &str) -> Option<&'a str> {
    value.get(key).and_then(|v| v.as_str())
}

#[test]
fn pi_agent_config_read_config_returns_empty_providers_when_file_missing() {
    let config = pi_agent_config::read_config(None);
    let providers = config.get("providers").unwrap();
    match providers {
        JsonValue::Object(members) => assert!(members.is_empty()),
        _ => panic!("providers is not an object"),
    }
}

#[test]
fn pi_config_read_config_returns_empty_providers_when_file_missing() {
    let config = pi_config::read_config(None);
    let providers = config.get("providers").unwrap();
    match providers {
        JsonValue::Object(members) => assert!(members.is_empty()),
        _ => panic!("providers is not an object"),
    }
}

#[test]
fn pi_agent_config_provider_crud_roundtrip() {
    let config = pi_agent_config::read_config(None);
    // Initially no providers
    let providers = pi_agent_config::get_providers(&config);
    assert!(providers.is_empty());

    // Add a provider
    let config = pi_agent_config::set_provider(config, "test", provider_value());

    let providers = pi_agent_config::get_providers(&config);
    assert_eq!(providers.len(), 1);
    assert!(providers.iter().any(|(id, _)| id == "test"));

    let provider = pi_agent_config::get_provider(&config, "test").unwrap();
    assert_eq!(member_text(&provider, "baseUrl"), Some("https://api.example.com/v1"));
    assert_eq!(member_text(&provider, "apiKey"), Some("sk-test"));

    // Remove the provider
    let config = pi_agent_config::remove_provider(config, "test");
    let providers = pi_agent_config::get_providers(&config);
    assert!(providers.is_empty());
}

#[test]
fn pi_config_provider_crud_roundtrip() {
    let config = pi_config::read_config(None);
    let providers = pi_config::get_providers(&config);
    assert!(providers.is_empty());

    let config = pi_config::set_provider(
        config,
        "test",
        object(vec![
            ("baseUrl", text("https://api.example.com/v1")),
            ("apiKey", text("sk-test")),
            ("api", text("openai-completions")),
        ]),
    );
    let providers = pi_config::get_providers(&config);
    assert_eq!(providers.len(), 1);

    let config = pi_config::remove_provider(config, "test");
    let providers = pi_config::get_providers(&config);
    assert!(providers.is_empty());
}

#[test]
fn set_provider_replaces_existing_and_keeps_others() {
    let config = pi_config::set_provider(JsonValue::Null, "a", text("first"));
    let config = pi_config::set_provider(config, "b", text("second"));
    let config = pi_config::set_provider(config, "a", text("third"));
    let providers = pi_config::get_providers(&config);
    assert_eq!(providers.len(), 2);
    assert_eq!(providers[0].0, "a");
    assert_eq!(member_text(&object(vec![("v", pi_config::get_provider(&config, "a").unwrap())]), "v"), Some("third"));
    assert_eq!(pi_config::get_provider(&config, "b").unwrap().as_str(), Some("second"));
    assert!(pi_config::get_provider(&config, "c").is_none());
}

#[test]
fn set_provider_leaves_non_object_providers_alone() {
    let config = object(vec![("providers", text("not an object")), ("other", JsonValue::Bool(true))]);
    let config = pi_config::set_provider(config, "x", text("y"));
    assert_eq!(config.get("providers").and_then(|v| v.as_str()), Some("not an object"));
    assert!(pi_config::get_providers(&config).is_empty());
    assert!(pi_config::get_provider(&config, "x").is_none());
}

#[test]
fn remove_provider_keeps_other_members() {
    let config = object(vec![
        ("version", JsonValue::Number(JsonNumber::PosInt(2))),
        ("providers", object(vec![("a", text("1")), ("b", text("2"))])),
    ]);
    let config = pi_agent_config::remove_provider(config, "a");
    assert_eq!(config.get("version").and_then(|v| v.as_u64()), Some(2));
    let providers = pi_agent_config::get_providers(&config);
    assert_eq!(providers.len(), 1);
    assert_eq!(providers[0].0, "b");
    // removing from a document that is not an object changes nothing
    let array = pi_agent_config::remove_provider(JsonValue::Array(vec![]), "a");
    assert!(matches!(array, JsonValue::Array(ref items) if items.is_empty()));
}

#[test]
fn pi_dir_prefers_trimmed_environment_value() {
    assert_eq!(pi_config::get_pi_dir(Some("  /opt/pi \n"), Some("/home/u")), "/opt/pi");
    assert_eq!(pi_config::get_pi_dir(Some(" \t "), Some("/home/u")), "/home/u/.pi/agent");
    assert_eq!(pi_config::get_pi_dir(None, Some("/home/u/")), "/home/u/.pi/agent");
    assert_eq!(pi_config::get_pi_dir(None, None), "~/.pi/agent");
}

#[test]
fn pi_agent_dir_prefers_override_then_environment() {
    assert_eq!(
        pi_agent_config::get_pi_agent_dir(Some("/custom"), Some("/env"), "/home/u"),
        "/custom"
    );
    assert_eq!(pi_agent_config::get_pi_agent_dir(None, Some(" /env "), "/home/u"), "/env");
    assert_eq!(pi_agent_config::get_pi_agent_dir(None, Some(""), "/home/u"), "/home/u/.pi/agent");
}

#[test]
fn models_path_is_in_the_config_directory() {
    assert_eq!(pi_config::get_models_path("/home/u/.pi/agent"), "/home/u/.pi/agent/models.json");
    assert_eq!(pi_agent_config::get_models_path("/data/"), "/data/models.json");
    assert_eq!(pi_agent_config::get_models_path(""), "models.json");
}

#[test]
fn join_follows_path_join_for_absolute_and_empty_names() {
    assert_eq!(join_path("/a", "/b"), "/b");
    assert_eq!(join_path("/a", ""), "/a/");
    assert_eq!(join_path("", "x"), "x");
}

#[test]
fn trim_whitespace_removes_unicode_spaces_at_both_ends() {
    assert_eq!(trim_whitespace("\u{3000}\t /home/u \u{00A0}\n"), "/home/u");
    assert_eq!(trim_whitespace("a\u{2003}b"), "a\u{2003}b");
    assert_eq!(trim_whitespace("\u{200B}x"), "\u{200B}x");
    assert_eq!(trim_whitespace(" \u{1680}\u{2028} "), "");
}
