use cc_switch::proxy::providers::auth::{mask_secret, AuthInfo, AuthStrategy};

#[test]
fn masked_key_handles_long_and_short_values() {
    let long = AuthInfo::new("sk-1234567890abcdef".to_string(), AuthStrategy::Bearer);
    let short = AuthInfo::new("short".to_string(), AuthStrategy::Bearer);

    assert_eq!(long.masked_key(), "sk-1...cdef");
    assert_eq!(short.masked_key(), "***");
}

#[test]
fn masked_access_token_handles_long_and_short_values() {
    let long = AuthInfo::with_access_token(
        "refresh-token".to_string(),
        "ya29.1234567890abcdef".to_string(),
    );
    let short = AuthInfo::with_access_token("refresh-token".to_string(), "short".to_string());

    assert_eq!(long.masked_access_token(), Some("ya29...cdef".to_string()));
    assert_eq!(short.masked_access_token(), Some("***".to_string()));
}

#[test]
fn all_auth_strategies_are_distinct() {
    let strategies = [
        AuthStrategy::Anthropic,
        AuthStrategy::ClaudeAuth,
        AuthStrategy::Bearer,
        AuthStrategy::Google,
        AuthStrategy::GoogleOAuth,
        AuthStrategy::GitHubCopilot,
        AuthStrategy::CodexOAuth,
    ];

    for (left_index, left) in strategies.iter().enumerate() {
        for (right_index, right) in strategies.iter().enumerate() {
            if left_index == right_index {
                assert_eq!(left, right);
            } else {
                assert_ne!(left, right);
            }
        }
    }
}

#[test]
fn mask_boundary_at_eight_and_nine_characters() {
    assert_eq!(mask_secret("12345678"), "***");
    assert_eq!(mask_secret("123456789"), "1234...6789");
    assert_eq!(mask_secret(""), "***");
}

#[test]
fn mask_counts_characters_not_bytes() {
    // six characters, but eighteen bytes in UTF-8
    assert_eq!(mask_secret("密钥密钥密钥"), "***");
    assert_eq!(mask_secret("密钥一二三四五六七"), "密钥一二...四五六七");
}

#[test]
fn new_auth_info_has_no_access_token() {
    let info = AuthInfo::new("key".to_string(), AuthStrategy::Anthropic);
    assert_eq!(info.strategy, AuthStrategy::Anthropic);
    assert_eq!(info.masked_access_token(), None);
    let oauth = AuthInfo::with_access_token("k".to_string(), "t".to_string());
    assert_eq!(oauth.strategy, AuthStrategy::GoogleOAuth);
    assert_eq!(oauth.api_key, "k");
}
