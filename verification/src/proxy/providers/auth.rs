//! Authentication information for proxied providers and the masking of secrets
//! that are shown in logs and in the UI.

use vstd::prelude::*;
use vstd::string::*;

verus! {

/// The way a provider expects its credentials to be presented.
#[derive(Debug, Clone, Copy, PartialEq, Eq, Structural)]
pub enum AuthStrategy {
    Anthropic,
    ClaudeAuth,
    Bearer,
    Google,
    GoogleOAuth,
    GitHubCopilot,
    CodexOAuth,
}

/// Credentials of one provider.
#[derive(Debug, Clone)]
pub struct AuthInfo {
    pub api_key: String,
    pub strategy: AuthStrategy,
    pub access_token: Option<String>,
}

/// The three characters placed between the kept prefix and suffix of a long secret.
pub open spec fn ellipsis() -> Seq<char> {
    seq!['.', '.', '.']
}

/// What a secret of at most eight characters is shown as.
pub open spec fn stars() -> Seq<char> {
    seq!['*', '*', '*']
}

/// The masked form of a secret: a secret of more than eight characters keeps its
/// first four and last four characters around "...", any other becomes "***".
pub open spec fn mask_spec(secret: Seq<char>) -> Seq<char> {
    if secret.len() > 8 {
        secret.subrange(0, 4) + ellipsis() + secret.subrange(secret.len() - 4, secret.len() as int)
    } else {
        stars()
    }
}

/// A masked secret shows at most eight of its characters: a long secret becomes its
/// first four and last four characters around "..." (eleven characters), any other
/// secret becomes "***" and shows none of them.
pub proof fn law_mask_shows_at_most_eight(secret: Seq<char>)
    ensures
        secret.len() > 8 ==> mask_spec(secret).len() == 11
            && mask_spec(secret).subrange(0, 4) == secret.subrange(0, 4)
            && mask_spec(secret).subrange(4, 7) == seq!['.', '.', '.']
            && mask_spec(secret).subrange(7, 11) == secret.subrange(secret.len() - 4, secret.len() as int),
        secret.len() <= 8 ==> mask_spec(secret) == seq!['*', '*', '*'],
{
    if secret.len() > 8 {
        let m = mask_spec(secret);
        assert(m.subrange(0, 4) =~= secret.subrange(0, 4));
        assert(m.subrange(4, 7) =~= seq!['.', '.', '.']);
        assert(m.subrange(7, 11) =~= secret.subrange(secret.len() - 4, secret.len() as int));
    }
}

/// Masks a secret as `mask_spec` describes.
pub fn mask_secret(secret: &str) -> (masked: String)
    ensures
        masked@ == mask_spec(secret@),
{
    let count = secret.unicode_len();
    if count > 8 {
        let prefix = secret.substring_char(0, 4);
        let suffix = secret.substring_char(count - 4, count);
        let mut masked = String::from_str(prefix);
        masked.append("...");
        masked.append(suffix);
        proof {
            reveal_strlit("...");
            assert(masked@ =~= mask_spec(secret@));
        }
        masked
    } else {
        let masked = String::from_str("***");
        proof {
            reveal_strlit("***");
            assert(masked@ =~= mask_spec(secret@));
        }
        masked
    }
}

impl AuthInfo {
    /// Credentials with an API key and no access token.
    pub fn new(api_key: String, strategy: AuthStrategy) -> (info: Self)
        ensures
            info.api_key == api_key,
            info.strategy == strategy,
            info.access_token.is_none(),
    {
        AuthInfo { api_key, strategy, access_token: None }
    }

    /// Google OAuth credentials: a refresh key together with an access token.
    pub fn with_access_token(api_key: String, access_token: String) -> (info: Self)
        ensures
            info.api_key == api_key,
            info.strategy == AuthStrategy::GoogleOAuth,
            info.access_token == Some(access_token),
    {
        AuthInfo { api_key, strategy: AuthStrategy::GoogleOAuth, access_token: Some(access_token) }
    }

    /// The API key in masked form.
    pub fn masked_key(&self) -> (masked: String)
        ensures
            masked@ == mask_spec(self.api_key@),
    {
        mask_secret(self.api_key.as_str())
    }

    /// The access token in masked form, if there is one.
    pub fn masked_access_token(&self) -> (masked: Option<String>)
        ensures
            match self.access_token {
                Some(token) => masked is Some && masked->0@ == mask_spec(token@),
                None => masked is None,
            },
    {
        match &self.access_token {
            Some(token) => Some(mask_secret(token.as_str())),
            None => None,
        }
    }
}

} // verus!
