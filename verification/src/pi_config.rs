//! pi's `models.json`: where it lives and how its providers are read and changed.
//! Reading and writing the file is left to the caller; these functions compute the
//! path and the document.

use vstd::prelude::*;
use vstd::string::*;
use crate::json::{lookup, members_view, JsonValue};
use crate::paths::{join_path, join_spec, trim_spec, trim_whitespace};
use crate::provider_document::{
    default_config, default_config_view, provider_of, providers_of, providers_view, remove_provider_spec,
    set_provider_spec, with_provider_removed, with_provider_set,
};

verus! {

/// pi's configuration directory: `PI_CODING_AGENT_DIR` when it holds more than
/// whitespace (trimmed), otherwise `.pi/agent` under the home directory, or under `~`
/// when there is no home directory.
pub open spec fn pi_dir_spec(env_dir: Option<Seq<char>>, home_dir: Option<Seq<char>>) -> Seq<char> {
    match env_dir {
        Some(e) if trim_spec(e).len() > 0 => trim_spec(e),
        _ => {
            let home = match home_dir {
                Some(h) => h,
                None => "~"@,
            };
            join_spec(join_spec(home, ".pi"@), "agent"@)
        },
    }
}

/// pi's configuration directory, from the value of `PI_CODING_AGENT_DIR` and the
/// home directory.
pub fn get_pi_dir(env_dir: Option<&str>, home_dir: Option<&str>) -> (dir: String)
    ensures
        dir@ == pi_dir_spec(
            match env_dir { Some(e) => Some(e@), None => None },
            match home_dir { Some(h) => Some(h@), None => None },
        ),
{
    if let Some(env) = env_dir {
        let trimmed = trim_whitespace(env);
        if trimmed.as_str().unicode_len() > 0 {
            return trimmed;
        }
    }
    let home: &str = match home_dir {
        Some(h) => h,
        None => "~",
    };
    proof {
        reveal_strlit(".pi");
        reveal_strlit("agent");
    }
    let pi = join_path(home, ".pi");
    join_path(pi.as_str(), "agent")
}

/// `models.json` in pi's configuration directory.
pub fn get_models_path(pi_dir: &str) -> (path: String)
    ensures
        path@ == join_spec(pi_dir@, "models.json"@),
{
    proof { reveal_strlit("models.json"); }
    join_path(pi_dir, "models.json")
}

/// The configuration: the parsed file, or `{"providers": {}}` when there is no file.
pub fn read_config(existing: Option<JsonValue>) -> (config: JsonValue)
    ensures
        match existing {
            Some(c) => config.view() == c.view(),
            None => config.view() == default_config_view(),
        },
{
    match existing {
        Some(c) => c,
        None => default_config(),
    }
}

/// All providers of the configuration; none when it has no "providers" object.
pub fn get_providers(config: &JsonValue) -> (providers: Vec<(String, JsonValue)>)
    ensures
        members_view(providers@) == providers_view(config.view()),
{
    providers_of(config)
}

/// One provider of the configuration.
pub fn get_provider(config: &JsonValue, id: &str) -> (provider: Option<JsonValue>)
    ensures
        match provider {
            Some(p) => lookup(providers_view(config.view()), id@) == Some(p.view()),
            None => lookup(providers_view(config.view()), id@) is None,
        },
{
    provider_of(config, id)
}

/// The configuration with one provider set. Indexing a document that is neither an
/// object nor null panics, so such a document is not accepted.
pub fn set_provider(config: JsonValue, id: &str, provider_config: JsonValue) -> (updated: JsonValue)
    requires
        config.view() is Object || config.view() is Null,
    ensures
        updated.view() == set_provider_spec(config.view(), id@, provider_config.view()),
{
    with_provider_set(config, id, provider_config)
}

/// The configuration with one provider removed.
pub fn remove_provider(config: JsonValue, id: &str) -> (updated: JsonValue)
    ensures
        updated.view() == remove_provider_spec(config.view(), id@),
{
    with_provider_removed(config, id)
}

/// With no `PI_CODING_AGENT_DIR` that holds more than whitespace, pi's directory is
/// `.pi/agent` under the home directory (a slash between them unless the home
/// directory ends in one), or `~/.pi/agent` when there is no home directory. An unset
/// variable and a blank one give the same directory.
pub proof fn law_pi_dir_defaults_under_home(env_dir: Option<Seq<char>>, home_dir: Option<Seq<char>>)
    requires
        env_dir matches Some(e) ==> trim_spec(e).len() == 0,
    ensures
        home_dir matches Some(h) ==> (h.len() > 0 && h.last() != '/' ==> pi_dir_spec(env_dir, home_dir) == h + "/.pi/agent"@),
        home_dir matches Some(h) ==> (h.len() > 0 && h.last() == '/' ==> pi_dir_spec(env_dir, home_dir) == h + ".pi/agent"@),
        home_dir is None ==> pi_dir_spec(env_dir, home_dir) == "~/.pi/agent"@,
        pi_dir_spec(env_dir, home_dir) == pi_dir_spec(None, home_dir),
{
    reveal_strlit(".pi");
    reveal_strlit("agent");
    reveal_strlit("/.pi/agent");
    reveal_strlit(".pi/agent");
    reveal_strlit("~/.pi/agent");
    reveal_strlit("~");
    let home = match home_dir {
        Some(h) => h,
        None => "~"@,
    };
    let pi = join_spec(home, ".pi"@);
    assert(pi.len() > 0 && pi.last() == 'i');
    if home.len() > 0 && home.last() != '/' {
        assert(join_spec(pi, "agent"@) =~= home + "/.pi/agent"@);
        if home_dir is None {
            assert(home + "/.pi/agent"@ =~= "~/.pi/agent"@);
        }
    } else if home.len() > 0 {
        assert(join_spec(pi, "agent"@) =~= home + ".pi/agent"@);
    }
}

/// A `PI_CODING_AGENT_DIR` that holds more than whitespace is pi's directory,
/// trimmed, whatever the home directory.
pub proof fn law_pi_dir_env_wins(env: Seq<char>, home_dir: Option<Seq<char>>, other_home: Option<Seq<char>>)
    requires
        trim_spec(env).len() > 0,
    ensures
        pi_dir_spec(Some(env), home_dir) == trim_spec(env),
        pi_dir_spec(Some(env), home_dir) == pi_dir_spec(Some(env), other_home),
{
}

} // verus!
