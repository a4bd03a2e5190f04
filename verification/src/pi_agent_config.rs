//! pi-agent's `models.json`: where it lives and how its providers are read and changed.
//! Reading and writing the file is left to the caller; these functions compute the
//! path and the document.

use vstd::prelude::*;
use vstd::string::*;
use crate::json::{lookup, members_view, JsonValue};
use crate::paths::{join_path, join_spec, trim_spec, trim_whitespace};
use crate::provider_document::{
    default_config, default_config_view, provider_of, providers_of, providers_view, remove_provider_spec,
    set_provider_spec, with_provider_removed, with_provider_set,
};

verus! {

/// pi-agent's configuration directory: the directory set in cc-switch's settings
/// when there is one, else `PI_CODING_AGENT_DIR` when it holds more than whitespace
/// (trimmed), else `.pi/agent` under the home directory.
pub open spec fn pi_agent_dir_spec(override_dir: Option<Seq<char>>, env_dir: Option<Seq<char>>, home_dir: Seq<char>) -> Seq<char> {
    match override_dir {
        Some(o) => o,
        None => match env_dir {
            Some(e) if trim_spec(e).len() > 0 => trim_spec(e),
            _ => join_spec(join_spec(home_dir, ".pi"@), "agent"@),
        },
    }
}

/// pi-agent's configuration directory, from the settings override, the value of
/// `PI_CODING_AGENT_DIR` and the home directory.
pub fn get_pi_agent_dir(override_dir: Option<&str>, env_dir: Option<&str>, home_dir: &str) -> (dir: String)
    ensures
        dir@ == pi_agent_dir_spec(
            match override_dir { Some(o) => Some(o@), None => None },
            match env_dir { Some(e) => Some(e@), None => None },
            home_dir@,
        ),
{
    if let Some(o) = override_dir {
        return String::from_str(o);
    }
    if let Some(env) = env_dir {
        let trimmed = trim_whitespace(env);
        if trimmed.as_str().unicode_len() > 0 {
            return trimmed;
        }
    }
    proof {
        reveal_strlit(".pi");
        reveal_strlit("agent");
    }
    let pi = join_path(home_dir, ".pi");
    join_path(pi.as_str(), "agent")
}

/// `models.json` in pi-agent's configuration directory.
pub fn get_models_path(pi_agent_dir: &str) -> (path: String)
    ensures
        path@ == join_spec(pi_agent_dir@, "models.json"@),
{
    proof { reveal_strlit("models.json"); }
    join_path(pi_agent_dir, "models.json")
}

/// The configuration: the parsed file, or `{"providers": {}}` when there is no file.
pub fn read_config(existing: Option<JsonValue>) -> (config: JsonValue)
    ensures
        match existing {
            Some(c) => config.view() == c.view(),
            None => config.view() == default_config_view(),
        },
{
    match existing {
        Some(c) => c,
        None => default_config(),
    }
}

/// All providers of the configuration; none when it has no "providers" object.
pub fn get_providers(config: &JsonValue) -> (providers: Vec<(String, JsonValue)>)
    ensures
        members_view(providers@) == providers_view(config.view()),
{
    providers_of(config)
}

/// One provider of the configuration.
pub fn get_provider(config: &JsonValue, id: &str) -> (provider: Option<JsonValue>)
    ensures
        match provider {
            Some(p) => lookup(providers_view(config.view()), id@) == Some(p.view()),
            None => lookup(providers_view(config.view()), id@) is None,
        },
{
    provider_of(config, id)
}

/// The configuration with one provider set. Indexing a document that is neither an
/// object nor null panics, so such a document is not accepted.
pub fn set_provider(config: JsonValue, id: &str, provider_config: JsonValue) -> (updated: JsonValue)
    requires
        config.view() is Object || config.view() is Null,
    ensures
        updated.view() == set_provider_spec(config.view(), id@, provider_config.view()),
{
    with_provider_set(config, id, provider_config)
}

/// The configuration with one provider removed.
pub fn remove_provider(config: JsonValue, id: &str) -> (updated: JsonValue)
    ensures
        updated.view() == remove_provider_spec(config.view(), id@),
{
    with_provider_removed(config, id)
}

/// With no settings override and no `PI_CODING_AGENT_DIR` that holds more than
/// whitespace, the directory is `.pi/agent` under the given home directory: the home
/// directory, a slash unless it ends in one, then `.pi/agent`. An unset variable and a
/// blank one give the same directory.
pub proof fn law_pi_agent_dir_defaults_under_home(env_dir: Option<Seq<char>>, home_dir: Seq<char>)
    requires
        env_dir matches Some(e) ==> trim_spec(e).len() == 0,
    ensures
        home_dir.len() > 0 && home_dir.last() != '/'
            ==> pi_agent_dir_spec(None, env_dir, home_dir) == home_dir + "/.pi/agent"@,
        home_dir.len() > 0 && home_dir.last() == '/'
            ==> pi_agent_dir_spec(None, env_dir, home_dir) == home_dir + ".pi/agent"@,
        home_dir.len() == 0 ==> pi_agent_dir_spec(None, env_dir, home_dir) == ".pi/agent"@,
        pi_agent_dir_spec(None, env_dir, home_dir) == pi_agent_dir_spec(None, None, home_dir),
{
    reveal_strlit(".pi");
    reveal_strlit("agent");
    reveal_strlit("/.pi/agent");
    reveal_strlit(".pi/agent");
    let pi = join_spec(home_dir, ".pi"@);
    assert(pi.len() > 0 && pi.last() == 'i');
    if home_dir.len() > 0 && home_dir.last() != '/' {
        assert(join_spec(pi, "agent"@) =~= home_dir + "/.pi/agent"@);
    } else if home_dir.len() > 0 {
        assert(join_spec(pi, "agent"@) =~= home_dir + ".pi/agent"@);
    } else {
        assert(join_spec(pi, "agent"@) =~= ".pi/agent"@);
    }
}

/// The settings override wins over everything; without one, a
/// `PI_CODING_AGENT_DIR` that holds more than whitespace wins, trimmed, whatever the
/// home directory.
pub proof fn law_pi_agent_dir_precedence(override_dir: Seq<char>, env_dir: Option<Seq<char>>, home_dir: Seq<char>, other_home: Seq<char>)
    ensures
        pi_agent_dir_spec(Some(override_dir), env_dir, home_dir) == override_dir,
        env_dir matches Some(e) ==> trim_spec(e).len() > 0 ==> {
            &&& pi_agent_dir_spec(None, env_dir, home_dir) == trim_spec(e)
            &&& pi_agent_dir_spec(None, env_dir, home_dir) == pi_agent_dir_spec(None, env_dir, other_home)
        },
{
}

/// `models.json` lies directly in the directory: the directory, a slash unless it
/// ends in one, then `models.json`.
pub proof fn law_models_path_in_dir(dir: Seq<char>)
    ensures
        dir.len() > 0 && dir.last() != '/' ==> join_spec(dir, "models.json"@) == dir + "/models.json"@,
        dir.len() > 0 && dir.last() == '/' ==> join_spec(dir, "models.json"@) == dir + "models.json"@,
{
    reveal_strlit("models.json");
    reveal_strlit("/models.json");
    if dir.len() > 0 && dir.last() != '/' {
        assert(join_spec(dir, "models.json"@) =~= dir + "/models.json"@);
    }
}

} // verus!
