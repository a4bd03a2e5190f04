//! The `models.json` document shared by pi and pi-agent: a JSON object whose
//! "providers" member maps provider ids to provider configurations.

use vstd::prelude::*;
use vstd::string::*;
use crate::json::{
    copy_members,
    law_lookup_after_insert, law_lookup_after_remove,
    clone_value, insert_member, lemma_object_view, lookup, members_view, remove_member, remove_members,
    set_member, find_member, view_get, JsonValue, JsonView,
};

verus! {

/// The providers of a configuration document, none when it has no "providers" object.
pub open spec fn providers_view(config: JsonView) -> Seq<(Seq<char>, JsonView)> {
    match view_get(config, "providers"@) {
        Some(JsonView::Object(providers)) => providers,
        _ => Seq::empty(),
    }
}

/// The members of a document that `set_provider` starts from: those of an object,
/// none for null.
pub open spec fn base_members(config: JsonView) -> Seq<(Seq<char>, JsonView)> {
    match config {
        JsonView::Object(members) => members,
        _ => Seq::empty(),
    }
}

/// The document after `set_provider`: a document without "providers" first gets an
/// empty one; then, where "providers" is an object, the provider is set in it.
pub open spec fn set_provider_spec(config: JsonView, id: Seq<char>, provider: JsonView) -> JsonView {
    let base = base_members(config);
    let with_providers = if lookup(base, "providers"@) is None {
        insert_member(base, "providers"@, JsonView::Object(Seq::empty()))
    } else {
        base
    };
    match lookup(with_providers, "providers"@) {
        Some(JsonView::Object(p)) => JsonView::Object(
            insert_member(with_providers, "providers"@, JsonView::Object(insert_member(p, id, provider))),
        ),
        _ => JsonView::Object(with_providers),
    }
}

/// The document after `remove_provider`: where "providers" is an object, the provider
/// is removed from it; any other document stays as it is.
pub open spec fn remove_provider_spec(config: JsonView, id: Seq<char>) -> JsonView {
    match config {
        JsonView::Object(members) => match lookup(members, "providers"@) {
            Some(JsonView::Object(p)) => JsonView::Object(
                insert_member(members, "providers"@, JsonView::Object(remove_member(p, id))),
            ),
            _ => config,
        },
        _ => config,
    }
}

/// The configuration read when its file does not exist: `{"providers": {}}`.
pub open spec fn default_config_view() -> JsonView {
    JsonView::Object(seq![("providers"@, JsonView::Object(Seq::empty()))])
}

/// Whether `set_provider` can store a provider in a document: the document is an
/// object or null, and its "providers" member, if any, is an object.
pub open spec fn accepts_providers(config: JsonView) -> bool {
    &&& (config is Object || config is Null)
    &&& match lookup(base_members(config), "providers"@) {
        None => true,
        Some(JsonView::Object(_)) => true,
        _ => false,
    }
}

/// Provider CRUD: a document without a file has no provider; after a provider is set
/// it reads back as set, and the other providers read as before; after it is removed
/// it reads as absent, and the other providers read as before.
pub proof fn law_provider_roundtrip(config: JsonView, id: Seq<char>, provider: JsonView, other: Seq<char>)
    requires
        accepts_providers(config),
    ensures
        providers_view(default_config_view()).len() == 0,
        lookup(providers_view(set_provider_spec(config, id, provider)), id) == Some(provider),
        other != id ==> lookup(providers_view(set_provider_spec(config, id, provider)), other)
            == lookup(providers_view(config), other),
        lookup(providers_view(remove_provider_spec(config, id)), id) is None,
        other != id ==> lookup(providers_view(remove_provider_spec(config, id)), other)
            == lookup(providers_view(config), other),
{
    let key = "providers"@;
    let default_members = seq![(key, JsonView::Object(Seq::<(Seq<char>, JsonView)>::empty()))];
    assert(default_members.drop_first() =~= Seq::<(Seq<char>, JsonView)>::empty());
    assert(lookup(default_members, key) == Some(JsonView::Object(Seq::<(Seq<char>, JsonView)>::empty())));

    let base = base_members(config);
    let empty = Seq::<(Seq<char>, JsonView)>::empty();
    law_lookup_after_insert(base, key, JsonView::Object(empty), key);
    let with_providers = if lookup(base, key) is None {
        insert_member(base, key, JsonView::Object(empty))
    } else {
        base
    };
    let p = match lookup(with_providers, key) {
        Some(JsonView::Object(p)) => p,
        _ => empty,
    };
    assert(lookup(with_providers, key) == Some(JsonView::Object(p)));
    law_lookup_after_insert(p, id, provider, other);
    law_lookup_after_insert(with_providers, key, JsonView::Object(insert_member(p, id, provider)), key);
    assert(lookup(providers_view(config), other) == lookup(p, other)) by {
        if lookup(base, key) is None {
            assert(p == empty);
        }
    }
    match config {
        JsonView::Object(members) => match lookup(members, key) {
            Some(JsonView::Object(q)) => {
                law_lookup_after_remove(q, id, other);
                law_lookup_after_insert(members, key, JsonView::Object(remove_member(q, id)), key);
            },
            _ => {},
        },
        _ => {},
    }
}

/// `{"providers": {}}`.
pub fn default_config() -> (config: JsonValue)
    ensures
        config.view() == default_config_view(),
{
    let empty: Vec<(String, JsonValue)> = Vec::new();
    proof { lemma_object_view(empty); }
    let mut members: Vec<(String, JsonValue)> = Vec::new();
    assert(members_view(members@) =~= Seq::<(Seq<char>, JsonView)>::empty());
    set_member(&mut members, String::from_str("providers"), JsonValue::Object(empty));
    proof {
        lemma_object_view(members);
        assert(members_view(empty@) =~= Seq::<(Seq<char>, JsonView)>::empty());
        assert(members_view(members@) =~= seq![("providers"@, JsonView::Object(Seq::empty()))]);
    }
    JsonValue::Object(members)
}

/// A copy of the providers of a configuration document.
pub fn providers_of(config: &JsonValue) -> (providers: Vec<(String, JsonValue)>)
    ensures
        members_view(providers@) == providers_view(config.view()),
{
    match config.get("providers") {
        Some(p) => {
            let copy = clone_value(p);
            match copy {
                JsonValue::Object(members) => {
                    proof { lemma_object_view(members); }
                    members
                },
                _ => {
                    let members: Vec<(String, JsonValue)> = Vec::new();
                    assert(members_view(members@) =~= Seq::<(Seq<char>, JsonView)>::empty());
                    members
                },
            }
        },
        None => {
            let members: Vec<(String, JsonValue)> = Vec::new();
            assert(members_view(members@) =~= Seq::<(Seq<char>, JsonView)>::empty());
            members
        },
    }
}

/// A copy of one provider of a configuration document.
pub fn provider_of(config: &JsonValue, id: &str) -> (provider: Option<JsonValue>)
    ensures
        match provider {
            Some(p) => lookup(providers_view(config.view()), id@) == Some(p.view()),
            None => lookup(providers_view(config.view()), id@) is None,
        },
{
    let providers = providers_of(config);
    match find_member(&providers, id) {
        Some(i) => Some(clone_value(&providers[i].1)),
        None => None,
    }
}

/// Sets one provider in a configuration document.
pub fn with_provider_set(config: JsonValue, id: &str, provider: JsonValue) -> (updated: JsonValue)
    requires
        config.view() is Object || config.view() is Null,
    ensures
        updated.view() == set_provider_spec(config.view(), id@, provider.view()),
{
    let mut members: Vec<(String, JsonValue)> = match config {
        JsonValue::Object(members) => {
            proof { lemma_object_view(members); }
            members
        },
        _ => {
            let members: Vec<(String, JsonValue)> = Vec::new();
            assert(members_view(members@) =~= Seq::<(Seq<char>, JsonView)>::empty());
            members
        },
    };
    if find_member(&members, "providers").is_none() {
        let empty: Vec<(String, JsonValue)> = Vec::new();
        proof {
            lemma_object_view(empty);
            assert(members_view(empty@) =~= Seq::<(Seq<char>, JsonView)>::empty());
        }
        set_member(&mut members, String::from_str("providers"), JsonValue::Object(empty));
    }
    match find_member(&members, "providers") {
        Some(i) => {
            match &members[i].1 {
                JsonValue::Object(p) => {
                    let mut providers = copy_members(p);
                    proof { lemma_object_view(*p); }
                    set_member(&mut providers, String::from_str(id), provider);
                    proof { lemma_object_view(providers); }
                    set_member(&mut members, String::from_str("providers"), JsonValue::Object(providers));
                },
                _ => {},
            }
        },
        None => {},
    }
    proof { lemma_object_view(members); }
    JsonValue::Object(members)
}

/// Removes one provider from a configuration document.
pub fn with_provider_removed(config: JsonValue, id: &str) -> (updated: JsonValue)
    ensures
        updated.view() == remove_provider_spec(config.view(), id@),
{
    match config {
        JsonValue::Object(mut members) => {
            proof { lemma_object_view(members); }
            match find_member(&members, "providers") {
                Some(i) => {
                    match &members[i].1 {
                        JsonValue::Object(p) => {
                            let mut providers = copy_members(p);
                            proof { lemma_object_view(*p); }
                            remove_members(&mut providers, id);
                            proof { lemma_object_view(providers); }
                            set_member(&mut members, String::from_str("providers"), JsonValue::Object(providers));
                            proof { lemma_object_view(members); }
                            JsonValue::Object(members)
                        },
                        _ => {
                            proof { lemma_object_view(members); }
                            JsonValue::Object(members)
                        },
                    }
                },
                None => {
                    proof { lemma_object_view(members); }
                    JsonValue::Object(members)
                },
            }
        },
        other => other,
    }
}

} // verus!
