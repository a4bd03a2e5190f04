//! A JSON document model: the values that the configuration and session-log logic reads
//! and writes, with a mathematical view.

use vstd::prelude::*;
use vstd::string::*;

verus! {

/// A JSON number: a non-negative integer, a negative integer, or any other number,
/// kept as its decimal text.
#[derive(Debug)]
pub enum JsonNumber {
    PosInt(u64),
    NegInt(i64),
    Decimal(String),
}

/// A JSON value. An object is a list of members; a lookup finds the first member with
/// the key, so a document whose objects hold each key once behaves as a map.
#[derive(Debug)]
pub enum JsonValue {
    Null,
    Bool(bool),
    Number(JsonNumber),
    String(String),
    Array(Vec<JsonValue>),
    Object(Vec<(String, JsonValue)>),
}

/// The mathematical form of a JSON number.
pub enum NumberView {
    PosInt(u64),
    NegInt(i64),
    Decimal(Seq<char>),
}

/// The mathematical form of a JSON value.
pub enum JsonView {
    Null,
    Bool(bool),
    Number(NumberView),
    Str(Seq<char>),
    Array(Seq<JsonView>),
    Object(Seq<(Seq<char>, JsonView)>),
}

impl JsonNumber {
    pub open spec fn view(&self) -> NumberView {
        match self {
            JsonNumber::PosInt(n) => NumberView::PosInt(*n),
            JsonNumber::NegInt(n) => NumberView::NegInt(*n),
            JsonNumber::Decimal(s) => NumberView::Decimal(s@),
        }
    }
}

/// Setting a key whose first member stands at `i` replaces that member.
pub proof fn lemma_insert_at_first(members: Seq<(Seq<char>, JsonView)>, key: Seq<char>, value: JsonView, i: int)
    requires
        0 <= i < members.len(),
        members[i].0 == key,
        forall|j: int| 0 <= j < i ==> #[trigger] members[j].0 != key,
    ensures
        insert_member(members, key, value) == members.update(i, (key, value)),
    decreases i,
{
    if i > 0 {
        let rest = members.drop_first();
        assert(rest[i - 1] == members[i]);
        assert forall|j: int| 0 <= j < i - 1 implies #[trigger] rest[j].0 != key by {
            assert(rest[j] == members[j + 1]);
        }
        lemma_insert_at_first(rest, key, value, i - 1);
        assert(seq![members[0]] + rest.update(i - 1, (key, value)) =~= members.update(i, (key, value)));
    }
}

/// Setting a key that no member has appends a member.
pub proof fn lemma_insert_absent(members: Seq<(Seq<char>, JsonView)>, key: Seq<char>, value: JsonView)
    requires
        forall|j: int| 0 <= j < members.len() ==> #[trigger] members[j].0 != key,
    ensures
        insert_member(members, key, value) == members.push((key, value)),
    decreases members.len(),
{
    if members.len() > 0 {
        let rest = members.drop_first();
        assert forall|j: int| 0 <= j < rest.len() implies #[trigger] rest[j].0 != key by {
            assert(rest[j] == members[j + 1]);
        }
        assert(members[0].0 != key);
        lemma_insert_absent(rest, key, value);
        assert(seq![members[0]] + rest.push((key, value)) =~= members.push((key, value)));
    }
}

/// Reading a key after setting it gives the value set; every other key reads as before.
pub proof fn law_lookup_after_insert(members: Seq<(Seq<char>, JsonView)>, key: Seq<char>, value: JsonView, other: Seq<char>)
    ensures
        lookup(insert_member(members, key, value), key) == Some(value),
        other != key ==> lookup(insert_member(members, key, value), other) == lookup(members, other),
    decreases members.len(),
{
    let ins = insert_member(members, key, value);
    if members.len() == 0 {
        assert(ins.drop_first() =~= Seq::<(Seq<char>, JsonView)>::empty());
        assert(lookup(ins, other) == if ins[0].0 == other { Some(ins[0].1) } else { lookup(ins.drop_first(), other) });
    } else if members[0].0 == key {
        assert(ins.drop_first() =~= members.drop_first());
        assert(lookup(ins, other) == if ins[0].0 == other { Some(ins[0].1) } else { lookup(ins.drop_first(), other) });
    } else {
        law_lookup_after_insert(members.drop_first(), key, value, other);
        assert(ins[0] == members[0]);
        assert(ins.drop_first() =~= insert_member(members.drop_first(), key, value));
        assert(lookup(ins, other) == if ins[0].0 == other { Some(ins[0].1) } else { lookup(ins.drop_first(), other) });
        assert(lookup(ins, key) == lookup(ins.drop_first(), key));
    }
}

/// After a key is removed, it reads as absent; every other key reads as before.
pub proof fn law_lookup_after_remove(members: Seq<(Seq<char>, JsonView)>, key: Seq<char>, other: Seq<char>)
    ensures
        lookup(remove_member(members, key), key) is None,
        other != key ==> lookup(remove_member(members, key), other) == lookup(members, other),
    decreases members.len(),
{
    if members.len() > 0 {
        law_lookup_after_remove(members.drop_first(), key, other);
        if members[0].0 != key {
            let rem = remove_member(members, key);
            assert(rem[0] == members[0]);
            assert(rem.drop_first() =~= remove_member(members.drop_first(), key));
        }
    }
}

/// Whether each key occurs at most once among the members.
pub open spec fn unique_keys(members: Seq<(Seq<char>, JsonView)>) -> bool {
    forall|i: int, j: int| 0 <= i < j < members.len() ==> members[i].0 != members[j].0
}

/// Whether every object in a document holds each key once, as the objects of any
/// parsed JSON text do (serde_json keeps a map per object).
pub open spec fn well_formed(value: JsonView) -> bool
    decreases value,
{
    match value {
        JsonView::Object(members) => unique_keys(members)
            && forall|i: int| 0 <= i < members.len() ==> well_formed(#[trigger] members[i].1),
        JsonView::Array(items) => forall|i: int| 0 <= i < items.len() ==> well_formed(#[trigger] items[i]),
        _ => true,
    }
}

/// Setting a key either replaces a member with that key in place or appends one when
/// no member has it.
pub proof fn lemma_insert_shape(members: Seq<(Seq<char>, JsonView)>, key: Seq<char>, value: JsonView)
    ensures
        (exists|i: int| 0 <= i < members.len() && members[i].0 == key
            && insert_member(members, key, value) == members.update(i, (key, value)))
        || ((forall|j: int| 0 <= j < members.len() ==> members[j].0 != key)
            && insert_member(members, key, value) == members.push((key, value))),
    decreases members.len(),
{
    if members.len() == 0 {
        assert(seq![(key, value)] =~= members.push((key, value)));
    } else if members[0].0 == key {
        assert(members[0].0 == key && insert_member(members, key, value) == members.update(0, (key, value)));
    } else {
        let rest = members.drop_first();
        lemma_insert_shape(rest, key, value);
        let r = insert_member(members, key, value);
        if exists|i: int| 0 <= i < rest.len() && rest[i].0 == key
                && insert_member(rest, key, value) == rest.update(i, (key, value)) {
            let i = choose|i: int| 0 <= i < rest.len() && rest[i].0 == key
                && insert_member(rest, key, value) == rest.update(i, (key, value));
            assert(r =~= members.update(i + 1, (key, value)));
            assert(members[i + 1].0 == key);
        } else {
            assert(r =~= members.push((key, value)));
            assert forall|j: int| 0 <= j < members.len() implies members[j].0 != key by {
                if j > 0 {
                    assert(members[j] == rest[j - 1]);
                }
            }
        }
    }
}

/// Setting a key keeps the keys unique.
pub proof fn lemma_insert_unique(members: Seq<(Seq<char>, JsonView)>, key: Seq<char>, value: JsonView)
    requires
        unique_keys(members),
    ensures
        unique_keys(insert_member(members, key, value)),
{
    lemma_insert_shape(members, key, value);
    let r = insert_member(members, key, value);
    if exists|i: int| 0 <= i < members.len() && members[i].0 == key && r == members.update(i, (key, value)) {
        let i = choose|i: int| 0 <= i < members.len() && members[i].0 == key && r == members.update(i, (key, value));
        assert forall|a: int, b: int| 0 <= a < b < r.len() implies r[a].0 != r[b].0 by {
            assert(r[a].0 == members[a].0);
            assert(r[b].0 == members[b].0);
        }
    } else {
        assert forall|a: int, b: int| 0 <= a < b < r.len() implies r[a].0 != r[b].0 by {
            if b < members.len() {
                assert(r[a] == members[a]);
                assert(r[b] == members[b]);
            } else {
                assert(r[a] == members[a]);
            }
        }
    }
}

/// Building an object by setting each of a list of members with unique keys in turn
/// gives that list.
pub proof fn lemma_collect_unique(members: Seq<(Seq<char>, JsonView)>)
    requires
        unique_keys(members),
    ensures
        members.fold_left(Seq::<(Seq<char>, JsonView)>::empty(), |acc: Seq<(Seq<char>, JsonView)>, m: (Seq<char>, JsonView)| insert_member(acc, m.0, m.1)) == members,
    decreases members.len(),
{
    if members.len() > 0 {
        let init = members.drop_last();
        assert(unique_keys(init)) by {
            assert forall|i: int, j: int| 0 <= i < j < init.len() implies init[i].0 != init[j].0 by {
                assert(init[i] == members[i]);
                assert(init[j] == members[j]);
            }
        }
        lemma_collect_unique(init);
        let last = members.last();
        assert forall|j: int| 0 <= j < init.len() implies #[trigger] init[j].0 != last.0 by {
            assert(init[j] == members[j]);
        }
        lemma_insert_absent(init, last.0, last.1);
        assert(init.push(last) =~= members);
    }
}

/// Removing a key leaves members that were there before, none with that key, and
/// keeps the keys unique.
pub proof fn lemma_remove_unique(members: Seq<(Seq<char>, JsonView)>, key: Seq<char>)
    ensures
        forall|i: int| 0 <= i < remove_member(members, key).len() ==>
            (exists|j: int| 0 <= j < members.len() && #[trigger] remove_member(members, key)[i] == members[j]),
        unique_keys(members) ==> unique_keys(remove_member(members, key)),
    decreases members.len(),
{
    if members.len() > 0 {
        let rest = members.drop_first();
        lemma_remove_unique(rest, key);
        let rr = remove_member(rest, key);
        let r = remove_member(members, key);
        assert forall|i: int| 0 <= i < r.len() implies
            (exists|j: int| 0 <= j < members.len() && #[trigger] r[i] == members[j]) by {
            if members[0].0 == key {
                let j = choose|j: int| 0 <= j < rest.len() && rr[i] == rest[j];
                assert(r[i] == members[j + 1]);
            } else if i == 0 {
                assert(r[0] == members[0]);
            } else {
                assert(r[i] == rr[i - 1]);
                let j = choose|j: int| 0 <= j < rest.len() && rr[i - 1] == rest[j];
                assert(r[i] == members[j + 1]);
            }
        }
        if unique_keys(members) {
            assert(unique_keys(rest)) by {
                assert forall|a: int, b: int| 0 <= a < b < rest.len() implies rest[a].0 != rest[b].0 by {
                    assert(rest[a] == members[a + 1]);
                    assert(rest[b] == members[b + 1]);
                }
            }
            assert forall|a: int, b: int| 0 <= a < b < r.len() implies r[a].0 != r[b].0 by {
                if members[0].0 == key {
                    assert(r == rr);
                } else if a == 0 {
                    assert(r[b] == rr[b - 1]);
                    let j = choose|j: int| 0 <= j < rest.len() && rr[b - 1] == rest[j];
                    assert(rest[j] == members[j + 1]);
                } else {
                    assert(r[a] == rr[a - 1]);
                    assert(r[b] == rr[b - 1]);
                }
            }
        }
    }
}

/// Setting a well-formed value in a well-formed object, or removing a key from one,
/// keeps it well-formed.
pub proof fn law_object_ops_keep_well_formed(members: Seq<(Seq<char>, JsonView)>, key: Seq<char>, value: JsonView)
    requires
        well_formed(JsonView::Object(members)),
        well_formed(value),
    ensures
        well_formed(JsonView::Object(insert_member(members, key, value))),
        well_formed(JsonView::Object(remove_member(members, key))),
{
    lemma_insert_unique(members, key, value);
    lemma_insert_shape(members, key, value);
    let ins = insert_member(members, key, value);
    assert forall|i: int| 0 <= i < ins.len() implies well_formed(#[trigger] ins[i].1) by {
        if i < members.len() && ins[i] == members[i] {
        } else if i < members.len() {
            assert(ins[i].1 == value);
        } else {
            assert(ins[i].1 == value);
        }
    }
    lemma_remove_unique(members, key);
    let rem = remove_member(members, key);
    assert forall|i: int| 0 <= i < rem.len() implies well_formed(#[trigger] rem[i].1) by {
        let j = choose|j: int| 0 <= j < members.len() && rem[i] == members[j];
        assert(well_formed(members[j].1));
    }
}

/// Sets `key` to `value` in the members of an object, as `serde_json::Map::insert` does.
pub fn set_member(members: &mut Vec<(String, JsonValue)>, key: String, value: JsonValue)
    ensures
        members_view(final(members)@) == insert_member(members_view(old(members)@), key@, value.view()),
{
    let ghost before = members_view(members@);
    let ghost kv = key@;
    let ghost vv = value.view();
    match find_member(members, key.as_str()) {
        Some(i) => {
            proof {
                assert forall|j: int| 0 <= j < i implies #[trigger] before[j].0 != kv by {
                    assert(before[j].0 == members@[j].0@);
                }
                lemma_insert_at_first(before, kv, vv, i as int);
            }
            members.set(i, (key, value));
            proof {
                assert(members_view(members@) =~= before.update(i as int, (kv, vv)));
            }
        },
        None => {
            proof {
                assert forall|j: int| 0 <= j < before.len() implies #[trigger] before[j].0 != kv by {
                    assert(before[j].0 == old(members)@[j].0@);
                }
                lemma_insert_absent(before, kv, vv);
            }
            members.push((key, value));
            proof {
                assert(members_view(members@) =~= before.push((kv, vv)));
            }
        },
    }
}

/// Removes every member with the given key; tells whether there was one.
pub fn remove_members(members: &mut Vec<(String, JsonValue)>, key: &str) -> (removed: bool)
    ensures
        members_view(final(members)@) == remove_member(members_view(old(members)@), key@),
        removed == lookup(members_view(old(members)@), key@) is Some,
{
    let ghost before = members_view(members@);
    let key_owned = String::from_str(key);
    let mut removed = false;
    let mut i: usize = 0;
    let ghost mut j: int = 0;
    assert(before.skip(0) =~= before);
    assert(members_view(members@).take(0) =~= Seq::<(Seq<char>, JsonView)>::empty());
    while i < members.len()
        invariant
            key_owned@ == key@,
            0 <= i <= members@.len(),
            0 <= j <= before.len(),
            members_view(members@).skip(i as int) == before.skip(j),
            remove_member(before, key@) == members_view(members@).take(i as int) + remove_member(before.skip(j), key@),
            lookup(before, key@) is Some == (removed || lookup(before.skip(j), key@) is Some),
        decreases members@.len() - i,
    {
        let ghost cur = members_view(members@);
        assert(cur.skip(i as int)[0] == cur[i as int]);
        assert(before.skip(j)[0] == cur[i as int]);
        assert(before.skip(j).drop_first() =~= before.skip(j + 1));
        if members[i].0 == key_owned {
            members.remove(i);
            proof {
                let now = members_view(members@);
                assert(now.skip(i as int) =~= cur.skip(i + 1));
                assert(now.take(i as int) =~= cur.take(i as int));
                j = j + 1;
            }
            removed = true;
        } else {
            proof {
                assert(cur.take(i + 1) =~= cur.take(i as int) + seq![cur[i as int]]);
                assert(cur.skip(i + 1) =~= cur.skip(i as int).drop_first());
                j = j + 1;
            }
            i = i + 1;
        }
    }
    proof {
        assert(before.skip(j).len() == 0);
        assert(members_view(members@).take(i as int) =~= members_view(members@));
    }
    removed
}

/// The view of an array is the sequence of the views of its items.
pub proof fn lemma_array_view(items: Vec<JsonValue>)
    ensures
        JsonValue::Array(items).view() == JsonView::Array(items_view(items@)),
{
    let v = JsonValue::Array(items);
    match v.view() {
        JsonView::Array(s) => {
            assert(s =~= items_view(items@));
        },
        _ => {},
    }
}

/// The view of an object is the sequence of its members by their views.
pub proof fn lemma_object_view(members: Vec<(String, JsonValue)>)
    ensures
        JsonValue::Object(members).view() == JsonView::Object(members_view(members@)),
{
    let v = JsonValue::Object(members);
    match v.view() {
        JsonView::Object(s) => {
            assert(s =~= members_view(members@));
        },
        _ => {},
    }
}

/// A copy of a number.
pub fn clone_number(n: &JsonNumber) -> (copy: JsonNumber)
    ensures
        copy.view() == n.view(),
{
    match n {
        JsonNumber::PosInt(v) => JsonNumber::PosInt(*v),
        JsonNumber::NegInt(v) => JsonNumber::NegInt(*v),
        JsonNumber::Decimal(s) => JsonNumber::Decimal(s.clone()),
    }
}

/// A deep copy of a value.
pub fn clone_value(value: &JsonValue) -> (copy: JsonValue)
    ensures
        copy.view() == value.view(),
    decreases value,
{
    match value {
        JsonValue::Null => JsonValue::Null,
        JsonValue::Bool(b) => JsonValue::Bool(*b),
        JsonValue::Number(n) => JsonValue::Number(clone_number(n)),
        JsonValue::String(s) => JsonValue::String(s.clone()),
        JsonValue::Array(items) => {
            let mut out: Vec<JsonValue> = Vec::new();
            let mut i: usize = 0;
            while i < items.len()
                invariant
                    i <= items@.len(),
                    out@.len() == i,
                    forall|k: int| 0 <= k < i ==> #[trigger] out@[k].view() == items@[k].view(),
                    *value == JsonValue::Array(*items),
                decreases items@.len() - i,
            {
                proof {
                    assert(decreases_to!(*items => items@[i as int]));
                    assert(decreases_to!(*value => value->Array_0));
                    assert(decreases_to!(*value => items@[i as int]));
                }
                out.push(clone_value(&items[i]));
                i = i + 1;
            }
            let copy = JsonValue::Array(out);
            proof {
                assert(items_view(out@) =~= items_view(items@));
                lemma_array_view(out);
                lemma_array_view(*items);
            }
            copy
        },
        JsonValue::Object(members) => {
            let mut out: Vec<(String, JsonValue)> = Vec::new();
            let mut i: usize = 0;
            while i < members.len()
                invariant
                    i <= members@.len(),
                    out@.len() == i,
                    forall|k: int| 0 <= k < i ==> #[trigger] out@[k].0@ == members@[k].0@
                        && out@[k].1.view() == members@[k].1.view(),
                    *value == JsonValue::Object(*members),
                decreases members@.len() - i,
            {
                proof {
                    assert(decreases_to!(*members => members@[i as int]));
                    assert(decreases_to!(members@[i as int] => members@[i as int].1));
                    assert(decreases_to!(*value => value->Object_0));
                    assert(decreases_to!(*value => members@[i as int].1));
                }
                out.push((members[i].0.clone(), clone_value(&members[i].1)));
                i = i + 1;
            }
            let copy = JsonValue::Object(out);
            proof {
                assert(members_view(out@) =~= members_view(members@));
                lemma_object_view(out);
                lemma_object_view(*members);
            }
            copy
        },
    }
}

/// A deep copy of the members of an object.
pub fn copy_members(members: &Vec<(String, JsonValue)>) -> (copy: Vec<(String, JsonValue)>)
    ensures
        members_view(copy@) == members_view(members@),
{
    let mut out: Vec<(String, JsonValue)> = Vec::new();
    let mut i: usize = 0;
    while i < members.len()
        invariant
            i <= members@.len(),
            out@.len() == i,
            forall|k: int| 0 <= k < i ==> #[trigger] out@[k].0@ == members@[k].0@
                && out@[k].1.view() == members@[k].1.view(),
        decreases members@.len() - i,
    {
        out.push((members[i].0.clone(), clone_value(&members[i].1)));
        i = i + 1;
    }
    assert(members_view(out@) =~= members_view(members@));
    out
}

impl JsonValue {
    pub open spec fn view(&self) -> JsonView
        decreases self,
    {
        match self {
            JsonValue::Null => JsonView::Null,
            JsonValue::Bool(b) => JsonView::Bool(*b),
            JsonValue::Number(n) => JsonView::Number(n.view()),
            JsonValue::String(s) => JsonView::Str(s@),
            JsonValue::Array(items) => JsonView::Array(
                Seq::new(items@.len(), |i: int| if 0 <= i < items@.len() { items@[i].view() } else { JsonView::Null }),
            ),
            JsonValue::Object(members) => JsonView::Object(
                Seq::new(members@.len(), |i: int| if 0 <= i < members@.len() {
                    (members@[i].0@, members@[i].1.view())
                } else {
                    (Seq::empty(), JsonView::Null)
                }),
            ),
        }
    }
}

/// The members of an object, each key taken by its view.
pub open spec fn members_view(members: Seq<(String, JsonValue)>) -> Seq<(Seq<char>, JsonView)> {
    Seq::new(members.len(), |i: int| (members[i].0@, members[i].1.view()))
}

/// The items of an array, each taken by its view.
pub open spec fn items_view(items: Seq<JsonValue>) -> Seq<JsonView> {
    Seq::new(items.len(), |i: int| items[i].view())
}

/// The value of the first member whose key is `key`.
pub open spec fn lookup(members: Seq<(Seq<char>, JsonView)>, key: Seq<char>) -> Option<JsonView>
    decreases members.len(),
{
    if members.len() == 0 {
        None
    } else if members[0].0 == key {
        Some(members[0].1)
    } else {
        lookup(members.drop_first(), key)
    }
}

/// The members after setting `key` to `value`: the first member with the key gets the
/// new value in place; without one, the member is appended.
pub open spec fn insert_member(members: Seq<(Seq<char>, JsonView)>, key: Seq<char>, value: JsonView) -> Seq<(Seq<char>, JsonView)>
    decreases members.len(),
{
    if members.len() == 0 {
        seq![(key, value)]
    } else if members[0].0 == key {
        members.update(0, (key, value))
    } else {
        seq![members[0]] + insert_member(members.drop_first(), key, value)
    }
}

/// The members without any member whose key is `key`.
pub open spec fn remove_member(members: Seq<(Seq<char>, JsonView)>, key: Seq<char>) -> Seq<(Seq<char>, JsonView)>
    decreases members.len(),
{
    if members.len() == 0 {
        members
    } else if members[0].0 == key {
        remove_member(members.drop_first(), key)
    } else {
        seq![members[0]] + remove_member(members.drop_first(), key)
    }
}

/// `value.get(key)`: the member of an object, nothing for any other value.
pub open spec fn view_get(value: JsonView, key: Seq<char>) -> Option<JsonView> {
    match value {
        JsonView::Object(members) => lookup(members, key),
        _ => None,
    }
}

/// `value.as_str()`.
pub open spec fn view_str(value: JsonView) -> Option<Seq<char>> {
    match value {
        JsonView::Str(s) => Some(s),
        _ => None,
    }
}

/// `value.as_u64()`: only a non-negative integer has one.
pub open spec fn view_u64(value: JsonView) -> Option<u64> {
    match value {
        JsonView::Number(NumberView::PosInt(n)) => Some(n),
        _ => None,
    }
}

/// `value.get(key).and_then(as_str)`.
pub open spec fn get_str(value: JsonView, key: Seq<char>) -> Option<Seq<char>> {
    match view_get(value, key) {
        Some(v) => view_str(v),
        None => None,
    }
}

/// `value.get(key).and_then(as_u64)`.
pub open spec fn get_u64(value: JsonView, key: Seq<char>) -> Option<u64> {
    match view_get(value, key) {
        Some(v) => view_u64(v),
        None => None,
    }
}

/// The view of an optional reference into a document.
pub open spec fn opt_view(value: Option<&JsonValue>) -> Option<JsonView> {
    match value {
        Some(v) => Some(v.view()),
        None => None,
    }
}

/// Whether two strings hold the same characters.
pub fn text_eq(a: &str, b: &str) -> (equal: bool)
    ensures
        equal == (a@ == b@),
{
    let a_owned = String::from_str(a);
    let b_owned = String::from_str(b);
    a_owned == b_owned
}

/// Finds the first member with the given key.
pub fn find_member(members: &Vec<(String, JsonValue)>, key: &str) -> (found: Option<usize>)
    ensures
        match found {
            Some(i) => i < members@.len() && members@[i as int].0@ == key@
                && (forall|j: int| 0 <= j < i ==> #[trigger] members@[j].0@ != key@)
                && lookup(members_view(members@), key@) == Some(members@[i as int].1.view()),
            None => lookup(members_view(members@), key@) is None
                && (forall|j: int| 0 <= j < members@.len() ==> #[trigger] members@[j].0@ != key@),
        },
{
    let ghost all = members_view(members@);
    let key_owned = String::from_str(key);
    let mut i: usize = 0;
    assert(all.skip(0) =~= all);
    while i < members.len()
        invariant
            i <= members@.len(),
            all == members_view(members@),
            key_owned@ == key@,
            lookup(all, key@) == lookup(all.skip(i as int), key@),
            forall|j: int| 0 <= j < i ==> #[trigger] members@[j].0@ != key@,
        decreases members@.len() - i,
    {
        assert(all.skip(i as int)[0] == all[i as int]);
        if members[i].0 == key_owned {
            return Some(i);
        }
        assert(all.skip(i as int).drop_first() =~= all.skip(i + 1));
        i = i + 1;
    }
    None
}

impl JsonValue {
    /// `serde_json::Value::get` with a string key.
    pub fn get(&self, key: &str) -> (member: Option<&JsonValue>)
        ensures
            opt_view(member) == view_get(self.view(), key@),
    {
        match self {
            JsonValue::Object(members) => {
                proof { assert(members_view(members@) =~= match self.view() { JsonView::Object(m) => m, _ => Seq::empty() }); }
                match find_member(members, key) {
                    Some(i) => Some(&members[i].1),
                    None => None,
                }
            },
            _ => None,
        }
    }

    /// `serde_json::Value::as_str`.
    pub fn as_str(&self) -> (text: Option<&str>)
        ensures
            match text {
                Some(t) => view_str(self.view()) == Some(t@),
                None => view_str(self.view()) is None,
            },
    {
        match self {
            JsonValue::String(s) => Some(s.as_str()),
            _ => None,
        }
    }

    /// `serde_json::Value::as_u64`.
    pub fn as_u64(&self) -> (n: Option<u64>)
        ensures
            n == view_u64(self.view()),
    {
        match self {
            JsonValue::Number(JsonNumber::PosInt(n)) => Some(*n),
            _ => None,
        }
    }
}

} // verus!
