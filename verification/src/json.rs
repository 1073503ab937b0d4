//! JSON documents: values, objects, the canonical form, and reading and writing text.

use serde_json::Value as SerdeValue;
use vstd::prelude::*;

use crate::json_members::written_as;
use crate::named::assign;
use crate::named::find;
use crate::named::has_name;
use crate::named::in_order;
use crate::named::in_order_is_sorted;
use crate::named::in_order_lookup;
use crate::named::in_order_members;
use crate::named::in_order_of_sorted;
use crate::named::lookup;
use crate::named::members_of;
use crate::named::names_distinct;
use crate::named::position;
use crate::named::position_by_names;
use crate::named::position_finds;
use crate::named::put;
use crate::named::sorted_by_lookup;
use crate::named::without;
use crate::named::SortedMap;
use crate::text::text_less;

verus! {

/// A JSON number. Integers keep their value; any other number keeps its shortest decimal text.
#[derive(Debug, PartialEq, Eq)]
pub enum JsonNumber {
    Unsigned(u64),
    Negative(i64),
    Float(String),
}

/// A JSON document.
#[derive(Debug, PartialEq, Eq)]
pub enum JsonValue {
    Null,
    Bool(bool),
    Number(JsonNumber),
    Text(String),
    Array(Vec<JsonValue>),
    Object(JsonMap),
}

/// The members of a JSON object, in the order in which they were added.
#[derive(Debug, PartialEq, Eq)]
pub struct JsonMap {
    pub entries: Vec<(String, JsonValue)>,
}

/// A number as contracts speak of it.
pub enum JsonNumberView {
    Unsigned(u64),
    Negative(i64),
    Float(Seq<char>),
}

/// A document as contracts speak of it.
pub enum JsonView {
    Null,
    Bool(bool),
    Number(JsonNumberView),
    Text(Seq<char>),
    Array(Seq<JsonView>),
    Object(Seq<(Seq<char>, JsonView)>),
}

impl View for JsonNumber {
    type V = JsonNumberView;

    open spec fn view(&self) -> JsonNumberView {
        match *self {
            JsonNumber::Unsigned(n) => JsonNumberView::Unsigned(n),
            JsonNumber::Negative(n) => JsonNumberView::Negative(n),
            JsonNumber::Float(text) => JsonNumberView::Float(text@),
        }
    }
}

/// The document that a value holds.
pub open spec fn json_view(value: JsonValue) -> JsonView
    decreases value,
{
    match value {
        JsonValue::Null => JsonView::Null,
        JsonValue::Bool(b) => JsonView::Bool(b),
        JsonValue::Number(n) => JsonView::Number(n@),
        JsonValue::Text(text) => JsonView::Text(text@),
        JsonValue::Array(items) => JsonView::Array(
            Seq::new(
                items@.len(),
                |i: int|
                    if 0 <= i < items@.len() {
                        json_view(items@[i])
                    } else {
                        JsonView::Null
                    },
            ),
        ),
        JsonValue::Object(map) => JsonView::Object(
            Seq::new(
                map.entries@.len(),
                |i: int|
                    if 0 <= i < map.entries@.len() {
                        (map.entries@[i].0@, json_view(map.entries@[i].1))
                    } else {
                        (Seq::empty(), JsonView::Null)
                    },
            ),
        ),
    }
}

impl View for JsonValue {
    type V = JsonView;

    open spec fn view(&self) -> JsonView {
        json_view(*self)
    }
}

impl View for JsonMap {
    type V = Seq<(Seq<char>, JsonView)>;

    open spec fn view(&self) -> Seq<(Seq<char>, JsonView)> {
        json_view(JsonValue::Object(*self))->Object_0
    }
}

/// Members with the documents that their values hold.
pub open spec fn member_views(members: Seq<(Seq<char>, JsonValue)>) -> Seq<(Seq<char>, JsonView)> {
    Seq::new(members.len(), |i: int| (members[i].0, json_view(members[i].1)))
}

/// A copy of a number.
pub fn copy_number(number: &JsonNumber) -> (copy: JsonNumber)
    ensures
        copy@ == number@,
{
    match number {
        JsonNumber::Unsigned(n) => JsonNumber::Unsigned(*n),
        JsonNumber::Negative(n) => JsonNumber::Negative(*n),
        JsonNumber::Float(text) => JsonNumber::Float(text.clone()),
    }
}

impl JsonValue {
    /// A copy of the whole document.
    pub fn duplicate(&self) -> (copy: JsonValue)
        ensures
            copy@ == self@,
        decreases self,
    {
        match self {
            JsonValue::Null => JsonValue::Null,
            JsonValue::Bool(b) => JsonValue::Bool(*b),
            JsonValue::Number(n) => JsonValue::Number(copy_number(n)),
            JsonValue::Text(text) => JsonValue::Text(text.clone()),
            JsonValue::Array(items) => {
                let mut copies: Vec<JsonValue> = Vec::new();
                let mut i: usize = 0;
                while i < items.len()
                    invariant
                        i <= items@.len(),
                        *self == JsonValue::Array(*items),
                        copies@.len() == i,
                        forall|j: int| #![trigger copies@[j]] 0 <= j < i ==> copies@[j]@ == items@[j]@,
                    decreases items@.len() - i,
                {
                    proof {
                        assert(decreases_to!(self => self->Array_0));
                        assert(decreases_to!(items@ => items@[i as int]));
                    }
                    let copy = items[i].duplicate();
                    copies.push(copy);
                    i = i + 1;
                }
                let copy = JsonValue::Array(copies);
                assert(copy@->Array_0 =~= self@->Array_0);
                copy
            },
            JsonValue::Object(map) => {
                let mut copies: Vec<(String, JsonValue)> = Vec::new();
                let mut i: usize = 0;
                while i < map.entries.len()
                    invariant
                        i <= map.entries@.len(),
                        *self == JsonValue::Object(*map),
                        copies@.len() == i,
                        forall|j: int|
                            #![trigger copies@[j]]
                            0 <= j < i ==> copies@[j].0@ == map.entries@[j].0@ && copies@[j].1@
                                == map.entries@[j].1@,
                    decreases map.entries@.len() - i,
                {
                    proof {
                        assert(decreases_to!(self => self->Object_0));
                        assert(decreases_to!(map => map.entries));
                        assert(decreases_to!(map.entries@ => map.entries@[i as int]));

                    }
                    let copy = map.entries[i].1.duplicate();
                    copies.push((map.entries[i].0.clone(), copy));
                    i = i + 1;
                }
                let copy = JsonValue::Object(JsonMap { entries: copies });
                assert(copy@->Object_0 =~= self@->Object_0);
                copy
            },
        }
    }
}

impl JsonMap {
    /// An object without members.
    pub fn new() -> (map: JsonMap)
        ensures
            map@ == Seq::<(Seq<char>, JsonView)>::empty(),
    {
        let map = JsonMap { entries: Vec::new() };
        assert(map@ =~= Seq::<(Seq<char>, JsonView)>::empty());
        map
    }

    /// Names stand in the same places in the entries and in the members.
    proof fn places(&self, name: Seq<char>)
        ensures
            position(self@, name) == position(members_of(self.entries@), name),
            0 <= position(self@, name) <= self@.len(),
            self@.len() == self.entries@.len(),
    {
        position_by_names(self@, members_of(self.entries@), name);
        position_finds(self@, name);
    }

    /// The value under a name.
    pub fn get(&self, name: &str) -> (found: Option<&JsonValue>)
        ensures
            found is Some <==> has_name(self@, name@),
            found matches Some(value) ==> lookup(self@, name@) == Some(value@),
    {
        let at = find(&self.entries, name);
        proof {
            self.places(name@);
        }
        if at < self.entries.len() {
            Some(&self.entries[at].1)
        } else {
            None
        }
    }

    /// Whether the object has a member of this name.
    pub fn contains_key(&self, name: &str) -> (found: bool)
        ensures
            found == has_name(self@, name@),
    {
        self.get(name).is_some()
    }

    /// Whether the object has no member.
    pub fn is_empty(&self) -> (empty: bool)
        ensures
            empty == (self@.len() == 0),
    {
        self.entries.len() == 0
    }

    /// Puts a value under a name, in place of what was there.
    pub fn insert(&mut self, name: String, value: JsonValue)
        ensures
            final(self)@ == assign(old(self)@, name@, value@),
    {
        let at = find(&self.entries, name.as_str());
        proof {
            self.places(name@);
        }
        if at < self.entries.len() {
            self.entries[at] = (name, value);
        } else {
            self.entries.push((name, value));
        }
        assert(self@ =~= assign(old(self)@, name@, value@));
    }

    /// Takes the member of a name out.
    pub fn remove(&mut self, name: &str) -> (removed: Option<JsonValue>)
        ensures
            final(self)@ == without(old(self)@, name@),
            removed is Some <==> has_name(old(self)@, name@),
            removed matches Some(value) ==> lookup(old(self)@, name@) == Some(value@),
    {
        let at = find(&self.entries, name);
        proof {
            self.places(name@);
        }
        if at < self.entries.len() {
            let removed = self.entries.remove(at);
            assert(self@ =~= without(old(self)@, name@));
            Some(removed.1)
        } else {
            None
        }
    }
}

/// The canonical form: every object, at any depth, has its members in the order of their names.
pub open spec fn canonical(value: JsonView) -> JsonView
    decreases value,
{
    match value {
        JsonView::Array(items) => JsonView::Array(canonical_items(items)),
        JsonView::Object(members) => JsonView::Object(in_order(canonical_members(members))),
        _ => value,
    }
}

/// The items in canonical form.
pub open spec fn canonical_items(items: Seq<JsonView>) -> Seq<JsonView>
    decreases items,
{
    Seq::new(
        items.len(),
        |i: int|
            if 0 <= i < items.len() {
                canonical(items[i])
            } else {
                JsonView::Null
            },
    )
}

/// The members with their values in canonical form.
pub open spec fn canonical_members(members: Seq<(Seq<char>, JsonView)>) -> Seq<
    (Seq<char>, JsonView),
>
    decreases members,
{
    Seq::new(
        members.len(),
        |i: int|
            if 0 <= i < members.len() {
                (members[i].0, canonical(members[i].1))
            } else {
                (Seq::empty(), JsonView::Null)
            },
    )
}

/// Ordered insertion of a value inserts the document that it holds.
proof fn put_views(members: Seq<(Seq<char>, JsonValue)>, name: Seq<char>, value: JsonValue)
    ensures
        member_views(put(members, name, value)) == put(member_views(members), name, value@),
    decreases members.len(),
{
    let views = member_views(members);
    if members.len() > 0 {
        assert(views.last() == (members.last().0, json_view(members.last().1)));
        assert(views.drop_last() =~= member_views(members.drop_last()));
        put_views(members.drop_last(), name, value);
    }
    assert(member_views(put(members, name, value)) =~= put(views, name, value@));
}

/// Puts every object of a document, at any depth, in the order of its member names.
pub fn canonical_json(value: &JsonValue) -> (result: JsonValue)
    ensures
        result@ == canonical(value@),
    decreases value,
{
    match value {
        JsonValue::Array(items) => {
            let mut results: Vec<JsonValue> = Vec::new();
            let mut i: usize = 0;
            while i < items.len()
                invariant
                    i <= items@.len(),
                    *value == JsonValue::Array(*items),
                    results@.len() == i,
                    forall|j: int|
                        #![trigger results@[j]]
                        0 <= j < i ==> results@[j]@ == canonical(items@[j]@),
                decreases items@.len() - i,
            {
                proof {
                    assert(decreases_to!(value => value->Array_0));
                    assert(decreases_to!(items@ => items@[i as int]));
                }
                let item = canonical_json(&items[i]);
                results.push(item);
                i = i + 1;
            }
            let result = JsonValue::Array(results);
            assert(result@->Array_0 =~= canonical(value@)->Array_0);
            result
        },
        JsonValue::Object(map) => {
            let ghost target = canonical_members(map@);
            let mut sorted: SortedMap<JsonValue> = SortedMap::new();
            let mut i: usize = 0;
            assert(member_views(sorted@) =~= in_order(target.take(0)));
            while i < map.entries.len()
                invariant
                    i <= map.entries@.len(),
                    *value == JsonValue::Object(*map),
                    target == canonical_members(map@),
                    map@.len() == map.entries@.len(),
                    member_views(sorted@) == in_order(target.take(i as int)),
                decreases map.entries@.len() - i,
            {
                proof {
                    assert(decreases_to!(value => value->Object_0));
                    assert(decreases_to!(map => map.entries));
                    assert(decreases_to!(map.entries@ => map.entries@[i as int]));

                }
                let item = canonical_json(&map.entries[i].1);
                let name = map.entries[i].0.clone();
                proof {
                    put_views(sorted@, name@, item);
                    assert(target.take(i + 1).drop_last() =~= target.take(i as int));
                    assert(target.take(i + 1).last() == (name@, item@));
                }
                sorted.insert(name, item);
                i = i + 1;
            }
            let result = JsonValue::Object(JsonMap { entries: sorted.entries });
            proof {
                assert(target.take(i as int) =~= target);
                assert(result@->Object_0 =~= member_views(sorted@));
                assert(value@ =~= JsonView::Object(map@));
            }
            result
        },
        _ => value.duplicate(),
    }
}

/// The members of an object in the order of their names; of members with one name the last counts.
pub fn sort_members(map: &JsonMap) -> (sorted: SortedMap<JsonValue>)
    ensures
        sorted.wf(),
        member_views(sorted@) == in_order(map@),
{
    let mut sorted: SortedMap<JsonValue> = SortedMap::new();
    let mut i: usize = 0;
    assert(member_views(sorted@) =~= in_order(map@.take(0)));
    while i < map.entries.len()
        invariant
            i <= map.entries@.len(),
            map@.len() == map.entries@.len(),
            sorted.wf(),
            member_views(sorted@) == in_order(map@.take(i as int)),
        decreases map.entries@.len() - i,
    {
        let item = map.entries[i].1.duplicate();
        let name = map.entries[i].0.clone();
        proof {
            put_views(sorted@, name@, item);
            assert(map@.take(i + 1).drop_last() =~= map@.take(i as int));
            assert(map@.take(i + 1).last() == (name@, item@));
        }
        sorted.insert(name, item);
        i = i + 1;
    }
    assert(map@.take(i as int) =~= map@);
    sorted
}

/// Two documents that differ at most in the order of object members, at any depth, where no
/// object has a name twice.
pub open spec fn same_but_order(a: JsonView, b: JsonView) -> bool
    decreases a,
{
    match (a, b) {
        (JsonView::Array(x), JsonView::Array(y)) => {
            &&& x.len() == y.len()
            &&& forall|i: int| #![trigger x[i]] 0 <= i < x.len() ==> same_but_order(x[i], y[i])
        },
        (JsonView::Object(x), JsonView::Object(y)) => {
            &&& names_distinct(x)
            &&& names_distinct(y)
            &&& forall|i: int|
                #![trigger x[i]]
                0 <= i < x.len() ==> has_name(y, x[i].0) && same_but_order(
                    x[i].1,
                    lookup(y, x[i].0)->0,
                )
            &&& forall|j: int| #![trigger y[j]] 0 <= j < y.len() ==> has_name(x, y[j].0)
        },
        _ => a == b,
    }
}

/// What is under a name, in canonical form.
proof fn canonical_lookup(members: Seq<(Seq<char>, JsonView)>, name: Seq<char>)
    ensures
        names_distinct(members) ==> names_distinct(canonical_members(members)),
        lookup(canonical_members(members), name) == (match lookup(members, name) {
            Some(value) => Some(canonical(value)),
            None => None,
        }),
{
    let result = canonical_members(members);
    position_by_names(result, members, name);
    position_finds(members, name);
    if names_distinct(members) {
        assert forall|i: int, j: int|
            #![trigger result[i], result[j]]
            0 <= i < j < result.len() implies result[i].0 != result[j].0 by {
            assert(members[i].0 != members[j].0);
        }
    }
}

/// The canonical form does not depend on the order in which object members were written.
pub proof fn canonical_ignores_order(a: JsonView, b: JsonView)
    requires
        same_but_order(a, b),
    ensures
        canonical(a) == canonical(b),
    decreases a,
{
    match (a, b) {
        (JsonView::Array(x), JsonView::Array(y)) => {
            assert forall|i: int| 0 <= i < x.len() implies canonical(x[i]) == canonical(y[i]) by {
                canonical_ignores_order(x[i], y[i]);
            }
            assert(canonical_items(x) =~= canonical_items(y));
        },
        (JsonView::Object(x), JsonView::Object(y)) => {
            let cx = canonical_members(x);
            let cy = canonical_members(y);
            in_order_is_sorted(cx);
            in_order_is_sorted(cy);
            assert forall|name: Seq<char>| #[trigger]
                lookup(in_order(cx), name) == lookup(in_order(cy), name) by {
                canonical_lookup(x, name);
                canonical_lookup(y, name);
                in_order_lookup(cx, name);
                in_order_lookup(cy, name);
                position_finds(x, name);
                position_finds(y, name);
                if has_name(x, name) {
                    let i = position(x, name);
                    assert(x[i].0 == name);
                    canonical_ignores_order(x[i].1, lookup(y, name)->0);
                } else if has_name(y, name) {
                    assert(y[position(y, name)].0 == name);
                }
            }
            sorted_by_lookup(in_order(cx), in_order(cy));
        },
        _ => {},
    }
}

/// The canonical form of a canonical form is itself.
pub proof fn canonical_is_stable(value: JsonView)
    ensures
        canonical(canonical(value)) == canonical(value),
    decreases value,
{
    match value {
        JsonView::Array(items) => {
            assert forall|i: int| 0 <= i < items.len() implies canonical(canonical(items[i]))
                == canonical(items[i]) by {
                canonical_is_stable(items[i]);
            }
            assert(canonical_items(canonical_items(items)) =~= canonical_items(items));
        },
        JsonView::Object(members) => {
            let inner = canonical_members(members);
            let sorted = in_order(inner);
            in_order_is_sorted(inner);
            assert forall|i: int| 0 <= i < sorted.len() implies canonical(
                #[trigger] sorted[i].1,
            ) == sorted[i].1 by {
                in_order_members(inner, i);
                let j = choose|j: int| 0 <= j < inner.len() && inner[j] == sorted[i];
                assert(sorted[i].1 == canonical(members[j].1));
                canonical_is_stable(members[j].1);
            }
            assert(canonical_members(sorted) =~= sorted);
            in_order_of_sorted(sorted);
        },
        _ => {},
    }
}

/// What a reader of JSON text can come back with: no object has a name twice, and a negative
/// number is one.
pub open spec fn readable(value: JsonView) -> bool
    decreases value,
{
    match value {
        JsonView::Number(JsonNumberView::Negative(n)) => n < 0,
        JsonView::Array(items) => forall|i: int|
            #![trigger items[i]]
            0 <= i < items.len() ==> readable(items[i]),
        JsonView::Object(members) => {
            &&& names_distinct(members)
            &&& forall|i: int|
                #![trigger members[i]]
                0 <= i < members.len() ==> readable(members[i].1)
        },
        _ => true,
    }
}

/// Whether all numbers are integers and containers are nested no deeper than `levels`.
pub open spec fn exact_within(value: JsonView, levels: nat) -> bool
    decreases value,
{
    match value {
        JsonView::Number(number) => !(number is Float),
        JsonView::Array(items) => {
            &&& levels > 0
            &&& forall|i: int|
                #![trigger items[i]]
                0 <= i < items.len() ==> exact_within(items[i], (levels - 1) as nat)
        },
        JsonView::Object(members) => {
            &&& levels > 0
            &&& forall|i: int|
                #![trigger members[i]]
                0 <= i < members.len() ==> exact_within(members[i].1, (levels - 1) as nat)
        },
        _ => true,
    }
}

/// The canonical form of a document that a reader can come back with is one, too, and is exact and
/// nested no deeper where the document is.
pub proof fn canonical_is_readable(value: JsonView, levels: nat)
    requires
        readable(value),
    ensures
        readable(canonical(value)),
        exact_within(value, levels) ==> exact_within(canonical(value), levels),
    decreases value,
{
    match value {
        JsonView::Array(items) => {
            let inner = canonical_items(items);
            assert forall|i: int| #![trigger inner[i]] 0 <= i < inner.len() implies readable(inner[i])
                && (exact_within(value, levels) ==> exact_within(
                inner[i],
                (levels - 1) as nat,
            )) by {
                assert(readable(items[i]));
                canonical_is_readable(items[i], (levels - 1) as nat);
            }
        },
        JsonView::Object(members) => {
            let inner = canonical_members(members);
            let sorted = in_order(inner);
            in_order_is_sorted(inner);
            assert forall|i: int| #![trigger sorted[i]] 0 <= i < sorted.len() implies readable(
                sorted[i].1,
            ) && (exact_within(value, levels) ==> exact_within(
                sorted[i].1,
                (levels - 1) as nat,
            )) by {
                in_order_members(inner, i);
                let j = choose|j: int| 0 <= j < inner.len() && inner[j] == sorted[i];
                assert(sorted[i].1 == canonical(members[j].1));
                canonical_is_readable(members[j].1, (levels - 1) as nat);
            }
        },
        _ => {},
    }
}

/// The canonical form tells documents apart but for the order of object members.
pub proof fn canonical_tells_apart(a: JsonView, b: JsonView)
    requires
        readable(a),
        readable(b),
        canonical(a) == canonical(b),
    ensures
        same_but_order(a, b),
    decreases a,
{
    match (a, b) {
        (JsonView::Array(x), JsonView::Array(y)) => {
            assert(canonical_items(x) == canonical_items(y));
            assert(canonical_items(x).len() == canonical_items(y).len());
            assert forall|i: int| #![trigger x[i]] 0 <= i < x.len() implies same_but_order(
                x[i],
                y[i],
            ) by {
                assert(canonical_items(x)[i] == canonical_items(y)[i]);
                assert(readable(y[i]));
                canonical_tells_apart(x[i], y[i]);
            }
        },
        (JsonView::Object(x), JsonView::Object(y)) => {
            let cx = canonical_members(x);
            let cy = canonical_members(y);
            assert(in_order(cx) == in_order(cy));
            assert forall|i: int| #![trigger x[i]] 0 <= i < x.len() implies has_name(y, x[i].0)
                && same_but_order(x[i].1, lookup(y, x[i].0)->0) by {
                same_under_name(x, y, x[i].0);
                position_finds(x, x[i].0);
                let k = position(y, x[i].0);
                position_finds(y, x[i].0);
                assert(position(x, x[i].0) == i);
                assert(readable(y[k].1));
                canonical_tells_apart(x[i].1, y[k].1);
            }
            assert forall|j: int| #![trigger y[j]] 0 <= j < y.len() implies has_name(x, y[j].0) by {
                same_under_name(x, y, y[j].0);
                position_finds(y, y[j].0);
            }
        },
        _ => {},
    }
}

/// The canonical form changes nothing but the order of object members: at every depth the same values
/// stand under the same names, and in the same places of arrays.
pub proof fn canonical_changes_order_only(value: JsonView)
    requires
        readable(value),
    ensures
        same_but_order(value, canonical(value)),
{
    canonical_is_readable(value, 0);
    canonical_is_stable(value);
    canonical_tells_apart(value, canonical(value));
}

/// In the canonical form the members of an object stand in the order of their names.
pub proof fn canonical_members_stand_in_order(members: Seq<(Seq<char>, JsonView)>, i: int, j: int)
    requires
        canonical(JsonView::Object(members)) is Object,
        0 <= i < j < canonical(JsonView::Object(members))->Object_0.len(),
    ensures
        text_less(
            canonical(JsonView::Object(members))->Object_0[i].0,
            canonical(JsonView::Object(members))->Object_0[j].0,
        ),
{
    in_order_is_sorted(canonical_members(members));
}

/// Contracts see a value as it is: its kind, what it holds, and the order of items and members.
pub proof fn values_are_seen_as_they_are(value: JsonValue)
    ensures
        match value {
            JsonValue::Null => value@ is Null,
            JsonValue::Bool(truth) => value@ == JsonView::Bool(truth),
            JsonValue::Number(JsonNumber::Unsigned(number)) => value@ == JsonView::Number(
                JsonNumberView::Unsigned(number),
            ),
            JsonValue::Number(JsonNumber::Negative(number)) => value@ == JsonView::Number(
                JsonNumberView::Negative(number),
            ),
            JsonValue::Number(JsonNumber::Float(text)) => value@ == JsonView::Number(
                JsonNumberView::Float(text@),
            ),
            JsonValue::Text(text) => value@ == JsonView::Text(text@),
            JsonValue::Array(items) => {
                &&& value@ is Array
                &&& value@->Array_0.len() == items@.len()
                &&& forall|i: int|
                    0 <= i < items@.len() ==> value@->Array_0[i] == #[trigger] items@[i]@
            },
            JsonValue::Object(map) => {
                &&& value@ == JsonView::Object(map@)
                &&& map@.len() == map.entries@.len()
                &&& forall|i: int|
                    #![trigger map.entries@[i]]
                    0 <= i < map.entries@.len() ==> map@[i].0 == map.entries@[i].0@ && map@[i].1
                        == map.entries@[i].1@
            },
        },
{
}

/// Objects with one canonical form have, under each name, values with one canonical form.
proof fn same_under_name(
    x: Seq<(Seq<char>, JsonView)>,
    y: Seq<(Seq<char>, JsonView)>,
    name: Seq<char>,
)
    requires
        names_distinct(x),
        names_distinct(y),
        in_order(canonical_members(x)) == in_order(canonical_members(y)),
    ensures
        has_name(x, name) == has_name(y, name),
        has_name(x, name) ==> canonical(lookup(x, name)->0) == canonical(lookup(y, name)->0),
{
    canonical_lookup(x, name);
    canonical_lookup(y, name);
    in_order_lookup(canonical_members(x), name);
    in_order_lookup(canonical_members(y), name);
}

/// How deep the reader follows nested arrays and objects.
pub const MAX_NESTING: usize = 127;

/// The documents that reading gives back as they were written: those that a reader can come
/// back with, without fractions, and no deeper than the reader follows.
pub open spec fn reads_back(value: JsonView) -> bool {
    readable(value) && exact_within(value, MAX_NESTING as nat)
}

/// The objects among them.
pub open spec fn object_reads_back(value: JsonView) -> bool {
    reads_back(value) && value is Object
}

/// What `serde_json::from_str` reads from a text: the document, or the text of its error.
pub uninterp spec fn json_parse(text: Seq<char>) -> Result<JsonView, Seq<char>>;

/// The outcome of a reading that came back with a document.
pub open spec fn parsed(value: JsonView) -> Result<JsonView, Seq<char>> {
    Ok(value)
}

/// What `serde_json::from_slice` reads from bytes, where it reads a document.
pub uninterp spec fn json_parse_bytes(bytes: Seq<u8>) -> Option<JsonView>;

/// Whether `serde_json::from_slice` reads bytes as an object whose values it passes over.
pub uninterp spec fn json_skims(bytes: Seq<u8>) -> bool;

/// What `serde_json::to_string` writes for a document.
pub uninterp spec fn json_text(value: JsonView) -> Seq<char>;

/// What `serde_json::to_vec_pretty` writes for a document.
pub uninterp spec fn json_pretty(value: JsonView) -> Seq<u8>;

/// `serde_json::Value`, the document type of the reader and the writer.
#[verifier::external_type_specification]
#[verifier::external_body]
pub struct ExSerdeValue(serde_json::Value);

/// The library's form of a `serde_json::Value`, variant for variant.
#[verifier::external_body]
fn from_serde(value: SerdeValue) -> (result: JsonValue) {
    match value {
        SerdeValue::Null => JsonValue::Null,
        SerdeValue::Bool(b) => JsonValue::Bool(b),
        SerdeValue::Number(n) => JsonValue::Number(match (n.as_u64(), n.as_i64()) {
            (Some(u), _) => JsonNumber::Unsigned(u),
            (None, Some(i)) => JsonNumber::Negative(i),
            (None, None) => JsonNumber::Float(n.to_string()),
        }),
        SerdeValue::String(text) => JsonValue::Text(text),
        SerdeValue::Array(items) => JsonValue::Array(items.into_iter().map(from_serde).collect()),
        SerdeValue::Object(map) => JsonValue::Object(
            JsonMap { entries: map.into_iter().map(|(k, v)| (k, from_serde(v))).collect() }),
    }
}

/// The `serde_json::Value` of the library's form, variant for variant.
#[verifier::external_body]
fn to_serde(value: &JsonValue) -> (result: SerdeValue) {
    match value {
        JsonValue::Null => SerdeValue::Null,
        JsonValue::Bool(b) => SerdeValue::from(*b),
        JsonValue::Number(JsonNumber::Unsigned(u)) => SerdeValue::from(*u),
        JsonValue::Number(JsonNumber::Negative(i)) => SerdeValue::from(*i),
        JsonValue::Number(JsonNumber::Float(text)) => SerdeValue::from(
            serde_json::Number::from_f64(text.parse().unwrap_or_default())),
        JsonValue::Text(text) => SerdeValue::from(text.as_str()),
        JsonValue::Array(items) => items.iter().map(to_serde).collect(),
        JsonValue::Object(map) => map.entries.iter().map(|(k, v)| (k.clone(), to_serde(v))).collect(),
    }
}

/// `serde_json::from_str` into a `serde_json::Value`. Claimed: the result depends on the text
/// alone, its object names are distinct (the object is a map), and negative numbers are negative.
#[verifier::external_body]
pub(crate) fn read_json(text: &str) -> (result: Result<JsonValue, String>)
    ensures
        json_parse(text@) == (match result {
            Ok(value) => Ok(value@),
            Err(message) => Err(message@),
        }),
        result matches Ok(value) ==> readable(value@),
{
    serde_json::from_str::<SerdeValue>(text).map(from_serde).map_err(|e| e.to_string())
}

/// `serde_json::from_slice` into a `serde_json::Value`. Claimed: the result depends on the bytes
/// alone, its object names are distinct (the object is a map), and negative numbers are negative.
#[verifier::external_body]
pub(crate) fn read_json_bytes(bytes: &[u8]) -> (result: Option<JsonValue>)
    ensures
        json_parse_bytes(bytes@) == (match result {
            Some(value) => Some(value@),
            None => None,
        }),
        result matches Some(value) ==> readable(value@),
{
    serde_json::from_slice::<SerdeValue>(bytes).ok().map(from_serde)
}

/// `serde_json::from_slice` into a map of `serde::de::IgnoredAny`: the bytes are those of an object,
/// whose names are read and whose values are passed over. Claimed: the answer depends on the bytes
/// alone.
#[verifier::external_body]
pub(crate) fn skim_json_object(bytes: &[u8]) -> (skimmed: bool)
    ensures
        skimmed == json_skims(bytes@),
{
    serde_json::from_slice::<std::collections::BTreeMap<String, serde::de::IgnoredAny>>(bytes).is_ok()
}

/// `serde_json::to_string` of a `serde_json::Value`, which cannot fail. Claimed: the text depends
/// on the document alone, and reading it gives the document back where `reads_back` holds.
#[verifier::external_body]
pub(crate) fn write_json(value: &JsonValue) -> (text: String)
    ensures
        text@ == json_text(value@),
        reads_back(value@) ==> json_parse(text@) == parsed(value@),
{
    serde_json::to_string(&to_serde(value)).unwrap_or_default()
}

/// `serde_json::to_vec_pretty` of a `serde_json::Value`, which cannot fail. Claimed: the bytes
/// depend on the document alone. Where `reads_back` holds, reading them gives the document back, and
/// the text of an object holds its members, one for one: the writer writes a name, a colon and a
/// value for each, with commas between them.
#[verifier::external_body]
pub(crate) fn write_json_pretty(value: &JsonValue) -> (bytes: Vec<u8>)
    ensures
        bytes@ == json_pretty(value@),
        reads_back(value@) ==> json_parse_bytes(bytes@) == Some(value@),
        object_reads_back(value@) ==> written_as(bytes@, value@),
{
    serde_json::to_vec_pretty(&to_serde(value)).unwrap_or_default()
}

}
