//! Values kept under names: plain association sequences, and maps ordered by name.

use vstd::prelude::*;

use crate::text::precedes;
use crate::text::same_text;
use crate::text::text_less;
use crate::text::text_less_irreflexive;
use crate::text::text_less_total;
use crate::text::text_less_transitive;

verus! {

/// Where a name first occurs; the length of the sequence where it does not.
pub open spec fn position<V>(members: Seq<(Seq<char>, V)>, name: Seq<char>) -> int
    decreases members.len(),
{
    if members.len() == 0 || members[0].0 == name {
        0
    } else {
        1 + position(members.drop_first(), name)
    }
}

/// Whether a name occurs.
pub open spec fn has_name<V>(members: Seq<(Seq<char>, V)>, name: Seq<char>) -> bool {
    position(members, name) < members.len()
}

/// The value under a name.
pub open spec fn lookup<V>(members: Seq<(Seq<char>, V)>, name: Seq<char>) -> Option<V> {
    if has_name(members, name) {
        Some(members[position(members, name)].1)
    } else {
        None
    }
}

/// The members with the value of one name replaced in place, or added at the end.
pub open spec fn assign<V>(members: Seq<(Seq<char>, V)>, name: Seq<char>, value: V) -> Seq<
    (Seq<char>, V),
> {
    if has_name(members, name) {
        members.update(position(members, name), (name, value))
    } else {
        members.push((name, value))
    }
}

/// The members without one name.
pub open spec fn without<V>(members: Seq<(Seq<char>, V)>, name: Seq<char>) -> Seq<(Seq<char>, V)> {
    if has_name(members, name) {
        members.remove(position(members, name))
    } else {
        members
    }
}

/// No name occurs twice.
pub open spec fn names_distinct<V>(members: Seq<(Seq<char>, V)>) -> bool {
    forall|i: int, j: int|
        #![trigger members[i], members[j]]
        0 <= i < j < members.len() ==> members[i].0 != members[j].0
}

/// Each name precedes the next ones.
pub open spec fn names_increasing<V>(members: Seq<(Seq<char>, V)>) -> bool {
    forall|i: int, j: int|
        #![trigger members[i], members[j]]
        0 <= i < j < members.len() ==> text_less(members[i].0, members[j].0)
}

/// Ordered insertion: the member takes the place of the one with its name, or goes behind the
/// last name that precedes it.
pub open spec fn put<V>(members: Seq<(Seq<char>, V)>, name: Seq<char>, value: V) -> Seq<
    (Seq<char>, V),
>
    decreases members.len(),
{
    if members.len() == 0 {
        seq![(name, value)]
    } else if members.last().0 == name {
        members.drop_last().push((name, value))
    } else if text_less(members.last().0, name) {
        members.push((name, value))
    } else {
        put(members.drop_last(), name, value).push(members.last())
    }
}

/// The members in the order of their names; of members with one name the last counts.
pub open spec fn in_order<V>(members: Seq<(Seq<char>, V)>) -> Seq<(Seq<char>, V)>
    decreases members.len(),
{
    if members.len() == 0 {
        members
    } else {
        put(in_order(members.drop_last()), members.last().0, members.last().1)
    }
}

/// The members as a mathematical map.
pub open spec fn as_map<V>(members: Seq<(Seq<char>, V)>) -> Map<Seq<char>, V> {
    Map::new(|name: Seq<char>| has_name(members, name), |name: Seq<char>| lookup(members, name)->0)
}

/// What `position` finds: the first member with the name, or the end.
pub proof fn position_finds<V>(members: Seq<(Seq<char>, V)>, name: Seq<char>)
    ensures
        0 <= position(members, name) <= members.len(),
        has_name(members, name) ==> members[position(members, name)].0 == name,
        forall|j: int|
            #![trigger members[j]]
            0 <= j < position(members, name) ==> members[j].0 != name,
    decreases members.len(),
{
    if members.len() > 0 && members[0].0 != name {
        position_finds(members.drop_first(), name);
        assert forall|j: int| #![trigger members[j]] 0 <= j < position(members, name) implies members[j].0
            != name by {
            if j > 0 {
                assert(members[j] == members.drop_first()[j - 1]);
            }
        }
    }
}

/// A place with the name, before which the name does not occur, is its first position.
pub proof fn position_is<V>(members: Seq<(Seq<char>, V)>, name: Seq<char>, at: int)
    requires
        0 <= at <= members.len(),
        at < members.len() ==> members[at].0 == name,
        forall|j: int| #![trigger members[j]] 0 <= j < at ==> members[j].0 != name,
    ensures
        position(members, name) == at,
{
    position_finds(members, name);
}

/// Under a name stands the value of the first member with that name, and nothing where no member has it.
pub proof fn lookup_gives_first_member<V>(members: Seq<(Seq<char>, V)>, name: Seq<char>, at: int)
    requires
        0 <= at < members.len(),
        members[at].0 == name,
        forall|j: int| #![trigger members[j]] 0 <= j < at ==> members[j].0 != name,
    ensures
        has_name(members, name),
        lookup(members, name) == Some(members[at].1),
        !has_name(members.take(at), name),
        lookup(members.take(at), name) is None,
{
    position_is(members, name, at);
    position_is(members.take(at), name, at);
}

/// Assigning a name leaves every member in its place, and adds at most one, at the end. Removing a name
/// closes the gap and leaves the members before and behind it in their order.
pub proof fn members_keep_their_places<V>(
    members: Seq<(Seq<char>, V)>,
    name: Seq<char>,
    value: V,
    at: int,
    i: int,
)
    requires
        0 <= at <= members.len(),
        at < members.len() ==> members[at].0 == name,
        forall|j: int| #![trigger members[j]] 0 <= j < at ==> members[j].0 != name,
        0 <= i < members.len(),
    ensures
        assign(members, name, value).len() == if at < members.len() {
            members.len()
        } else {
            members.len() + 1
        },
        assign(members, name, value)[at] == (name, value),
        i != at ==> assign(members, name, value)[i] == members[i],
        at == members.len() ==> without(members, name) == members,
        at < members.len() ==> without(members, name).len() == members.len() - 1,
        i < at ==> without(members, name)[i] == members[i],
        i > at ==> without(members, name)[i - 1] == members[i],
{
    position_is(members, name, at);
}

/// Two sequences with the same names have each name in the same place.
pub proof fn position_by_names<V, W>(
    left: Seq<(Seq<char>, V)>,
    right: Seq<(Seq<char>, W)>,
    name: Seq<char>,
)
    requires
        left.len() == right.len(),
        forall|i: int| #![trigger left[i]] 0 <= i < left.len() ==> left[i].0 == right[i].0,
    ensures
        position(left, name) == position(right, name),
{
    position_finds(right, name);
    let at = position(right, name);
    assert forall|j: int| #![trigger left[j]] 0 <= j < at implies left[j].0 != name by {
        assert(right[j].0 != name);
    }
    position_is(left, name, at);
}

/// Assigning a name changes what is under that name and nothing else, and keeps names distinct.
pub proof fn assign_effect<V>(
    members: Seq<(Seq<char>, V)>,
    name: Seq<char>,
    value: V,
    other: Seq<char>,
)
    ensures
        lookup(assign(members, name, value), other) == (if other == name {
            Some(value)
        } else {
            lookup(members, other)
        }),
        names_distinct(members) ==> names_distinct(assign(members, name, value)),
{
    let result = assign(members, name, value);
    position_finds(members, name);
    position_finds(members, other);
    let at = position(members, name);
    let there = position(members, other);
    if other == name {
        assert forall|j: int| #![trigger result[j]] 0 <= j < at implies result[j].0 != name by {
            assert(members[j].0 != name);
        }
        position_is(result, name, at);
    } else {
        if there < members.len() {
            assert forall|j: int| #![trigger result[j]] 0 <= j < there implies result[j].0
                != other by {
                assert(members[j].0 != other);
            }
            position_is(result, other, there);
        } else {
            assert forall|j: int| #![trigger result[j]] 0 <= j < result.len() implies result[j].0
                != other by {
                if j < members.len() {
                    assert(members[j].0 != other);
                }
            }
            position_is(result, other, result.len() as int);
        }
    }
    if names_distinct(members) {
        assert forall|i: int, j: int|
            #![trigger result[i], result[j]]
            0 <= i < j < result.len() implies result[i].0 != result[j].0 by {
            if j < members.len() {
                assert(members[i].0 != members[j].0);
            } else {
                assert(members[i].0 != name);
            }
        }
    }
}

/// Removing a name takes away what is under that name and nothing else.
pub proof fn without_effect<V>(members: Seq<(Seq<char>, V)>, name: Seq<char>, other: Seq<char>)
    requires
        names_distinct(members),
    ensures
        lookup(without(members, name), other) == (if other == name {
            None
        } else {
            lookup(members, other)
        }),
        names_distinct(without(members, name)),
{
    let result = without(members, name);
    position_finds(members, name);
    position_finds(members, other);
    let at = position(members, name);
    let there = position(members, other);
    assert forall|i: int, j: int|
        #![trigger result[i], result[j]]
        0 <= i < j < result.len() implies result[i].0 != result[j].0 by {
        if at < members.len() {
            let i0 = if i < at { i } else { i + 1 };
            let j0 = if j < at { j } else { j + 1 };
            assert(result[i] == members[i0]);
            assert(result[j] == members[j0]);
        }
    }
    if at < members.len() {
        if other != name && there < members.len() {
            let now = if there < at { there } else { there - 1 };
            assert(result[now] == members[there]);
            assert forall|j: int| #![trigger result[j]] 0 <= j < now implies result[j].0 != other by {
                let j0 = if j < at { j } else { j + 1 };
                assert(result[j] == members[j0]);
                assert(members[j0].0 != other);
            }
            position_is(result, other, now);
        } else {
            assert forall|j: int| #![trigger result[j]] 0 <= j < result.len() implies result[j].0
                != other by {
                let j0 = if j < at { j } else { j + 1 };
                assert(result[j] == members[j0]);
                if other == name {
                    assert(members[at].0 != members[j0].0);
                } else {
                    assert(members[j0].0 != other);
                }
            }
            position_is(result, other, result.len() as int);
        }
    }
}

/// Every name of an ordered insertion's result is the inserted one or was there before.
proof fn put_names<V>(members: Seq<(Seq<char>, V)>, name: Seq<char>, value: V, at: int)
    requires
        0 <= at < put(members, name, value).len(),
    ensures
        put(members, name, value)[at].0 == name || exists|j: int|
            #![trigger members[j]]
            0 <= j < members.len() && members[j].0 == put(members, name, value)[at].0,
    decreases members.len(),
{
    let result = put(members, name, value);
    if members.len() > 0 && members.last().0 != name && !text_less(members.last().0, name) {
        let rest = members.drop_last();
        if at < result.len() - 1 {
            put_names(rest, name, value, at);
            if result[at].0 != name {
                let j = choose|j: int|
                    #![trigger rest[j]]
                    0 <= j < rest.len() && rest[j].0 == put(rest, name, value)[at].0;
                assert(members[j] == rest[j]);
            }
        } else {
            assert(result[at] == members[members.len() - 1]);
        }
    } else if members.len() > 0 {
        if at < result.len() - 1 {
            assert(result[at] == members[at]);
        }
    }
}

/// Ordered insertion keeps the names in order.
pub proof fn put_keeps_order<V>(members: Seq<(Seq<char>, V)>, name: Seq<char>, value: V)
    requires
        names_increasing(members),
    ensures
        names_increasing(put(members, name, value)),
    decreases members.len(),
{
    let result = put(members, name, value);
    if members.len() > 0 {
        let rest = members.drop_last();
        let last = members.last();
        assert(names_increasing(rest));
        if last.0 == name || text_less(last.0, name) {
            assert forall|i: int, j: int|
                #![trigger result[i], result[j]]
                0 <= i < j < result.len() implies text_less(result[i].0, result[j].0) by {
                if i < members.len() - 1 {
                    assert(result[i] == members[i]);
                    if j < result.len() - 1 {
                        assert(result[j] == members[j]);
                    } else {
                        assert(text_less(members[i].0, members[members.len() - 1].0));
                        if last.0 != name {
                            text_less_transitive(members[i].0, last.0, name);
                        }
                    }
                }
            }
        } else {
            put_keeps_order(rest, name, value);
            text_less_total(last.0, name);
            let inner = put(rest, name, value);
            assert forall|i: int, j: int|
                #![trigger result[i], result[j]]
                0 <= i < j < result.len() implies text_less(result[i].0, result[j].0) by {
                if j < inner.len() {
                    assert(inner[i].0 == result[i].0 && inner[j].0 == result[j].0);
                } else {
                    put_names(rest, name, value, i);
                    if inner[i].0 != name {
                        let k = choose|k: int|
                            #![trigger rest[k]]
                            0 <= k < rest.len() && rest[k].0 == inner[i].0;
                        assert(members[k] == rest[k]);
                        assert(text_less(members[k].0, members[members.len() - 1].0));
                    }
                }
            }
        }
    }
}

/// Names in order are distinct.
pub proof fn increasing_is_distinct<V>(members: Seq<(Seq<char>, V)>)
    requires
        names_increasing(members),
    ensures
        names_distinct(members),
{
    assert forall|i: int, j: int|
        #![trigger members[i], members[j]]
        0 <= i < j < members.len() implies members[i].0 != members[j].0 by {
        assert(text_less(members[i].0, members[j].0));
        text_less_irreflexive(members[i].0);
    }
}

/// Adding a member at the end that has a name of its own.
proof fn lookup_pushed<V>(members: Seq<(Seq<char>, V)>, name: Seq<char>, value: V, other: Seq<char>)
    requires
        !has_name(members, name),
    ensures
        lookup(members.push((name, value)), other) == (if other == name {
            Some(value)
        } else {
            lookup(members, other)
        }),
{
    assert(assign(members, name, value) == members.push((name, value)));
    assign_effect(members, name, value, other);
}

/// Ordered insertion is insertion into the map.
pub proof fn put_lookup<V>(members: Seq<(Seq<char>, V)>, name: Seq<char>, value: V, other: Seq<char>)
    requires
        names_increasing(members),
    ensures
        lookup(put(members, name, value), other) == (if other == name {
            Some(value)
        } else {
            lookup(members, other)
        }),
    decreases members.len(),
{
    if members.len() == 0 {
        let empty = Seq::<(Seq<char>, V)>::empty();
        assert(members =~= empty);
        assert(seq![(name, value)] =~= members.push((name, value)));
        lookup_pushed(members, name, value, other);
    } else {
        let rest = members.drop_last();
        let last = members.last();
        assert(names_increasing(rest));
        increasing_is_distinct(members);
        assert(members =~= rest.push(last));
        assert(!has_name(rest, last.0)) by {
            position_finds(rest, last.0);
            if has_name(rest, last.0) {
                let k = position(rest, last.0);
                assert(members[k].0 != members[members.len() - 1].0);
            }
        }
        assert(last == (last.0, last.1));
        lookup_pushed(rest, last.0, last.1, other);
        if last.0 == name {
            lookup_pushed(rest, name, value, other);
        } else if text_less(last.0, name) {
            assert(!has_name(members, name)) by {
                position_finds(members, name);
                if has_name(members, name) {
                    let k = position(members, name);
                    if k < members.len() - 1 {
                        assert(text_less(members[k].0, members[members.len() - 1].0));
                        text_less_transitive(last.0, name, last.0);
                        text_less_irreflexive(last.0);
                    }
                }
            }
            lookup_pushed(members, name, value, other);
        } else {
            let inner = put(rest, name, value);
            put_lookup(rest, name, value, other);
            put_lookup(rest, name, value, last.0);
            assert(!has_name(inner, last.0));
            lookup_pushed(inner, last.0, last.1, other);
        }
    }
}

/// Ordered insertion, read as a map.
pub proof fn put_as_map<V>(members: Seq<(Seq<char>, V)>, name: Seq<char>, value: V)
    requires
        names_increasing(members),
    ensures
        as_map(put(members, name, value)) == as_map(members).insert(name, value),
{
    let left = as_map(put(members, name, value));
    let right = as_map(members).insert(name, value);
    assert forall|other: Seq<char>| left.dom().contains(other) <==> #[trigger] right.dom().contains(
        other,
    ) by {
        put_lookup(members, name, value, other);
    }
    assert forall|other: Seq<char>| #[trigger] left.dom().contains(other) implies left[other]
        == right[other] by {
        put_lookup(members, name, value, other);
    }
    assert(left =~= right);
}

/// Sorting by name yields increasing names and keeps, for each name, its last member.
pub proof fn in_order_is_sorted<V>(members: Seq<(Seq<char>, V)>)
    ensures
        names_increasing(in_order(members)),
        names_distinct(in_order(members)),
    decreases members.len(),
{
    if members.len() > 0 {
        in_order_is_sorted(members.drop_last());
        put_keeps_order(in_order(members.drop_last()), members.last().0, members.last().1);
    }
    increasing_is_distinct(in_order(members));
}

/// Sorting distinct names by name changes nothing of what is under each name.
pub proof fn in_order_lookup<V>(members: Seq<(Seq<char>, V)>, name: Seq<char>)
    requires
        names_distinct(members),
    ensures
        lookup(in_order(members), name) == lookup(members, name),
    decreases members.len(),
{
    if members.len() > 0 {
        let rest = members.drop_last();
        let last = members.last();
        assert(names_distinct(rest)) by {
            assert forall|i: int, j: int|
                #![trigger rest[i], rest[j]]
                0 <= i < j < rest.len() implies rest[i].0 != rest[j].0 by {
                assert(members[i].0 != members[j].0);
            }
        }
        assert(!has_name(rest, last.0)) by {
            position_finds(rest, last.0);
            if has_name(rest, last.0) {
                let k = position(rest, last.0);
                assert(members[k].0 != members[members.len() - 1].0);
            }
        }
        assert(members =~= rest.push((last.0, last.1)));
        in_order_lookup(rest, name);
        in_order_is_sorted(rest);
        put_lookup(in_order(rest), last.0, last.1, name);
        lookup_pushed(rest, last.0, last.1, name);
    }
}

/// Sorting what is in order changes nothing.
pub proof fn in_order_of_sorted<V>(members: Seq<(Seq<char>, V)>)
    requires
        names_increasing(members),
    ensures
        in_order(members) == members,
    decreases members.len(),
{
    if members.len() > 0 {
        let rest = members.drop_last();
        let last = members.last();
        in_order_of_sorted(rest);
        if rest.len() > 0 {
            assert(text_less(members[members.len() - 2].0, members[members.len() - 1].0));
            text_less_irreflexive(last.0);
        }
        assert(put(rest, last.0, last.1) =~= members);
    }
}

/// Ordered insertion only adds the member that it inserts.
proof fn put_members<V>(members: Seq<(Seq<char>, V)>, name: Seq<char>, value: V, at: int)
    requires
        0 <= at < put(members, name, value).len(),
    ensures
        put(members, name, value)[at] == (name, value) || members.contains(
            put(members, name, value)[at],
        ),
    decreases members.len(),
{
    let result = put(members, name, value);
    if members.len() > 0 && members.last().0 != name && !text_less(members.last().0, name) {
        let rest = members.drop_last();
        if at < result.len() - 1 {
            put_members(rest, name, value, at);
            if rest.contains(result[at]) {
                let j = choose|j: int| 0 <= j < rest.len() && rest[j] == result[at];
                assert(members[j] == result[at]);
            }
        } else {
            assert(result[at] == members[members.len() - 1]);
        }
    } else if members.len() > 0 && at < result.len() - 1 {
        assert(result[at] == members[at]);
    }
}

/// Sorting by name adds no member.
pub proof fn in_order_members<V>(members: Seq<(Seq<char>, V)>, at: int)
    requires
        0 <= at < in_order(members).len(),
    ensures
        members.contains(in_order(members)[at]),
    decreases members.len(),
{
    if members.len() > 0 {
        let rest = members.drop_last();
        let last = members.last();
        let sorted = in_order(rest);
        put_members(sorted, last.0, last.1, at);
        let found = in_order(members)[at];
        if found == (last.0, last.1) {
            assert(members[members.len() - 1] == found);
        } else {
            let j = choose|j: int| 0 <= j < sorted.len() && sorted[j] == found;
            in_order_members(rest, j);
            let k = choose|k: int| 0 <= k < rest.len() && rest[k] == found;
            assert(members[k] == found);
        }
    }
}

/// What is in order is determined by what is under each name.
pub proof fn sorted_by_lookup<V>(left: Seq<(Seq<char>, V)>, right: Seq<(Seq<char>, V)>)
    requires
        names_increasing(left),
        names_increasing(right),
        forall|name: Seq<char>| #[trigger] lookup(left, name) == lookup(right, name),
    ensures
        left == right,
    decreases left.len(),
{
    increasing_is_distinct(left);
    increasing_is_distinct(right);
    if left.len() == 0 || right.len() == 0 {
        if left.len() > 0 {
            assert(lookup(left, left[0].0) == lookup(right, left[0].0));
            assert(position(left, left[0].0) == 0);
        }
        if right.len() > 0 {
            assert(lookup(left, right[0].0) == lookup(right, right[0].0));
            assert(position(right, right[0].0) == 0);
        }
        assert(left =~= right);
    } else {
        let a = left.last();
        let b = right.last();
        let at_a = position(right, a.0);
        let at_b = position(left, b.0);
        position_finds(left, a.0);
        position_finds(right, a.0);
        position_finds(left, b.0);
        position_finds(right, b.0);
        position_is(left, a.0, left.len() - 1);
        position_is(right, b.0, right.len() - 1);
        assert(lookup(left, a.0) == lookup(right, a.0));
        assert(lookup(left, b.0) == lookup(right, b.0));
        if a.0 != b.0 {
            assert(text_less(right[at_a].0, right[right.len() - 1].0));
            assert(text_less(left[at_b].0, left[left.len() - 1].0));
            text_less_transitive(a.0, b.0, a.0);
            text_less_irreflexive(a.0);
        }
        let l = left.drop_last();
        let r = right.drop_last();
        assert(left =~= l.push((a.0, a.1)));
        assert(right =~= r.push((b.0, b.1)));
        assert(!has_name(l, a.0)) by {
            position_finds(l, a.0);
            if has_name(l, a.0) {
                assert(left[position(l, a.0)].0 != left[left.len() - 1].0);
            }
        }
        assert(!has_name(r, b.0)) by {
            position_finds(r, b.0);
            if has_name(r, b.0) {
                assert(right[position(r, b.0)].0 != right[right.len() - 1].0);
            }
        }
        assert forall|name: Seq<char>| #[trigger] lookup(l, name) == lookup(r, name) by {
            lookup_pushed(l, a.0, a.1, name);
            lookup_pushed(r, b.0, b.1, name);
            assert(lookup(left, name) == lookup(right, name));
        }
        sorted_by_lookup(l, r);
    }
}

/// The names and values of the entries of a vector.
pub open spec fn members_of<V>(entries: Seq<(String, V)>) -> Seq<(Seq<char>, V)> {
    Seq::new(entries.len(), |i: int| (entries[i].0@, entries[i].1))
}

/// Where a name first occurs; the number of entries where it does not.
pub fn find<V>(entries: &Vec<(String, V)>, name: &str) -> (at: usize)
    ensures
        at == position(members_of(entries@), name@),
        at <= entries@.len(),
        at < entries@.len() ==> entries@[at as int].0@ == name@,
        forall|j: int| #![trigger entries@[j]] 0 <= j < at ==> entries@[j].0@ != name@,
{
    let mut at: usize = 0;
    while at < entries.len() && !same_text(entries[at].0.as_str(), name)
        invariant
            at <= entries@.len(),
            forall|j: int| #![trigger entries@[j]] 0 <= j < at ==> entries@[j].0@ != name@,
        decreases entries@.len() - at,
    {
        at = at + 1;
    }
    proof {
        let members = members_of(entries@);
        assert forall|j: int| #![trigger members[j]] 0 <= j < at implies members[j].0 != name@ by {
            assert(entries@[j].0@ != name@);
        }
        position_is(members, name@, at as int);
    }
    at
}

/// A map from names to values, walked in the order of the names.
#[derive(Debug, PartialEq, Eq)]
pub struct SortedMap<V> {
    pub entries: Vec<(String, V)>,
}

impl<V> View for SortedMap<V> {
    type V = Seq<(Seq<char>, V)>;

    open spec fn view(&self) -> Seq<(Seq<char>, V)> {
        members_of(self.entries@)
    }
}

impl<V> SortedMap<V> {
    /// The names are in order, so none occurs twice.
    pub open spec fn wf(&self) -> bool {
        names_increasing(self@)
    }

    /// The empty map.
    pub fn new() -> (map: Self)
        ensures
            map@ == Seq::<(Seq<char>, V)>::empty(),
            map.wf(),
    {
        let map = SortedMap { entries: Vec::new() };
        assert(map@ =~= Seq::<(Seq<char>, V)>::empty());
        map
    }

    /// Puts a value under a name, in place of what was there.
    pub fn insert(&mut self, name: String, value: V)
        ensures
            final(self)@ == put(old(self)@, name@, value),
            old(self).wf() ==> final(self).wf() && as_map(final(self)@) == as_map(
                old(self)@,
            ).insert(name@, value),
    {
        let ghost before = self@;
        proof {
            if names_increasing(before) {
                put_keeps_order(before, name@, value);
                put_as_map(before, name@, value);
            }
        }
        let mut at: usize = self.entries.len();
        assert(before.take(at as int) =~= before);
        assert(before.skip(at as int) =~= Seq::empty());
        assert(put(before, name@, value) =~= put(before.take(at as int), name@, value)
            + before.skip(at as int));
        while at > 0 && !same_text(self.entries[at - 1].0.as_str(), name.as_str()) && !precedes(
            self.entries[at - 1].0.as_str(),
            name.as_str(),
        )
            invariant
                at <= self.entries@.len(),
                self.entries@ == old(self).entries@,
                before == members_of(self.entries@),
                put(before, name@, value) == put(before.take(at as int), name@, value)
                    + before.skip(at as int),
            decreases at,
        {
            proof {
                let head = before.take(at as int);
                assert(head.last() == before[at - 1]);
                assert(head.drop_last() =~= before.take(at - 1));
                assert(put(head, name@, value) == put(head.drop_last(), name@, value).push(
                    before[at - 1],
                ));
                assert(put(head, name@, value) + before.skip(at as int) =~= put(
                    before.take(at - 1),
                    name@,
                    value,
                ) + before.skip(at - 1));
            }
            at = at - 1;
        }
        let ghost head = before.take(at as int);
        if at > 0 && same_text(self.entries[at - 1].0.as_str(), name.as_str()) {
            self.entries[at - 1] = (name, value);
            assert(head.last() == before[at - 1]);
            assert(self@ =~= put(before, name@, value));
        } else {
            self.entries.insert(at, (name, value));
            if at > 0 {
                assert(head.last() == before[at - 1]);
            }
            assert(self@ =~= put(before, name@, value));
        }
    }

    /// The value under a name.
    pub fn get(&self, name: &str) -> (found: Option<&V>)
        ensures
            found is Some <==> has_name(self@, name@),
            found matches Some(value) ==> lookup(self@, name@) == Some(*value),
    {
        let at = find(&self.entries, name);
        if at < self.entries.len() {
            Some(&self.entries[at].1)
        } else {
            None
        }
    }

    /// Takes away what is under a name, if anything is.
    pub fn remove(&mut self, name: &str) -> (removed: Option<V>)
        requires
            old(self).wf(),
        ensures
            final(self)@ == without(old(self)@, name@),
            final(self).wf(),
            as_map(final(self)@) == as_map(old(self)@).remove(name@),
            removed == lookup(old(self)@, name@),
    {
        let ghost before = self@;
        let at = find(&self.entries, name);
        proof {
            increasing_is_distinct(before);
            without_as_map(before, name@);
        }
        if at < self.entries.len() {
            let (_, value) = self.entries.remove(at);
            assert(self@ =~= without(before, name@));
            proof {
                let result = self@;
                assert forall|i: int, j: int|
                    #![trigger result[i], result[j]]
                    0 <= i < j < result.len() implies text_less(result[i].0, result[j].0) by {
                    let i0 = if i < at { i } else { i + 1 };
                    let j0 = if j < at { j } else { j + 1 };
                    assert(result[i] == before[i0]);
                    assert(result[j] == before[j0]);
                }
            }
            Some(value)
        } else {
            None
        }
    }

    /// Puts every value of another map under its name.
    pub fn extend(&mut self, other: SortedMap<V>)
        requires
            old(self).wf(),
            other.wf(),
        ensures
            final(self).wf(),
            as_map(final(self)@) == as_map(old(self)@).union_prefer_right(as_map(other@)),
    {
        let ghost all = other.entries@;
        let ghost before = as_map(self@);
        let SortedMap { entries } = other;
        proof {
            assert(members_of(all.take(0)) =~= Seq::<(Seq<char>, V)>::empty());
            assert(as_map(self@) =~= before.union_prefer_right(as_map(members_of(all.take(0)))));
        }
        for entry in it: entries
            invariant
                it.seq() == all,
                self.wf(),
                names_increasing(members_of(all)),
                as_map(self@) == before.union_prefer_right(
                    as_map(members_of(all.take(it.index() as int))),
                ),
        {
            let ghost done = members_of(all.take(it.index() as int));
            let (name, value) = entry;
            self.insert(name, value);
            proof {
                let next = members_of(all.take(it.index() + 1));
                assert(next =~= done.push((name@, value)));
                assert forall|i: int, j: int|
                    #![trigger done[i], done[j]]
                    0 <= i < j < done.len() implies text_less(done[i].0, done[j].0) by {
                    assert(members_of(all)[i] == done[i]);
                    assert(members_of(all)[j] == done[j]);
                }
                pushed_as_map(done, name@, value, members_of(all));
                assert(as_map(self@) =~= before.union_prefer_right(as_map(next)));
            }
        }
        assert(all.take(all.len() as int) =~= all);
    }
}

/// Removing a name from distinct members removes it from the map.
proof fn without_as_map<V>(members: Seq<(Seq<char>, V)>, name: Seq<char>)
    requires
        names_distinct(members),
    ensures
        as_map(without(members, name)) == as_map(members).remove(name),
{
    let left = as_map(without(members, name));
    let right = as_map(members).remove(name);
    assert forall|other: Seq<char>| #[trigger]
        left.dom().contains(other) <==> right.dom().contains(other) by {
        without_effect(members, name, other);
    }
    assert forall|other: Seq<char>| #[trigger] left.dom().contains(other) implies left[other]
        == right[other] by {
        without_effect(members, name, other);
    }
    assert(left =~= right);
}

/// A member that goes behind others with smaller names is one more in the map.
proof fn pushed_as_map<V>(
    members: Seq<(Seq<char>, V)>,
    name: Seq<char>,
    value: V,
    all: Seq<(Seq<char>, V)>,
)
    requires
        names_increasing(all),
        members.len() < all.len(),
        forall|i: int| #![trigger members[i]] 0 <= i < members.len() ==> members[i] == all[i],
        all[members.len() as int] == (name, value),
    ensures
        as_map(members.push((name, value))) == as_map(members).insert(name, value),
{
    increasing_is_distinct(all);
    let left = as_map(members.push((name, value)));
    let right = as_map(members).insert(name, value);
    assert forall|i: int| #![trigger members[i]] 0 <= i < members.len() implies members[i].0
        != name by {
        assert(all[i].0 != all[members.len() as int].0);
    }
    position_is(members, name, members.len() as int);
    assert forall|other: Seq<char>| #[trigger]
        left.dom().contains(other) <==> right.dom().contains(other) by {
        lookup_pushed(members, name, value, other);
    }
    assert forall|other: Seq<char>| #[trigger] left.dom().contains(other) implies left[other]
        == right[other] by {
        lookup_pushed(members, name, value, other);
    }
    assert(left =~= right);
}

}
