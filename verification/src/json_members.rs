//! The members of a JSON object as they stand in its text.
//!
//! A reader that puts members into a map forgets that a name stood twice, and one that reads the
//! whole of an object fails on members that nobody asked for. Where that matters the text is taken
//! apart, and only the parts that count are read.

use vstd::prelude::*;

use crate::json::{
    json_parse_bytes, json_skims, read_json_bytes, JsonValue, JsonView,
};
use crate::text::same_text;

verus! {

/// Where a byte next stands, or the end.
pub open spec fn next_byte(text: Seq<u8>, at: int, byte: u8) -> int
    decreases text.len() - at,
{
    if at >= text.len() {
        text.len() as int
    } else if text[at] == byte {
        at
    } else {
        next_byte(text, at + 1, byte)
    }
}

/// Where a string ends, the closing quote included, of which `at` is inside. A backslash takes the
/// byte after it along.
pub open spec fn string_end(text: Seq<u8>, at: int) -> int
    decreases text.len() - at,
{
    if at >= text.len() {
        text.len() as int
    } else if text[at] == 34 {
        at + 1
    } else if text[at] == 92 && at + 1 < text.len() {
        string_end(text, at + 2)
    } else {
        string_end(text, at + 1)
    }
}

/// Where a value ends of which `at` is inside, so many brackets deep: at the comma or the bracket
/// behind it.
pub open spec fn value_end(text: Seq<u8>, at: int, depth: nat) -> int
    decreases text.len() - at,
{
    if at < 0 || at >= text.len() {
        text.len() as int
    } else if text[at] == 34 {
        proof {
            ends_are_later(text, at + 1, 0);
        }
        value_end(text, string_end(text, at + 1), depth)
    } else if text[at] == 123 || text[at] == 91 {
        value_end(text, at + 1, depth + 1)
    } else if text[at] == 125 || text[at] == 93 {
        if depth == 0 {
            at
        } else {
            value_end(text, at + 1, (depth - 1) as nat)
        }
    } else if text[at] == 44 && depth == 0 {
        at
    } else {
        value_end(text, at + 1, depth)
    }
}

/// Strings end, and bytes stand, behind where they are looked for, and within the text.
pub proof fn ends_are_later(text: Seq<u8>, at: int, byte: u8)
    requires
        0 <= at <= text.len(),
    ensures
        at <= string_end(text, at) <= text.len(),
        at <= next_byte(text, at, byte) <= text.len(),
    decreases text.len() - at,
{
    if at < text.len() {
        ends_are_later(text, at + 1, byte);
        if text[at] == 92 && at + 1 < text.len() {
            ends_are_later(text, at + 2, byte);
        }
    }
}

/// Values end behind where they are looked for, and within the text.
pub proof fn values_end_later(text: Seq<u8>, at: int, depth: nat)
    requires
        0 <= at <= text.len(),
    ensures
        at <= value_end(text, at, depth) <= text.len(),
    decreases text.len() - at,
{
    if at < text.len() {
        if text[at] == 34 {
            ends_are_later(text, at + 1, 0);
            values_end_later(text, string_end(text, at + 1), depth);
        } else if text[at] == 123 || text[at] == 91 {
            values_end_later(text, at + 1, depth + 1);
        } else if text[at] == 125 || text[at] == 93 {
            if depth > 0 {
                values_end_later(text, at + 1, (depth - 1) as nat);
            }
        } else {
            values_end_later(text, at + 1, depth);
        }
    }
}

/// Where the parts of the next member stand: its name from the first place to the second, quotes
/// included, and its value from behind the third to the fourth.
pub open spec fn member_places(text: Seq<u8>, at: int) -> (int, int, int, int) {
    let start = next_byte(text, at, 34);
    let end = string_end(text, start + 1);
    let colon = next_byte(text, end, 58);
    (start, end, colon, value_end(text, colon + 1, 0))
}

/// The members of an object from some place in its text on, each as its name and its value.
pub open spec fn members_from(text: Seq<u8>, at: int) -> Seq<(Seq<u8>, Seq<u8>)>
    decreases text.len() - at,
{
    if at < 0 || at > text.len() {
        Seq::empty()
    } else {
        let (start, end, colon, stop) = member_places(text, at);
        proof {
            places_are_later(text, at);
        }
        if start >= text.len() || colon >= text.len() {
            Seq::empty()
        } else {
            seq![(text.subrange(start, end), text.subrange(colon + 1, stop))] + if stop
                < text.len() && text[stop] == 44 {
                members_from(text, stop + 1)
            } else {
                Seq::empty()
            }
        }
    }
}

/// The parts of a member stand one behind the other.
pub proof fn places_are_later(text: Seq<u8>, at: int)
    requires
        0 <= at <= text.len(),
    ensures
        at <= member_places(text, at).0 <= text.len(),
        member_places(text, at).0 < text.len() ==> member_places(text, at).0 < member_places(
            text,
            at,
        ).1 <= member_places(text, at).2 <= text.len(),
        member_places(text, at).0 < text.len() && member_places(text, at).2 < text.len()
            ==> member_places(text, at).2 < member_places(text, at).3 <= text.len(),
{
    let (start, end, colon, stop) = member_places(text, at);
    ends_are_later(text, at, 34);
    if start < text.len() {
        ends_are_later(text, start + 1, 0);
        ends_are_later(text, end, 58);
        if colon < text.len() {
            values_end_later(text, colon + 1, 0);
        }
    }
}

/// The members in the text of an object.
pub open spec fn members_in(text: Seq<u8>) -> Seq<(Seq<u8>, Seq<u8>)> {
    members_from(text, next_byte(text, 0, 123))
}

/// Whether a quoted string reads as this name.
pub open spec fn reads_as(quoted: Seq<u8>, name: Seq<char>) -> bool {
    json_parse_bytes(quoted) == Some(JsonView::Text(name))
}

/// Whether a member of an object has this name.
pub open spec fn named_at(text: Seq<u8>, name: Seq<char>, at: int) -> bool {
    0 <= at < members_in(text).len() && reads_as(members_in(text)[at].0, name)
}

/// Whether a name stands twice in the text of an object.
pub open spec fn stands_twice(text: Seq<u8>, name: Seq<char>) -> bool {
    exists|i: int, j: int|
        i < j && #[trigger] named_at(text, name, i) && #[trigger] named_at(text, name, j)
}

/// Whether a member, and no other, has this name.
pub open spec fn stands_once_at(text: Seq<u8>, name: Seq<char>, at: int) -> bool {
    named_at(text, name, at) && forall|j: int| #[trigger] named_at(text, name, j) ==> j == at
}

/// The text of a list of one value.
pub open spec fn in_brackets(value: Seq<u8>) -> Seq<u8> {
    seq![91u8] + value + seq![93u8]
}

/// What the text of a value reads as that stands one level down.
pub open spec fn reads_inside(value: Seq<u8>) -> Option<JsonView> {
    match json_parse_bytes(in_brackets(value)) {
        Some(JsonView::Array(items)) if items.len() == 1 => Some(items[0]),
        _ => None,
    }
}

/// What stands under a name in the text of an object, if it stands there once and can be read.
pub open spec fn field_in(text: Seq<u8>, name: Seq<char>) -> Option<JsonView> {
    if exists|at: int| stands_once_at(text, name, at) {
        reads_inside(members_in(text)[choose|at: int| stands_once_at(text, name, at)].1)
    } else {
        None
    }
}

/// Whether a text holds the members of a document, one for one: names and values read as they are.
pub open spec fn holds_members(text: Seq<u8>, members: Seq<(Seq<char>, JsonView)>) -> bool {
    &&& members_in(text).len() == members.len()
    &&& forall|i: int|
        #![trigger members_in(text)[i]]
        0 <= i < members.len() ==> reads_as(members_in(text)[i].0, members[i].0) && reads_inside(
            members_in(text)[i].1,
        ) == Some(members[i].1)
}

/// Whether a text is one of an object, and holds its members.
pub open spec fn written_as(text: Seq<u8>, document: JsonView) -> bool {
    json_skims(text) && document is Object && holds_members(text, document->Object_0)
}

/// In a text that holds members with different names, each name has its value.
pub proof fn written_field(text: Seq<u8>, members: Seq<(Seq<char>, JsonView)>, at: int)
    requires
        holds_members(text, members),
        0 <= at < members.len(),
        forall|j: int| #![trigger members[j]] 0 <= j < members.len() && j != at ==> members[j].0
            != members[at].0,
    ensures
        field_in(text, members[at].0) == Some(members[at].1),
{
    let name = members[at].0;
    assert(reads_as(members_in(text)[at].0, name));
    assert(named_at(text, name, at));
    assert forall|j: int| #[trigger] named_at(text, name, j) implies j == at by {
        assert(reads_as(members_in(text)[j].0, members[j].0));
    }
    assert(stands_once_at(text, name, at));
    let chosen = choose|at: int| stands_once_at(text, name, at);
    assert(chosen == at);
}

/// Where a byte next stands, or the end.
fn find_byte(text: &[u8], at: usize, byte: u8) -> (found: usize)
    requires
        at <= text@.len(),
    ensures
        found == next_byte(text@, at as int, byte),
        at <= found <= text@.len(),
{
    let mut i: usize = at;
    while i < text.len() && text[i] != byte
        invariant
            at <= i <= text@.len(),
            next_byte(text@, i as int, byte) == next_byte(text@, at as int, byte),
        decreases text@.len() - i,
    {
        i = i + 1;
    }
    i
}

/// Where a string ends of which `at` is inside.
fn find_string_end(text: &[u8], at: usize) -> (end: usize)
    requires
        at <= text@.len(),
    ensures
        end == string_end(text@, at as int),
        at <= end <= text@.len(),
{
    proof {
        ends_are_later(text@, at as int, 0);
    }
    let mut i: usize = at;
    while i < text.len() && text[i] != 34
        invariant
            at <= i <= text@.len(),
            string_end(text@, i as int) == string_end(text@, at as int),
            at <= string_end(text@, at as int) <= text@.len(),
        decreases text@.len() - i,
    {
        if text[i] == 92 && text.len() - i > 1 {
            i = i + 2;
        } else {
            i = i + 1;
        }
    }
    if i < text.len() {
        i + 1
    } else {
        i
    }
}

/// Where a value ends of which `at` is inside.
fn find_value_end(text: &[u8], at: usize) -> (end: usize)
    requires
        at <= text@.len(),
    ensures
        end == value_end(text@, at as int, 0),
        at <= end <= text@.len(),
{
    let mut i: usize = at;
    let mut depth: usize = 0;
    while i < text.len()
        invariant
            at <= i <= text@.len(),
            depth <= i,
            value_end(text@, i as int, depth as nat) == value_end(text@, at as int, 0),
        decreases text@.len() - i,
    {
        let byte: u8 = text[i];
        if byte == 34 {
            i = find_string_end(text, i + 1);
        } else {
            if byte == 123 || byte == 91 {
                depth = depth + 1;
            } else if byte == 125 || byte == 93 {
                if depth == 0 {
                    return i;
                }
                depth = depth - 1;
            } else if byte == 44 && depth == 0 {
                return i;
            }
            i = i + 1;
        }
    }
    i
}

/// A part of a text.
fn part(text: &[u8], from: usize, to: usize) -> (bytes: Vec<u8>)
    requires
        from <= to <= text@.len(),
    ensures
        bytes@ == text@.subrange(from as int, to as int),
{
    let mut bytes: Vec<u8> = Vec::new();
    let mut i: usize = from;
    while i < to
        invariant
            from <= i <= to <= text@.len(),
            bytes@ == text@.subrange(from as int, i as int),
        decreases to - i,
    {
        bytes.push(text[i]);
        i = i + 1;
        assert(bytes@ =~= text@.subrange(from as int, i as int));
    }
    bytes
}

/// Members as contracts speak of them.
pub open spec fn part_views(parts: Seq<(Vec<u8>, Vec<u8>)>) -> Seq<(Seq<u8>, Seq<u8>)> {
    parts.map_values(|part: (Vec<u8>, Vec<u8>)| (part.0@, part.1@))
}

/// The members in the text of an object, each as its name, quotes included, and its value.
pub fn object_members(text: &[u8]) -> (members: Vec<(Vec<u8>, Vec<u8>)>)
    ensures
        part_views(members@) == members_in(text@),
{
    let mut members: Vec<(Vec<u8>, Vec<u8>)> = Vec::new();
    let mut at: usize = find_byte(text, 0, 123);
    assert(part_views(members@) + members_in(text@) =~= members_in(text@));
    loop
        invariant_except_break
            at <= text@.len(),
            part_views(members@) + members_from(text@, at as int) == members_in(text@),
        ensures
            part_views(members@) == members_in(text@),
        decreases text@.len() - at,
    {
        proof {
            places_are_later(text@, at as int);
        }
        let start = find_byte(text, at, 34);
        if start >= text.len() {
            assert(part_views(members@) =~= members_in(text@));
            break;
        }
        let end = find_string_end(text, start + 1);
        let colon = find_byte(text, end, 58);
        if colon >= text.len() {
            assert(part_views(members@) =~= members_in(text@));
            break;
        }
        let stop = find_value_end(text, colon + 1);
        let member = (part(text, start, end), part(text, colon + 1, stop));
        let ghost before = part_views(members@);
        let ghost view = (member.0@, member.1@);
        members.push(member);
        assert(part_views(members@) =~= before.push(view));
        if stop >= text.len() || text[stop] != 44 {
            assert(part_views(members@) =~= before + (seq![view] + Seq::empty()));
            break;
        }
        proof {
            let rest = members_from(text@, stop + 1);
            assert(part_views(members@) + rest =~= before + (seq![view] + rest));
        }
        at = stop + 1;
    }
    members
}

/// Whether a quoted string reads as this name.
fn is_named(quoted: &Vec<u8>, name: &str) -> (named: bool)
    ensures
        named == reads_as(quoted@, name@),
{
    match read_json_bytes(quoted.as_slice()) {
        Some(JsonValue::Text(read)) => same_text(read.as_str(), name),
        _ => false,
    }
}

/// What the text of a value reads as that stands one level down.
fn read_inside(value: &Vec<u8>) -> (read: Option<JsonValue>)
    ensures
        reads_inside(value@) == (match read {
            Some(read) => Some(read@),
            None => None,
        }),
{
    let mut text: Vec<u8> = Vec::new();
    text.push(91);
    let mut i: usize = 0;
    while i < value.len()
        invariant
            i <= value@.len(),
            text@ == seq![91u8] + value@.take(i as int),
        decreases value@.len() - i,
    {
        text.push(value[i]);
        i = i + 1;
        assert(text@ =~= seq![91u8] + value@.take(i as int));
    }
    text.push(93);
    assert(text@ =~= in_brackets(value@));
    match read_json_bytes(text.as_slice()) {
        Some(JsonValue::Array(items)) => {
            if items.len() == 1 {
                let ghost list = JsonValue::Array(items)@;
                assert(list->Array_0[0] == items@[0]@);
                Some(items[0].duplicate())
            } else {
                None
            }
        },
        _ => None,
    }
}

/// Where a name first stands among members from some place on, or their number.
fn find_name(members: &Vec<(Vec<u8>, Vec<u8>)>, from: usize, name: &str) -> (at: usize)
    requires
        from <= members@.len(),
    ensures
        from <= at <= members@.len(),
        forall|j: int| from <= j < at ==> !reads_as(#[trigger] part_views(members@)[j].0, name@),
        at < members@.len() ==> reads_as(part_views(members@)[at as int].0, name@),
{
    let mut at: usize = from;
    while at < members.len()
        invariant
            from <= at <= members@.len(),
            forall|j: int|
                from <= j < at ==> !reads_as(#[trigger] part_views(members@)[j].0, name@),
        decreases members@.len() - at,
    {
        if is_named(&members[at].0, name) {
            return at;
        }
        at = at + 1;
    }
    at
}

/// Whether a name stands twice in the text of an object.
pub fn name_stands_twice(text: &[u8], name: &str) -> (twice: bool)
    ensures
        twice == stands_twice(text@, name@),
{
    let members = object_members(text);
    let first = find_name(&members, 0, name);
    if first >= members.len() {
        return false;
    }
    let second = find_name(&members, first + 1, name);
    proof {
        assert(named_at(text@, name@, first as int));
        if second < members@.len() {
            assert(named_at(text@, name@, second as int));
        }
    }
    second < members.len()
}

/// What stands under a name in the text of an object, if it stands there once and can be read.
pub fn read_field(text: &[u8], name: &str) -> (field: Option<JsonValue>)
    ensures
        field_in(text@, name@) == (match field {
            Some(field) => Some(field@),
            None => None,
        }),
{
    let members = object_members(text);
    let first = find_name(&members, 0, name);
    if first >= members.len() {
        return None;
    }
    let second = find_name(&members, first + 1, name);
    assert(named_at(text@, name@, first as int));
    if second < members.len() {
        assert(named_at(text@, name@, second as int));
        return None;
    }
    proof {
        assert(stands_once_at(text@, name@, first as int));
        let chosen = choose|at: int| stands_once_at(text@, name@, at);
        assert(chosen == first);
    }
    read_inside(&members[first].1)
}

// Taking apart what was put together.

/// Whether these bytes may stand between quotes: no quote and no backslash on its own, and a backslash
/// with the byte that it takes along.
pub open spec fn string_body(bytes: Seq<u8>) -> bool
    decreases bytes.len(),
{
    if bytes.len() == 0 {
        true
    } else if bytes[0] == 92 {
        bytes.len() >= 2 && string_body(bytes.skip(2))
    } else {
        bytes[0] != 34 && string_body(bytes.skip(1))
    }
}

/// Whether these bytes are a string in quotes.
pub open spec fn quoted_string(bytes: Seq<u8>) -> bool {
    &&& bytes.len() >= 2
    &&& bytes[0] == 34
    &&& bytes.last() == 34
    &&& string_body(bytes.subrange(1, bytes.len() - 1))
}

/// Whether these bytes are the rest of a value, so many brackets deep: strings in quotes, brackets that
/// are closed again, commas inside brackets only, and anything else.
pub open spec fn value_body(bytes: Seq<u8>, depth: nat) -> bool
    decreases bytes.len(),
{
    if bytes.len() == 0 {
        depth == 0
    } else if bytes[0] == 34 {
        exists|end: int|
            0 < end <= bytes.len() && quoted_string(#[trigger] bytes.take(end)) && value_body(
                bytes.skip(end),
                depth,
            )
    } else if bytes[0] == 123 || bytes[0] == 91 {
        value_body(bytes.skip(1), depth + 1)
    } else if bytes[0] == 125 || bytes[0] == 93 {
        depth > 0 && value_body(bytes.skip(1), (depth - 1) as nat)
    } else {
        (bytes[0] == 44 ==> depth > 0) && value_body(bytes.skip(1), depth)
    }
}

/// Whether each member is a string in quotes and a value.
pub open spec fn proper_members(members: Seq<(Seq<u8>, Seq<u8>)>) -> bool {
    forall|i: int|
        #![trigger members[i]]
        0 <= i < members.len() ==> quoted_string(members[i].0) && value_body(members[i].1, 0)
}

/// The text of members, with a colon in each and commas between them, up to the closing bracket.
pub open spec fn text_of_members(members: Seq<(Seq<u8>, Seq<u8>)>) -> Seq<u8>
    decreases members.len(),
{
    if members.len() == 0 {
        seq![125u8]
    } else {
        members[0].0 + seq![58u8] + members[0].1 + if members.len() == 1 {
            seq![125u8]
        } else {
            seq![44u8] + text_of_members(members.skip(1))
        }
    }
}

/// A byte that stands somewhere, with none like it before it, is the next one.
proof fn next_byte_is(text: Seq<u8>, at: int, byte: u8, found: int)
    requires
        0 <= at <= found <= text.len(),
        forall|i: int| #![trigger text[i]] at <= i < found ==> text[i] != byte,
        found < text.len() ==> text[found] == byte,
    ensures
        next_byte(text, at, byte) == found,
    decreases found - at,
{
    if at < found {
        next_byte_is(text, at + 1, byte, found);
    }
}

/// A string ends at the quote behind its body.
proof fn string_ends_behind_body(text: Seq<u8>, at: int, body: Seq<u8>)
    requires
        0 <= at,
        at + body.len() < text.len(),
        text.subrange(at, at + body.len()) == body,
        text[at + body.len()] == 34,
        string_body(body),
    ensures
        string_end(text, at) == at + body.len() + 1,
    decreases body.len(),
{
    if body.len() > 0 {
        assert(text[at] == body[0]);
        let step: int = if body[0] == 92 { 2 } else { 1 };
        let rest = body.skip(step);
        assert(text.subrange(at + step, at + step + rest.len()) =~= rest);
        string_ends_behind_body(text, at + step, rest);
    }
}

/// A value ends at the comma or the bracket behind it.
proof fn value_ends_behind_body(text: Seq<u8>, at: int, body: Seq<u8>, depth: nat)
    requires
        0 <= at,
        at + body.len() < text.len(),
        text.subrange(at, at + body.len()) == body,
        text[at + body.len()] == 44 || text[at + body.len()] == 125,
        value_body(body, depth),
    ensures
        value_end(text, at, depth) == at + body.len(),
    decreases body.len(),
{
    if body.len() > 0 {
        assert(text[at] == body[0]);
        if body[0] == 34 {
            let end = choose|end: int|
                0 < end <= body.len() && quoted_string(#[trigger] body.take(end)) && value_body(
                    body.skip(end),
                    depth,
                );
            let inner = body.take(end).subrange(1, end - 1);
            assert(text.subrange(at + 1, at + 1 + inner.len()) =~= inner);
            assert(text[at + end - 1] == body.take(end).last());
            string_ends_behind_body(text, at + 1, inner);
            assert(text.subrange(at + end, at + end + body.skip(end).len()) =~= body.skip(end));
            value_ends_behind_body(text, at + end, body.skip(end), depth);
        } else {
            let rest = body.skip(1);
            assert(text.subrange(at + 1, at + 1 + rest.len()) =~= rest);
            if body[0] == 123 || body[0] == 91 {
                value_ends_behind_body(text, at + 1, rest, depth + 1);
            } else if body[0] == 125 || body[0] == 93 {
                value_ends_behind_body(text, at + 1, rest, (depth - 1) as nat);
            } else {
                value_ends_behind_body(text, at + 1, rest, depth);
            }
        }
    }
}

/// Members come out of their text from where it begins.
proof fn members_come_out(
    text: Seq<u8>,
    at: int,
    begin: int,
    members: Seq<(Seq<u8>, Seq<u8>)>,
)
    requires
        proper_members(members),
        0 <= at <= begin <= text.len(),
        forall|i: int| #![trigger text[i]] at <= i < begin ==> text[i] != 34,
        text.skip(begin) == text_of_members(members),
    ensures
        members_from(text, at) == members,
    decreases members.len(),
{
    let tail = text_of_members(members);
    assert(forall|i: int|
        #![trigger text[begin + i]]
        0 <= i < tail.len() ==> text[begin + i] == text.skip(begin)[i]);
    if members.len() == 0 {
        assert(text.len() == begin + 1);
        assert(text[begin + 0] == 125);
        next_byte_is(text, at, 34, text.len() as int);
        assert(members_from(text, at) =~= members);
    } else {
        let (quoted, value) = members[0];
        assert(quoted_string(quoted) && value_body(value, 0));
        let inner = quoted.subrange(1, quoted.len() - 1);
        let colon = begin + quoted.len();
        let stop = colon + 1 + value.len();
        let rest = members.skip(1);
        assert(text[begin + 0] == quoted[0]);
        assert(text[begin + (quoted.len() - 1)] == quoted.last());
        assert(text[begin + quoted.len() as int] == 58);
        assert(text[begin + (quoted.len() + 1 + value.len()) as int] == if members.len() == 1 {
            125u8
        } else {
            44u8
        });
        assert(text.subrange(begin + 1, begin + 1 + inner.len()) =~= inner) by {
            assert forall|i: int| 0 <= i < inner.len() implies text[begin + 1 + i]
                == #[trigger] inner[i] by {
                assert(text[begin + (1 + i)] == tail[1 + i]);
            }
        }
        assert(text.subrange(colon + 1, colon + 1 + value.len()) =~= value) by {
            assert forall|i: int| 0 <= i < value.len() implies text[colon + 1 + i]
                == #[trigger] value[i] by {
                assert(text[begin + (quoted.len() + 1 + i)] == tail[quoted.len() + 1 + i]);
            }
        }
        assert(text.subrange(begin, colon) =~= quoted) by {
            assert forall|i: int| 0 <= i < quoted.len() implies text[begin + i]
                == #[trigger] quoted[i] by {
                assert(text[begin + i] == tail[i]);
            }
        }
        next_byte_is(text, at, 34, begin);
        string_ends_behind_body(text, begin + 1, inner);
        next_byte_is(text, colon, 58, colon);
        value_ends_behind_body(text, colon + 1, value, 0);
        assert(member_places(text, at) == (begin, colon, colon, stop));
        places_are_later(text, at);
        if members.len() == 1 {
            assert(members_from(text, at) =~= seq![(quoted, value)]);
        } else {
            assert forall|i: int|
                #![trigger rest[i]]
                0 <= i < rest.len() implies quoted_string(rest[i].0) && value_body(
                rest[i].1,
                0,
            ) by {
                assert(members[i + 1] == rest[i]);
            }
            assert(text.skip(stop + 1) =~= text_of_members(rest)) by {
                let behind = stop + 1 - begin;
                assert(tail.skip(behind) =~= text_of_members(rest));
                assert(text.skip(stop + 1) =~= text.skip(begin).skip(behind));
            }
            members_come_out(text, stop + 1, stop + 1, rest);
        }
        assert(members_from(text, at) =~= members);
    }
}

/// Taking an object's text apart gives the members that it was put together from, all of them and in
/// their order: names in quotes, whatever is escaped in them, and values, whatever strings and brackets
/// are in them.
pub proof fn members_are_taken_apart_as_put_together(members: Seq<(Seq<u8>, Seq<u8>)>)
    requires
        proper_members(members),
    ensures
        members_in(seq![123u8] + text_of_members(members)) == members,
{
    let text = seq![123u8] + text_of_members(members);
    assert(text[0] == 123);
    next_byte_is(text, 0, 123, 0);
    assert(text.skip(1) =~= text_of_members(members));
    members_come_out(text, 0, 1, members);
}

/// A name stands twice just if two members' names read as it. What stands under it is the value of the
/// one member whose name reads as it, read one level down, and nothing where there is none or more than
/// one.
pub proof fn fields_are_those_of_their_members(
    text: Seq<u8>,
    name: Seq<char>,
    i: int,
    j: int,
    value: JsonView,
)
    requires
        0 <= i < members_in(text).len(),
        json_parse_bytes(members_in(text)[i].0) == Some(JsonView::Text(name)),
    ensures
        i < j < members_in(text).len() && json_parse_bytes(members_in(text)[j].0) == Some(
            JsonView::Text(name),
        ) ==> stands_twice(text, name) && field_in(text, name) is None,
        (forall|k: int|
            #![trigger members_in(text)[k]]
            0 <= k < members_in(text).len() && k != i ==> json_parse_bytes(members_in(text)[k].0)
                != Some(JsonView::Text(name))) ==> {
            &&& !stands_twice(text, name)
            &&& field_in(text, name) == Some(value) <==> json_parse_bytes(
                seq![91u8] + members_in(text)[i].1 + seq![93u8],
            ) == Some(JsonView::Array(seq![value]))
        },
{
    assert(named_at(text, name, i));
    if i < j < members_in(text).len() && json_parse_bytes(members_in(text)[j].0) == Some(
        JsonView::Text(name),
    ) {
        assert(named_at(text, name, j));
        assert(forall|at: int| !stands_once_at(text, name, at));
    }
    if forall|k: int|
        #![trigger members_in(text)[k]]
        0 <= k < members_in(text).len() && k != i ==> json_parse_bytes(members_in(text)[k].0)
            != Some(JsonView::Text(name)) {
        assert(stands_once_at(text, name, i));
        let chosen = choose|at: int| stands_once_at(text, name, at);
        assert(chosen == i);
        let read = json_parse_bytes(in_brackets(members_in(text)[i].1));
        if read is Some && read->0 is Array && read->0->Array_0.len() == 1 {
            assert(read->0->Array_0 =~= seq![read->0->Array_0[0]]);
        }
        assert(seq![value].len() == 1 && seq![value][0] == value);
    }
}

/// A name that no member's name reads as stands nowhere.
pub proof fn missing_names_have_no_field(text: Seq<u8>, name: Seq<char>)
    requires
        forall|k: int|
            #![trigger members_in(text)[k]]
            0 <= k < members_in(text).len() ==> json_parse_bytes(members_in(text)[k].0) != Some(
                JsonView::Text(name),
            ),
    ensures
        !stands_twice(text, name),
        field_in(text, name) is None,
{
    assert(forall|at: int| !named_at(text, name, at));
}

}
