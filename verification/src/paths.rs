//! Path texts: what they look like on any platform, and the host's own rules.

use vstd::prelude::*;

use crate::text::begins_with;
use crate::text::to_chars;

verus! {

/// A character that separates path components on some platform.
pub open spec fn is_separator(ch: char) -> bool {
    ch == '/' || ch == '\\'
}

/// An ASCII letter.
pub open spec fn is_ascii_letter(ch: char) -> bool {
    'a' <= ch <= 'z' || 'A' <= ch <= 'Z'
}

/// The text begins with a drive letter and a colon.
pub open spec fn drive_prefixed(path: Seq<char>) -> bool {
    path.len() >= 2 && is_ascii_letter(path[0]) && path[1] == ':'
}

/// The text is an absolute path on some platform: it begins with a slash, with two backslashes,
/// or with a drive letter, a colon and a separator.
pub open spec fn native_absolute(path: Seq<char>) -> bool {
    ||| begins_with(path, '/')
    ||| path.len() >= 2 && path[0] == '\\' && path[1] == '\\'
    ||| path.len() >= 3 && drive_prefixed(path) && is_separator(path[2])
}

/// A component of two dots stands at `at`, between separators or ends of the text.
pub open spec fn parent_component_at(path: Seq<char>, at: int) -> bool {
    &&& 0 <= at
    &&& at + 2 <= path.len()
    &&& path[at] == '.'
    &&& path[at + 1] == '.'
    &&& at == 0 || is_separator(path[at - 1])
    &&& at + 2 == path.len() || is_separator(path[at + 2])
}

/// Some component of the path is two dots.
pub open spec fn has_parent_component(path: Seq<char>) -> bool {
    exists|at: int| #[trigger] parent_component_at(path, at)
}

/// A root that the Windows rules take as it is written, with a normalized remainder.
pub open spec fn verbatim_root(root: Seq<char>) -> bool {
    root.len() >= 3 && root[0] == '\\' && root[1] == '\\' && root[2] == '?'
}

/// Whether a path below a root follows it without a separator of its own: the root is empty, ends
/// in a separator, or is a bare drive.
pub open spec fn takes_no_separator(root: Seq<char>) -> bool {
    root.len() == 0 || is_separator(root.last()) || (root.len() == 2 && drive_prefixed(root))
}

/// The text of a root and of a path below it, with one separator between them unless the root
/// takes none.
pub open spec fn joined_below(root: Seq<char>, child: Seq<char>, joined: Seq<char>) -> bool {
    ||| takes_no_separator(root) && joined == root + child
    ||| joined == root.push('/') + child
    ||| joined == root.push('\\') + child
}

/// Whether a path begins with a drive, or with two separators as a share or a device does. Only such
/// a root leaves something before a path that begins with a slash.
pub open spec fn may_have_prefix(path: Seq<char>) -> bool {
    drive_prefixed(path) || (path.len() >= 2 && is_separator(path[0]) && is_separator(path[1]))
}

/// The text of a path that begins with a separator, joined to a root: the path itself, or behind what
/// the root begins with, a drive or, where it begins with two separators, a share or device.
pub open spec fn joined_rooted(root: Seq<char>, child: Seq<char>, joined: Seq<char>) -> bool {
    ||| joined == child
    ||| drive_prefixed(root) && joined == root.take(2) + child
    ||| root.len() >= 2 && is_separator(root[0]) && is_separator(root[1]) && exists|k: int|
        2 <= k <= root.len() && joined == #[trigger] root.take(k) + child
}

/// The texts that a root and a path may be joined as, on any platform. A path that begins with
/// neither a separator nor a drive goes below the root. One that begins with a slash is rooted, so
/// it keeps of the root at most what comes before its own root. One that begins with a backslash
/// is rooted or goes below the root, and one that begins with a drive stands for itself or goes
/// below the root.
pub open spec fn joined_on_some_host(root: Seq<char>, child: Seq<char>, joined: Seq<char>) -> bool {
    if begins_with(child, '/') {
        joined_rooted(root, child, joined)
    } else if begins_with(child, '\\') {
        joined_rooted(root, child, joined) || joined_below(root, child, joined)
    } else if drive_prefixed(child) {
        joined == child || joined_below(root, child, joined)
    } else {
        joined_below(root, child, joined)
    }
}

/// Whether some host may take a path for absolute: it begins with a slash, with two separators, or
/// with a drive and a separator.
pub open spec fn absolute_on_some_host(path: Seq<char>) -> bool {
    ||| native_absolute(path)
    ||| path.len() >= 2 && is_separator(path[0]) && is_separator(path[1])
}

/// Whether a text goes on from that of a root where a component begins.
pub open spec fn lies_below(root: Seq<char>, text: Seq<char>) -> bool {
    &&& root.is_prefix_of(text)
    &&& takes_no_separator(root) || (text.len() > root.len() && is_separator(
        text[root.len() as int],
    ))
}

/// What is joined below a root lies below it.
pub proof fn joined_lies_below(root: Seq<char>, child: Seq<char>, joined: Seq<char>)
    requires
        joined_below(root, child, joined),
    ensures
        lies_below(root, joined),
{
    assert(root =~= joined.subrange(0, root.len() as int));
}

fn separates(ch: char) -> (yes: bool)
    ensures
        yes == is_separator(ch),
{
    ch == '/' || ch == '\\'
}

fn ascii_letter(ch: char) -> (yes: bool)
    ensures
        yes == is_ascii_letter(ch),
{
    ('a' <= ch && ch <= 'z') || ('A' <= ch && ch <= 'Z')
}

/// Whether the text begins with this character.
pub fn starts_with(path: &str, ch: char) -> (yes: bool)
    ensures
        yes == begins_with(path@, ch),
{
    let chars = to_chars(path);
    chars.len() > 0 && chars[0] == ch
}

/// Whether the text is an absolute path on some platform.
pub fn native_path_str_is_absolute(path: &str) -> (yes: bool)
    ensures
        yes == native_absolute(path@),
{
    let chars = to_chars(path);
    (chars.len() >= 1 && chars[0] == '/') || (chars.len() >= 2 && chars[0] == '\\' && chars[1]
        == '\\') || (chars.len() >= 3 && ascii_letter(chars[0]) && chars[1] == ':' && separates(
        chars[2],
    ))
}

/// Whether the text begins with a drive letter and a colon.
pub fn has_windows_drive_prefix(path: &str) -> (yes: bool)
    ensures
        yes == drive_prefixed(path@),
{
    let chars = to_chars(path);
    chars.len() >= 2 && ascii_letter(chars[0]) && chars[1] == ':'
}

/// Whether some component of the path, split at slashes and backslashes, is two dots.
pub fn relative_path_has_parent_component(path: &str) -> (yes: bool)
    ensures
        yes == has_parent_component(path@),
{
    let chars = to_chars(path);
    let mut at: usize = 0;
    while at < chars.len() && chars.len() - at >= 2
        invariant
            chars@ == path@,
            at <= chars@.len(),
            forall|j: int| 0 <= j < at ==> !#[trigger] parent_component_at(path@, j),
        decreases chars@.len() - at,
    {
        if chars[at] == '.' && chars[at + 1] == '.' && (at == 0 || separates(chars[at - 1])) && (
        chars.len() - at == 2 || separates(chars[at + 2])) {
            assert(parent_component_at(path@, at as int));
            return true;
        }
        at = at + 1;
    }
    false
}

/// `std::path::Path::is_absolute` on the host's platform. Claimed of every platform: an absolute path
/// begins with a slash, with two separators, or with a drive and a separator. Which of these it
/// is depends on the platform.
#[verifier::external_body]
pub(crate) fn host_path_is_absolute(path: &str) -> (absolute: bool)
    ensures
        absolute ==> absolute_on_some_host(path@),
{
    std::path::Path::new(path).is_absolute()
}

/// `std::path::Path::join` on the host's platform, as text. Claimed of every platform, unless the
/// root is a Windows verbatim path: a relative path is put behind the root, with one separator
/// between them unless the root is empty, ends in one or is a bare drive; a path with a root but no
/// prefix replaces all of the root but its prefix; and a path with a prefix replaces the root.
/// Which separator it is, and which of the three a path is that does not begin with a slash,
/// depends on the platform.
#[verifier::external_body]
pub(crate) fn host_path_join(root: &str, path: &str) -> (joined: String)
    ensures
        !verbatim_root(root@) ==> joined_on_some_host(root@, path@, joined@),
{
    std::path::Path::new(root).join(path).to_string_lossy().into_owned()
}

/// What follows does not matter: whatever begins with a slash, with two backslashes, or with a letter, a
/// colon and a separator is absolute.
pub proof fn absolute_by_its_beginning(rest: Seq<char>, letter: char, separator: char)
    requires
        'a' <= letter <= 'z' || 'A' <= letter <= 'Z',
        separator == '/' || separator == '\\',
    ensures
        native_absolute(seq!['/'] + rest),
        native_absolute(seq!['\\', '\\'] + rest),
        native_absolute(seq![letter, ':', separator] + rest),
        drive_prefixed(seq![letter, ':'] + rest),
{
}

/// Nothing else is absolute: no text that begins with another character, with a single backslash, with
/// a letter that no colon follows, or with a drive that no separator follows. A drive is a letter and
/// a colon.
pub proof fn relative_by_its_beginning(first: char, second: char, third: char, rest: Seq<char>)
    ensures
        !native_absolute(Seq::empty()),
        first != '/' ==> !native_absolute(seq![first]),
        first != '/' && second != ':' && !(first == '\\' && second == '\\') ==> !native_absolute(
            seq![first, second] + rest,
        ),
        second == ':' && first != '/' ==> !native_absolute(seq![first, second]),
        second == ':' && first != '/' && third != '/' && third != '\\' ==> !native_absolute(
            seq![first, second, third] + rest,
        ),
        second == ':' && first != '/' && !('a' <= first <= 'z' || 'A' <= first <= 'Z')
            ==> !native_absolute(seq![first, second] + rest),
        second != ':' || !('a' <= first <= 'z' || 'A' <= first <= 'Z') ==> !drive_prefixed(
            seq![first, second] + rest,
        ),
{
}

/// Whether some component is two dots is decided component by component: a path has such a component
/// just if what stands before a separator has one, or what stands behind it. A text without separators
/// has one just if it is two dots itself.
pub proof fn parent_components_are_found_one_by_one(
    before: Seq<char>,
    separator: char,
    after: Seq<char>,
)
    requires
        separator == '/' || separator == '\\',
    ensures
        has_parent_component(before.push(separator) + after) <==> has_parent_component(before)
            || has_parent_component(after),
        !before.contains('/') && !before.contains('\\') ==> (has_parent_component(before) <==> before
            == seq!['.', '.']),
{
    let path = before.push(separator) + after;
    let skipped = before.len() + 1;
    if has_parent_component(before) {
        let at = choose|at: int| parent_component_at(before, at);
        assert(parent_component_at(path, at));
    }
    if has_parent_component(after) {
        let at = choose|at: int| parent_component_at(after, at);
        assert(parent_component_at(path, skipped + at));
    }
    if has_parent_component(path) {
        let at = choose|at: int| parent_component_at(path, at);
        assert(path[before.len() as int] == separator);
        if at < before.len() {
            assert(path[at + 1] == '.');
            assert(parent_component_at(before, at));
        } else {
            assert(path[at] == '.');
            assert(parent_component_at(after, at - skipped));
        }
    }
    if !before.contains('/') && !before.contains('\\') {
        if has_parent_component(before) {
            let at = choose|at: int| parent_component_at(before, at);
            assert(at > 0 ==> before.contains(before[at - 1]));
            assert(at + 2 < before.len() ==> before.contains(before[at + 2]));
            assert(before =~= seq!['.', '.']);
        }
        if before == seq!['.', '.'] {
            assert(parent_component_at(before, 0));
        }
    }
}

}
