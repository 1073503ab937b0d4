//! The skill catalog: where skills come from, how they are listed and how they are read.

use vstd::prelude::*;

use crate::text::{
    begins_with, copy_option, from_chars, option_view, same_text, text_views, to_chars,
};

verus! {

/// A path on the file system of an environment.
#[derive(Debug, PartialEq, Eq)]
pub struct PathUri {
    /// The URI, by which paths are told apart and shown.
    pub uri: String,
    /// The path in the notation that the environment seems to use.
    pub native_path: String,
    /// The last component of the parent, where there is one.
    pub parent_name: Option<String>,
}

/// A path as contracts speak of it.
pub struct PathView {
    pub uri: Seq<char>,
    pub native_path: Seq<char>,
    pub parent_name: Option<Seq<char>>,
}

impl View for PathUri {
    type V = PathView;

    open spec fn view(&self) -> PathView {
        PathView {
            uri: self.uri@,
            native_path: self.native_path@,
            parent_name: option_view(self.parent_name),
        }
    }
}

impl PathUri {
    /// The same path once more.
    pub fn duplicate(&self) -> (copy: PathUri)
        ensures
            copy@ == self@,
    {
        PathUri {
            uri: self.uri.clone(),
            native_path: self.native_path.clone(),
            parent_name: copy_option(&self.parent_name),
        }
    }
}

/// A skill that was found on the file system of an environment.
#[derive(Debug, PartialEq, Eq)]
pub struct ExecutorSkill {
    pub path: PathUri,
    pub name: String,
    pub description: String,
    pub short_description: Option<String>,
}

/// A skill as contracts speak of it.
pub struct SkillView {
    pub path: PathView,
    pub name: Seq<char>,
    pub description: Seq<char>,
    pub short_description: Option<Seq<char>>,
}

impl View for ExecutorSkill {
    type V = SkillView;

    open spec fn view(&self) -> SkillView {
        SkillView {
            path: self.path@,
            name: self.name@,
            description: self.description@,
            short_description: option_view(self.short_description),
        }
    }
}

/// The skills of one root, and what went wrong on the way.
#[derive(Debug, PartialEq, Eq)]
pub struct ExecutorSkillLoadOutcome {
    pub skills: Vec<ExecutorSkill>,
    pub warnings: Vec<String>,
}

/// The kind of a skill's source.
#[derive(Debug, PartialEq, Eq)]
pub enum SkillSourceKind {
    /// The file system of an execution environment.
    Executor,
    /// Another source, by the name it is shown with.
    Other(String),
}

/// Who answers for a skill.
#[derive(Debug, PartialEq, Eq)]
pub struct SkillAuthority {
    pub kind: SkillSourceKind,
    pub id: String,
}

/// The package of a skill.
#[derive(Debug, PartialEq, Eq)]
pub struct SkillPackageId(pub String);

/// A path in an environment.
#[derive(Debug, PartialEq, Eq)]
pub struct EnvironmentPath {
    pub environment_id: String,
    pub path: PathUri,
}

/// A resource of a skill, bound to an environment or not.
#[derive(Debug, PartialEq, Eq)]
pub struct SkillResourceId {
    pub text: String,
    pub environment: Option<EnvironmentPath>,
}

/// A skill as the catalog lists it.
#[derive(Debug, PartialEq, Eq)]
pub struct SkillCatalogEntry {
    pub package: SkillPackageId,
    pub authority: SkillAuthority,
    pub name: String,
    pub description: String,
    pub resource: SkillResourceId,
    pub short_description: Option<String>,
    pub display_path: Option<String>,
}

/// Skills and warnings.
#[derive(Debug, PartialEq, Eq)]
pub struct SkillCatalog {
    pub entries: Vec<SkillCatalogEntry>,
    pub warnings: Vec<String>,
}

/// A request for the contents of a resource.
#[derive(Debug, PartialEq, Eq)]
pub struct SkillReadRequest {
    pub authority: SkillAuthority,
    pub package: SkillPackageId,
    pub resource: SkillResourceId,
}

/// The contents of a resource.
#[derive(Debug, PartialEq, Eq)]
pub struct SkillReadResult {
    pub resource: SkillResourceId,
    pub contents: String,
}

/// What a search found.
#[derive(Debug, PartialEq, Eq)]
pub struct SkillSearchResult {
    pub entries: Vec<SkillCatalogEntry>,
}

/// Why a provider could not answer.
#[derive(Debug, PartialEq, Eq)]
pub struct SkillProviderError {
    pub message: String,
}

// Names and display paths.

/// The name of a skill that gives none: that of its directory, or `skill`.
pub open spec fn default_name(path: PathView) -> Seq<char> {
    match path.parent_name {
        Some(name) if name.len() > 0 => name,
        _ => "skill"@,
    }
}

/// The name of a skill that gives none.
pub fn default_skill_name(path: &PathUri) -> (name: String)
    ensures
        name@ == default_name(path@),
{
    match &path.parent_name {
        Some(name) => if name.as_str().is_empty() {
            "skill".to_owned()
        } else {
            name.clone()
        },
        None => "skill".to_owned(),
    }
}

/// A text with every backslash turned into a slash.
pub open spec fn forward_slashes(text: Seq<char>) -> Seq<char> {
    text.map_values(
        |ch: char|
            if ch == '\\' {
                '/'
            } else {
                ch
            },
    )
}

/// A text without the slashes that it begins with.
pub open spec fn without_leading_slashes(text: Seq<char>) -> Seq<char>
    decreases text.len(),
{
    if begins_with(text, '/') {
        without_leading_slashes(text.drop_first())
    } else {
        text
    }
}

/// The path that a skill is shown with.
pub open spec fn skill_display_path(root_id: Seq<char>, native_path: Seq<char>) -> Seq<char> {
    "skill://"@ + root_id + "/"@ + without_leading_slashes(forward_slashes(native_path))
}

/// A native path with forward slashes and without leading ones.
fn relative_slash_path(native_path: &str) -> (text: String)
    ensures
        text@ == without_leading_slashes(forward_slashes(native_path@)),
{
    let mut chars = to_chars(native_path);
    let ghost wanted = forward_slashes(native_path@);
    let mut i: usize = 0;
    while i < chars.len()
        invariant
            i <= chars@.len(),
            chars@.len() == native_path@.len(),
            wanted == forward_slashes(native_path@),
            forall|j: int| 0 <= j < i ==> chars@[j] == #[trigger] wanted[j],
            forall|j: int| i <= j < chars@.len() ==> chars@[j] == #[trigger] native_path@[j],
        decreases chars@.len() - i,
    {
        if chars[i] == '\\' {
            chars[i] = '/';
        }
        i = i + 1;
    }
    assert(chars@ =~= wanted);
    let mut start: usize = 0;
    assert(wanted.skip(0) =~= wanted);
    while start < chars.len() && chars[start] == '/'
        invariant
            start <= chars@.len(),
            chars@ == wanted,
            without_leading_slashes(wanted.skip(start as int)) == without_leading_slashes(wanted),
        decreases chars@.len() - start,
    {
        assert(wanted.skip(start as int).drop_first() =~= wanted.skip(start + 1));
        start = start + 1;
    }
    assert(wanted.subrange(start as int, wanted.len() as int) =~= wanted.skip(start as int));
    from_chars(&chars, start, chars.len())
}

/// The path that a skill is shown with does not depend on how its native path separates
/// components, nor on leading separators.
pub proof fn display_path_ignores_separators(
    root_id: Seq<char>,
    native_path: Seq<char>,
    separator: char,
)
    requires
        separator == '/' || separator == '\\',
    ensures
        skill_display_path(root_id, seq![separator] + native_path) == skill_display_path(
            root_id,
            native_path,
        ),
        skill_display_path(root_id, forward_slashes(native_path)) == skill_display_path(
            root_id,
            native_path,
        ),
{
    let long = forward_slashes(seq![separator] + native_path);
    assert(long.drop_first() =~= forward_slashes(native_path));
    assert(long[0] == '/');
    assert(forward_slashes(forward_slashes(native_path)) =~= forward_slashes(native_path));
}

/// Dropping leading slashes drops nothing else.
proof fn leading_slashes_alone_are_dropped(text: Seq<char>)
    ensures
        ({
            let rest = without_leading_slashes(text);
            &&& rest.len() <= text.len()
            &&& rest == text.skip(text.len() - rest.len())
            &&& !(rest.len() > 0 && rest[0] == '/')
            &&& forall|i: int| 0 <= i < text.len() - rest.len() ==> #[trigger] text[i] == '/'
        }),
    decreases text.len(),
{
    if begins_with(text, '/') {
        let fewer = text.drop_first();
        let rest = without_leading_slashes(fewer);
        leading_slashes_alone_are_dropped(fewer);
        assert(rest =~= text.skip(text.len() - rest.len()));
        assert forall|i: int| 0 <= i < text.len() - rest.len() implies #[trigger] text[i]
            == '/' by {
            if i > 0 {
                assert(fewer[i - 1] == text[i]);
            }
        }
    } else {
        assert(text.skip(0) =~= text);
    }
}

/// The path that a skill is shown with is the scheme, the id of the root and a slash, and then the
/// native path, character by character: only backslashes have become slashes, and only slashes and
/// backslashes at the beginning are left out.
pub proof fn display_path_shows_every_character(root_id: Seq<char>, native_path: Seq<char>)
    ensures
        ({
            let shown = skill_display_path(root_id, native_path);
            let before = "skill://"@ + root_id + "/"@;
            let rest = shown.skip(before.len() as int);
            let left_out = native_path.len() - rest.len();
            &&& before.is_prefix_of(shown)
            &&& 0 <= left_out
            &&& !rest.contains('\\')
            &&& !(rest.len() > 0 && rest[0] == '/')
            &&& forall|i: int|
                #![trigger rest[i]]
                0 <= i < rest.len() ==> rest[i] == if native_path[left_out + i] == '\\' {
                    '/'
                } else {
                    native_path[left_out + i]
                }
            &&& forall|i: int|
                #![trigger native_path[i]]
                0 <= i < left_out ==> native_path[i] == '/' || native_path[i] == '\\'
        }),
{
    let shown = skill_display_path(root_id, native_path);
    let before = "skill://"@ + root_id + "/"@;
    let slashed = forward_slashes(native_path);
    let rest = without_leading_slashes(slashed);
    leading_slashes_alone_are_dropped(slashed);
    assert(shown.skip(before.len() as int) =~= rest);
    assert(shown.take(before.len() as int) =~= before);
    let left_out = native_path.len() - rest.len();
    assert forall|i: int| #![trigger rest[i]] 0 <= i < rest.len() implies rest[i] == if native_path[
    left_out + i] == '\\' {
        '/'
    } else {
        native_path[left_out + i]
    } by {
        assert(rest[i] == slashed[left_out + i]);
    }
    assert forall|i: int| #![trigger native_path[i]] 0 <= i < left_out implies native_path[i] == '/'
        || native_path[i] == '\\' by {
        assert(slashed[i] == '/');
    }
    assert(!rest.contains('\\'));
}

/// Different native paths, without backslashes and leading slashes, are shown differently below the
/// same root.
pub proof fn display_paths_tell_apart(root_id: Seq<char>, a: Seq<char>, b: Seq<char>)
    requires
        !a.contains('\\') && !b.contains('\\'),
        !(a.len() > 0 && a[0] == '/') && !(b.len() > 0 && b[0] == '/'),
        skill_display_path(root_id, a) == skill_display_path(root_id, b),
    ensures
        a == b,
{
    let before = "skill://"@ + root_id + "/"@;
    assert forall|text: Seq<char>|
        !text.contains('\\') && !(text.len() > 0 && text[0] == '/') implies #[trigger]
        skill_display_path(root_id, text).skip(before.len() as int) == text by {
        display_path_shows_every_character(root_id, text);
        let rest = skill_display_path(root_id, text).skip(before.len() as int);
        let left_out = text.len() - rest.len();
        if left_out > 0 {
            assert(text[0] == '/' || text[0] == '\\');
            assert(text.contains(text[0]));
        }
        assert forall|i: int| 0 <= i < rest.len() implies #[trigger] rest[i] == text[i] by {
            assert(text.contains(text[left_out + i]));
        }
        assert(rest =~= text);
    }
    assert(skill_display_path(root_id, a).skip(before.len() as int) == a);
    assert(skill_display_path(root_id, b).skip(before.len() as int) == b);
}

/// What the catalog says of a skill.
pub open spec fn entry_is(
    entry: SkillCatalogEntry,
    skill: SkillView,
    authority: SkillAuthority,
    root_id: Seq<char>,
    environment_id: Seq<char>,
) -> bool {
    let shown = skill_display_path(root_id, skill.path.native_path);
    &&& entry.package.0@ == shown
    &&& entry.authority == authority
    &&& entry.name@ == skill.name
    &&& entry.description@ == skill.description
    &&& entry.resource.text@ == shown
    &&& entry.resource.environment is Some
    &&& entry.resource.environment->0.environment_id@ == environment_id
    &&& entry.resource.environment->0.path@ == skill.path
    &&& option_view(entry.short_description) == skill.short_description
    &&& option_view(entry.display_path) == Some(shown)
}

/// What the catalog says of a skill that was found below a selected root of an environment.
pub fn catalog_entry_from_skill(
    skill: &ExecutorSkill,
    authority: SkillAuthority,
    selected_root_id: &str,
    environment_id: &str,
) -> (entry: SkillCatalogEntry)
    ensures
        entry_is(entry, skill@, authority, selected_root_id@, environment_id@),
{
    let shown = "skill://".to_owned().concat(selected_root_id).concat("/").concat(
        relative_slash_path(skill.path.native_path.as_str()).as_str(),
    );
    SkillCatalogEntry {
        package: SkillPackageId(shown.clone()),
        authority,
        name: skill.name.clone(),
        description: skill.description.clone(),
        resource: SkillResourceId {
            text: shown.clone(),
            environment: Some(
                EnvironmentPath {
                    environment_id: environment_id.to_owned(),
                    path: skill.path.duplicate(),
                },
            ),
        },
        short_description: copy_option(&skill.short_description),
        display_path: Some(shown),
    }
}

// The provider.

/// A product that skills may be restricted to.
#[derive(Debug, PartialEq, Eq)]
pub struct Product(pub String);

/// Discovers and reads skills through the file system owned by an execution environment.
#[derive(Debug)]
pub struct ExecutorSkillProvider<M> {
    pub environment_manager: std::sync::Arc<M>,
    pub restriction_product: Option<Product>,
}

/// A root that was selected in an environment, and what came of it.
#[derive(Debug, PartialEq, Eq)]
pub struct SelectedRootLoad {
    pub id: String,
    pub environment_id: String,
    /// What the scan of the root brought, if the environment is available.
    pub outcome: Option<ExecutorSkillLoadOutcome>,
}

/// What came of reading a resource.
#[derive(Debug, PartialEq, Eq)]
pub enum SkillReadReply {
    /// There is no such environment.
    EnvironmentUnavailable,
    /// The contents, or what the file system says.
    Read(Result<String, String>),
}

/// What is said of a root whose environment is not there.
pub open spec fn unavailable_root_warning(root_id: Seq<char>, environment_id: Seq<char>) -> Seq<
    char,
> {
    "Selected capability root `"@ + root_id + "` references unavailable environment `"@
        + environment_id + "`."@
}

/// The warnings of a list of roots, in order.
pub open spec fn listed_warnings(loads: Seq<SelectedRootLoad>) -> Seq<Seq<char>>
    decreases loads.len(),
{
    if loads.len() == 0 {
        Seq::empty()
    } else {
        let load = loads.last();
        listed_warnings(loads.drop_last()) + (match load.outcome {
            Some(outcome) => text_views(outcome.warnings@),
            None => seq![unavailable_root_warning(load.id@, load.environment_id@)],
        })
    }
}

/// The skills of a list of roots, in order, each with its root.
pub open spec fn listed_skills(loads: Seq<SelectedRootLoad>) -> Seq<(SkillView, SelectedRootLoad)>
    decreases loads.len(),
{
    if loads.len() == 0 {
        Seq::empty()
    } else {
        let load = loads.last();
        listed_skills(loads.drop_last()) + (match load.outcome {
            Some(outcome) => Seq::new(
                outcome.skills@.len(),
                |i: int| (outcome.skills@[i]@, load),
            ),
            None => Seq::empty(),
        })
    }
}

/// Whether an authority is the one that answers for a root.
pub open spec fn executor_authority(authority: SkillAuthority, root_id: Seq<char>) -> bool {
    authority.kind is Executor && authority.id@ == root_id
}

/// Whether an entry is what the catalog says of a skill below a root.
pub open spec fn listed_entry(entry: SkillCatalogEntry, listed: (SkillView, SelectedRootLoad)) -> bool {
    &&& executor_authority(entry.authority, listed.1.id@)
    &&& entry_is(entry, listed.0, entry.authority, listed.1.id@, listed.1.environment_id@)
}

/// Whether a catalog holds exactly the skills and the warnings of a list of roots.
pub open spec fn catalog_of(catalog: SkillCatalog, loads: Seq<SelectedRootLoad>) -> bool {
    &&& text_views(catalog.warnings@) == listed_warnings(loads)
    &&& catalog.entries@.len() == listed_skills(loads).len()
    &&& forall|i: int|
        0 <= i < catalog.entries@.len() ==> listed_entry(
            #[trigger] catalog.entries@[i],
            listed_skills(loads)[i],
        )
}

/// Why a request cannot be answered whatever the file system holds.
pub open spec fn read_refusal(request: SkillReadRequest) -> Option<Seq<char>> {
    match request.authority.kind {
        SkillSourceKind::Other(kind) => Some(
            "executor skill provider cannot read "@ + kind@ + " resources"@,
        ),
        SkillSourceKind::Executor => if request.package.0@ != request.resource.text@ {
            Some("executor skill resource does not match its package"@)
        } else if request.resource.environment is None {
            Some("executor skill resource is not bound to an environment"@)
        } else {
            None
        },
    }
}

/// What a request is answered.
pub open spec fn read_answer(request: SkillReadRequest, reply: SkillReadReply) -> Result<
    Seq<char>,
    Seq<char>,
> {
    match (read_refusal(request), reply) {
        (Some(refusal), _) => Err(refusal),
        (None, SkillReadReply::EnvironmentUnavailable) => Err(
            "executor skill resource references unavailable environment `"@
                + request.resource.environment->0.environment_id@ + "`"@,
        ),
        (None, SkillReadReply::Read(Err(reason))) => Err(
            "failed to read executor skill resource "@ + request.resource.text@ + ": "@ + reason@,
        ),
        (None, SkillReadReply::Read(Ok(contents))) => Ok(contents@),
    }
}

impl SkillCatalog {
    /// A catalog without skills and warnings.
    pub fn new() -> (catalog: Self)
        ensures
            catalog.entries@ == Seq::<SkillCatalogEntry>::empty(),
            catalog.warnings@ == Seq::<String>::empty(),
    {
        SkillCatalog { entries: Vec::new(), warnings: Vec::new() }
    }

    /// Adds what came of a selected root.
    fn add_root(&mut self, load: SelectedRootLoad)
        ensures
            forall|before: Seq<SelectedRootLoad>| #[trigger]
                catalog_of(*old(self), before) ==> catalog_of(*final(self), before.push(load)),
    {
        let ghost root = load;
        let SelectedRootLoad { id, environment_id, outcome } = load;
        match outcome {
            None => {
                let warning = "Selected capability root `".to_owned().concat(id.as_str()).concat(
                    "` references unavailable environment `",
                ).concat(environment_id.as_str()).concat("`.");
                self.warnings.push(warning);
                proof {
                    assert forall|before: Seq<SelectedRootLoad>| #[trigger]
                        catalog_of(*old(self), before) implies catalog_of(
                        *self,
                        before.push(root),
                    ) by {
                        assert(before.push(root).drop_last() =~= before);
                        assert(text_views(self.warnings@) =~= text_views(old(self).warnings@).push(
                            warning@,
                        ));
                        assert(listed_warnings(before.push(root)) =~= listed_warnings(before).push(
                            warning@,
                        ));
                        assert(listed_skills(before.push(root)) =~= listed_skills(before));
                        assert forall|i: int| 0 <= i < self.entries@.len() implies listed_entry(
                            #[trigger] self.entries@[i],
                            listed_skills(before)[i],
                        ) by {
                            assert(self.entries@[i] == old(self).entries@[i]);
                        }
                    }
                }
            },
            Some(outcome) => {
                let ghost found = outcome;
                let ExecutorSkillLoadOutcome { skills, mut warnings } = outcome;
                self.warnings.append(&mut warnings);
                let mut i: usize = 0;
                while i < skills.len()
                    invariant
                        i <= skills@.len(),
                        skills@ == found.skills@,
                        root.id@ == id@,
                        root.environment_id@ == environment_id@,
                        self.warnings@ == old(self).warnings@ + found.warnings@,
                        self.entries@.len() == old(self).entries@.len() + i,
                        forall|j: int|
                            0 <= j < old(self).entries@.len() ==> self.entries@[j]
                                == #[trigger] old(self).entries@[j],
                        forall|j: int|
                            #![trigger self.entries@[j]]
                            old(self).entries@.len() <= j < self.entries@.len() ==> listed_entry(
                                self.entries@[j],
                                (found.skills@[j - old(self).entries@.len()]@, root),
                            ),
                    decreases skills@.len() - i,
                {
                    let authority = SkillAuthority {
                        kind: SkillSourceKind::Executor,
                        id: id.clone(),
                    };
                    self.entries.push(
                        catalog_entry_from_skill(
                            &skills[i],
                            authority,
                            id.as_str(),
                            environment_id.as_str(),
                        ),
                    );
                    i = i + 1;
                }
                proof {
                    assert forall|before: Seq<SelectedRootLoad>| #[trigger]
                        catalog_of(*old(self), before) implies catalog_of(
                        *self,
                        before.push(root),
                    ) by {
                        assert(before.push(root).drop_last() =~= before);
                        assert(text_views(self.warnings@) =~= text_views(old(self).warnings@)
                            + text_views(found.warnings@));
                        let listed = listed_skills(before.push(root));
                        assert forall|j: int| 0 <= j < self.entries@.len() implies listed_entry(
                            #[trigger] self.entries@[j],
                            listed[j],
                        ) by {
                            if j < old(self).entries@.len() {
                                assert(listed_entry(old(self).entries@[j], listed_skills(before)[j]));
                            }
                        }
                    }
                }
            },
        }
    }
}

impl<M> ExecutorSkillProvider<M> {
    /// A provider for the environments of a manager.
    pub fn new_with_restriction_product(
        environment_manager: std::sync::Arc<M>,
        restriction_product: Option<Product>,
    ) -> (provider: Self)
        ensures
            provider.environment_manager == environment_manager,
            provider.restriction_product == restriction_product,
    {
        ExecutorSkillProvider { environment_manager, restriction_product }
    }

    /// The catalog of the selected roots, in the order in which they were selected.
    pub fn list(&self, loads: Vec<SelectedRootLoad>) -> (catalog: SkillCatalog)
        ensures
            catalog_of(catalog, loads@),
    {
        let ghost all = loads@;
        let mut catalog = SkillCatalog::new();
        assert(text_views(catalog.warnings@) =~= Seq::<Seq<char>>::empty());
        assert(catalog_of(catalog, Seq::empty()));
        assert(all.take(0) =~= Seq::<SelectedRootLoad>::empty());
        for load in it: loads
            invariant
                it.seq() == all,
                catalog_of(catalog, all.take(it.index() as int)),
        {
            catalog.add_root(load);
            assert(all.take(it.index() + 1) =~= all.take(it.index() as int).push(load));
        }
        assert(all.take(all.len() as int) =~= all);
        catalog
    }

    /// Where the contents of the requested resource are, if the provider can read it at all.
    pub fn read_target(&self, request: &SkillReadRequest) -> (target: Result<
        EnvironmentPath,
        SkillProviderError,
    >)
        ensures
            match target {
                Ok(target) => {
                    &&& read_refusal(*request) is None
                    &&& target.environment_id@ == request.resource.environment->0.environment_id@
                    &&& target.path@ == request.resource.environment->0.path@
                },
                Err(error) => read_refusal(*request) == Some(error.message@),
            },
    {
        match &request.authority.kind {
            SkillSourceKind::Other(kind) => {
                return Err(
                    SkillProviderError {
                        message: "executor skill provider cannot read ".to_owned().concat(
                            kind.as_str(),
                        ).concat(" resources"),
                    },
                );
            },
            SkillSourceKind::Executor => {},
        }
        if !same_text(request.package.0.as_str(), request.resource.text.as_str()) {
            return Err(
                SkillProviderError {
                    message: "executor skill resource does not match its package".to_owned(),
                },
            );
        }
        match &request.resource.environment {
            Some(bound) => Ok(
                EnvironmentPath {
                    environment_id: bound.environment_id.clone(),
                    path: bound.path.duplicate(),
                },
            ),
            None => Err(
                SkillProviderError {
                    message: "executor skill resource is not bound to an environment".to_owned(),
                },
            ),
        }
    }

    /// Answers a request with what came of reading its target.
    pub fn read(&self, request: SkillReadRequest, reply: SkillReadReply) -> (result: Result<
        SkillReadResult,
        SkillProviderError,
    >)
        ensures
            match result {
                Ok(read) => {
                    &&& read_answer(request, reply) == Ok::<Seq<char>, Seq<char>>(read.contents@)
                    &&& read.resource == request.resource
                },
                Err(error) => read_answer(request, reply) == Err::<Seq<char>, Seq<char>>(
                    error.message@,
                ),
            },
    {
        let target = match self.read_target(&request) {
            Ok(target) => target,
            Err(error) => {
                return Err(error);
            },
        };
        match reply {
            SkillReadReply::EnvironmentUnavailable => Err(
                SkillProviderError {
                    message:
                        "executor skill resource references unavailable environment `".to_owned().concat(
                    target.environment_id.as_str()).concat("`"),
                },
            ),
            SkillReadReply::Read(Err(reason)) => Err(
                SkillProviderError {
                    message: "failed to read executor skill resource ".to_owned().concat(
                        request.resource.text.as_str(),
                    ).concat(": ").concat(reason.as_str()),
                },
            ),
            SkillReadReply::Read(Ok(contents)) => Ok(
                SkillReadResult { resource: request.resource, contents },
            ),
        }
    }

    /// Searches nothing: the catalog is the only way to executor skills.
    pub fn search(&self) -> (found: SkillSearchResult)
        ensures
            found.entries@ == Seq::<SkillCatalogEntry>::empty(),
    {
        SkillSearchResult { entries: Vec::new() }
    }
}

/// The request for a listed skill is one that the provider can read, from the environment and the
/// path where the skill was found.
pub proof fn listed_skills_can_be_read(
    entry: SkillCatalogEntry,
    listed: (SkillView, SelectedRootLoad),
    request: SkillReadRequest,
)
    requires
        listed_entry(entry, listed),
        request.authority == entry.authority,
        request.package == entry.package,
        request.resource == entry.resource,
    ensures
        read_refusal(request) is None,
        request.resource.environment->0.environment_id@ == listed.1.environment_id@,
        request.resource.environment->0.path@ == listed.0.path,
{
}

// What a catalog and an answer hold, said of what they were made from.

/// How many skills the roots brought.
pub open spec fn skill_count(loads: Seq<SelectedRootLoad>) -> int
    decreases loads.len(),
{
    if loads.len() == 0 {
        0
    } else {
        skill_count(loads.drop_last()) + match loads.last().outcome {
            Some(outcome) => outcome.skills@.len() as int,
            None => 0,
        }
    }
}

/// How many warnings the roots brought: one for each whose environment is not there.
pub open spec fn warning_count(loads: Seq<SelectedRootLoad>) -> int
    decreases loads.len(),
{
    if loads.len() == 0 {
        0
    } else {
        warning_count(loads.drop_last()) + match loads.last().outcome {
            Some(outcome) => outcome.warnings@.len() as int,
            None => 1,
        }
    }
}

/// As many skills and warnings are listed as the roots brought.
proof fn listed_counts(loads: Seq<SelectedRootLoad>)
    ensures
        listed_skills(loads).len() == skill_count(loads),
        listed_warnings(loads).len() == warning_count(loads),
    decreases loads.len(),
{
    if loads.len() > 0 {
        listed_counts(loads.drop_last());
    }
}

/// The skills of a root are listed behind those of the roots before it.
proof fn skills_are_listed_in_turn(loads: Seq<SelectedRootLoad>, r: int)
    requires
        0 <= r < loads.len(),
    ensures
        loads[r].outcome matches Some(outcome) ==> skill_count(loads.take(r))
            + outcome.skills@.len() <= skill_count(loads),
        loads[r].outcome matches Some(outcome) ==> forall|i: int|
            0 <= i < outcome.skills@.len() ==> listed_skills(loads)[skill_count(loads.take(r)) + i]
                == (#[trigger] outcome.skills@[i]@, loads[r]),
    decreases loads.len(),
{
    let fewer = loads.drop_last();
    listed_counts(fewer);
    listed_counts(loads.take(r));
    if r < fewer.len() {
        skills_are_listed_in_turn(fewer, r);
        assert(fewer.take(r) =~= loads.take(r));
    } else {
        assert(loads.take(r) =~= fewer);
    }
}

/// The warnings of a root are listed behind those of the roots before it.
proof fn warnings_are_listed_in_turn(loads: Seq<SelectedRootLoad>, r: int)
    requires
        0 <= r < loads.len(),
    ensures
        match loads[r].outcome {
            Some(outcome) => {
                &&& warning_count(loads.take(r)) + outcome.warnings@.len() <= warning_count(loads)
                &&& forall|i: int|
                    0 <= i < outcome.warnings@.len() ==> listed_warnings(
                        loads,
                    )[warning_count(loads.take(r)) + i] == #[trigger] outcome.warnings@[i]@
            },
            None => {
                &&& warning_count(loads.take(r)) < warning_count(loads)
                &&& listed_warnings(loads)[warning_count(loads.take(r))]
                    == "Selected capability root `"@ + loads[r].id@
                    + "` references unavailable environment `"@ + loads[r].environment_id@ + "`."@
            },
        },
    decreases loads.len(),
{
    let fewer = loads.drop_last();
    listed_counts(fewer);
    listed_counts(loads.take(r));
    if r < fewer.len() {
        warnings_are_listed_in_turn(fewer, r);
        assert(fewer.take(r) =~= loads.take(r));
    } else {
        assert(loads.take(r) =~= fewer);
    }
}

/// The catalog lists as many skills as the roots brought, root by root and in the order in which each
/// root brought them. Each is listed with its own name, description, short description and path, in
/// the environment of its root and under the authority of its root, and its package, its resource and
/// its display path are one and the same text.
pub proof fn catalog_says_what_the_skills_say(
    catalog: SkillCatalog,
    loads: Seq<SelectedRootLoad>,
    r: int,
    i: int,
)
    requires
        catalog_of(catalog, loads),
        0 <= r < loads.len(),
        loads[r].outcome is Some,
        0 <= i < loads[r].outcome->0.skills@.len(),
    ensures
        catalog.entries@.len() == skill_count(loads),
        ({
            let skill = loads[r].outcome->0.skills@[i];
            let at = skill_count(loads.take(r)) + i;
            let entry = catalog.entries@[at];
            &&& 0 <= at < catalog.entries@.len()
            &&& entry.name@ == skill.name@
            &&& entry.description@ == skill.description@
            &&& match (entry.short_description, skill.short_description) {
                (Some(shown), Some(given)) => shown@ == given@,
                (None, None) => true,
                _ => false,
            }
            &&& entry.authority.kind is Executor
            &&& entry.authority.id@ == loads[r].id@
            &&& entry.resource.environment is Some
            &&& entry.resource.environment->0.environment_id@ == loads[r].environment_id@
            &&& entry.resource.environment->0.path.uri@ == skill.path.uri@
            &&& entry.resource.environment->0.path.native_path@ == skill.path.native_path@
            &&& entry.resource.text@ == skill_display_path(loads[r].id@, skill.path.native_path@)
            &&& entry.package.0@ == entry.resource.text@
            &&& entry.display_path is Some
            &&& entry.display_path->0@ == entry.resource.text@
        }),
{
    listed_counts(loads);
    listed_counts(loads.take(r));
    skills_are_listed_in_turn(loads, r);
    let skill = loads[r].outcome->0.skills@[i];
    let at = skill_count(loads.take(r)) + i;
    assert(listed_skills(loads)[at] == (skill@, loads[r]));
    assert(listed_entry(catalog.entries@[at], listed_skills(loads)[at]));
}

/// The catalog holds the warnings of the roots word for word, root by root and in order. A root whose
/// environment is not there is warned of once, with its id and that of the environment.
pub proof fn catalog_warns_as_the_roots_do(
    catalog: SkillCatalog,
    loads: Seq<SelectedRootLoad>,
    r: int,
)
    requires
        catalog_of(catalog, loads),
        0 <= r < loads.len(),
    ensures
        catalog.warnings@.len() == warning_count(loads),
        0 <= warning_count(loads.take(r)),
        match loads[r].outcome {
            Some(outcome) => {
                &&& warning_count(loads.take(r)) + outcome.warnings@.len() <= catalog.warnings@.len()
                &&& forall|i: int|
                    0 <= i < outcome.warnings@.len() ==> catalog.warnings@[warning_count(
                        loads.take(r),
                    ) + i]@ == #[trigger] outcome.warnings@[i]@
            },
            None => {
                &&& warning_count(loads.take(r)) < catalog.warnings@.len()
                &&& catalog.warnings@[warning_count(loads.take(r))]@
                    == "Selected capability root `"@ + loads[r].id@
                    + "` references unavailable environment `"@ + loads[r].environment_id@ + "`."@
            },
        },
{
    listed_counts(loads);
    listed_counts(loads.take(r));
    warnings_are_listed_in_turn(loads, r);
    assert(text_views(catalog.warnings@) == listed_warnings(loads));
    assert(catalog.warnings@.len() == listed_warnings(loads).len());
    assert forall|k: int| 0 <= k < catalog.warnings@.len() implies #[trigger] catalog.warnings@[k]@
        == listed_warnings(loads)[k] by {
        assert(text_views(catalog.warnings@)[k] == catalog.warnings@[k]@);
    }
}

/// A request is answered with the contents that were read, unchanged, just if it asks an executor for
/// the resource that its package names, in an environment, and the read succeeded. Everything else is
/// refused, with the words that fit.
pub proof fn reads_give_what_was_read(request: SkillReadRequest, reply: SkillReadReply)
    ensures
        match request.authority.kind {
            SkillSourceKind::Other(kind) => read_answer(request, reply) == Err::<
                Seq<char>,
                Seq<char>,
            >("executor skill provider cannot read "@ + kind@ + " resources"@),
            SkillSourceKind::Executor => match request.resource.environment {
                Some(bound) if request.package.0@ == request.resource.text@ => read_answer(
                    request,
                    reply,
                ) == match reply {
                    SkillReadReply::Read(Ok(contents)) => Ok::<Seq<char>, Seq<char>>(contents@),
                    SkillReadReply::Read(Err(reason)) => Err(
                        "failed to read executor skill resource "@ + request.resource.text@ + ": "@
                            + reason@,
                    ),
                    SkillReadReply::EnvironmentUnavailable => Err(
                        "executor skill resource references unavailable environment `"@
                            + bound.environment_id@ + "`"@,
                    ),
                },
                _ => read_answer(request, reply) == Err::<Seq<char>, Seq<char>>(
                    if request.package.0@ != request.resource.text@ {
                        "executor skill resource does not match its package"@
                    } else {
                        "executor skill resource is not bound to an environment"@
                    },
                ),
            },
        },
        read_refusal(request) is None <==> request.authority.kind is Executor && request.package.0@
            == request.resource.text@ && request.resource.environment is Some,
        read_refusal(request) is Some ==> read_answer(request, reply) == Err::<
            Seq<char>,
            Seq<char>,
        >(read_refusal(request)->0),
{
}

}
