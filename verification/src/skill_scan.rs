//! Discovery of skills below a root of an environment's file system.
//!
//! The scan walks directories breadth first. It does no input or output itself: it says what to
//! ask next, and takes the answer. Directories are told apart by their canonical path, so one
//! that is reached twice, over a link or otherwise, is listed once.

use vstd::prelude::*;

use crate::skill_catalog::{
    default_name, default_skill_name, ExecutorSkill, ExecutorSkillLoadOutcome, PathUri, PathView,
    SkillView,
};
use crate::text::{begins_with, option_view, same_text, text_views, to_chars};

verus! {

/// The name of the files that hold skills.
pub const SKILLS_FILENAME: &'static str = "SKILL.md";

/// How far below the root directories are listed.
pub const MAX_SCAN_DEPTH: usize = 6;

/// How many directories are listed at most.
pub const MAX_SKILLS_DIRS_PER_ROOT: usize = 2000;

/// The kinds of file system errors that the scan tells apart.
#[derive(Clone, Copy, Debug, PartialEq, Eq, Structural)]
pub enum FileErrorKind {
    NotFound,
    NotADirectory,
    Other,
}

/// A file system error.
#[derive(Debug, PartialEq, Eq)]
pub struct FileError {
    pub kind: FileErrorKind,
    pub message: String,
}

/// What a path leads to.
#[derive(Clone, Copy, Debug, PartialEq, Eq, Structural)]
pub struct FileMetadata {
    pub is_directory: bool,
    pub is_file: bool,
    pub is_symlink: bool,
}

/// What a skill file says of its skill.
#[derive(Debug, PartialEq, Eq)]
pub struct ParsedSkillFrontmatter {
    pub name: String,
    pub description: String,
    pub short_description: Option<String>,
}

/// What to ask next.
#[derive(Debug, PartialEq, Eq)]
pub enum ScanAction {
    /// The canonical form of a path.
    Canonicalize { path: PathUri },
    /// What a path leads to.
    Stat { path: PathUri },
    /// The names in a directory.
    ReadDirectory { path: PathUri },
    /// The path of a name in a directory.
    Join { dir: PathUri, name: String },
    /// The text of a file.
    ReadText { path: PathUri },
    /// What the text of a skill file says, with a name for a skill that gives none.
    Parse { contents: String, default_name: String },
    /// Nothing: the scan is over.
    Finished,
}

/// The answer to what was asked.
#[derive(Debug, PartialEq, Eq)]
pub enum ScanEvent {
    /// The canonical form, if the file system has one.
    Canonicalized(Option<PathUri>),
    Stated(Result<FileMetadata, FileError>),
    DirectoryRead(Result<Vec<String>, FileError>),
    Joined(Result<PathUri, String>),
    TextRead(Result<String, FileError>),
    Parsed(Result<ParsedSkillFrontmatter, String>),
}

/// Where the scan stands.
#[derive(Debug)]
enum ScanPhase {
    ResolveRoot { root: PathUri },
    StatRoot { root: PathUri },
    List,
    Join,
    Stat { path: PathUri },
    Probe { path: PathUri },
    ResolveDir { path: PathUri },
    ReadSkill { path: PathUri },
    ParseSkill { path: PathUri, contents: String },
    ResolveSkill { path: PathUri, parsed: ParsedSkillFrontmatter },
    Done,
}

/// A scan under way.
#[derive(Debug)]
pub struct SkillScan {
    phase: ScanPhase,
    /// The directories found so far with their depth, in the order in which they are listed.
    dirs: Vec<(PathUri, usize)>,
    /// How many of them were taken up.
    taken: usize,
    /// The names in the directory that was taken up last, without hidden ones.
    names: Vec<String>,
    /// How many of them are dealt with.
    passed: usize,
    skills: Vec<ExecutorSkill>,
    warnings: Vec<String>,
    truncated_by_dir_limit: bool,
}

// The scan as contracts speak of it.

pub struct FileErrorView {
    pub kind: FileErrorKind,
    pub message: Seq<char>,
}

pub struct FrontmatterView {
    pub name: Seq<char>,
    pub description: Seq<char>,
    pub short_description: Option<Seq<char>>,
}

/// What was asked, or what is to be asked next.
pub enum ActionView {
    Canonicalize { path: PathView },
    Stat { path: PathView },
    ReadDirectory { path: PathView },
    Join { dir: PathView, name: Seq<char> },
    ReadText { path: PathView },
    Parse { contents: Seq<char>, default_name: Seq<char> },
    Finished,
}

/// The answer to what was asked.
pub enum EventView {
    Canonicalized(Option<PathView>),
    Stated(Result<FileMetadata, FileErrorView>),
    DirectoryRead(Result<Seq<Seq<char>>, FileErrorView>),
    Joined(Result<PathView, Seq<char>>),
    TextRead(Result<Seq<char>, FileErrorView>),
    Parsed(Result<FrontmatterView, Seq<char>>),
}

/// Where a scan stands.
pub enum PhaseView {
    /// Waiting for the canonical form of the root.
    ResolveRoot { root: PathView },
    /// Waiting for what the root is.
    StatRoot { root: PathView },
    /// Waiting for the names in the directory that was taken up last.
    List,
    /// Waiting for the path of the first name that is left.
    Join,
    /// Waiting for what that path leads to.
    Stat { path: PathView },
    /// Waiting for whether the link leads to a directory.
    Probe { path: PathView },
    /// Waiting for the canonical form of a directory.
    ResolveDir { path: PathView },
    /// Waiting for the text of a skill file.
    ReadSkill { path: PathView },
    /// Waiting for what the text says.
    ParseSkill { path: PathView, contents: Seq<char> },
    /// Waiting for the canonical form of the skill file's path.
    ResolveSkill { path: PathView, parsed: FrontmatterView },
    Done,
}

#[verifier::ext_equal]
pub struct ScanView {
    pub phase: PhaseView,
    /// The directories found so far with their depth, in the order in which they are listed.
    pub dirs: Seq<(PathView, int)>,
    /// How many of them were taken up.
    pub taken: int,
    /// The names that are left in the directory that was taken up last.
    pub names: Seq<Seq<char>>,
    pub skills: Seq<SkillView>,
    pub warnings: Seq<Seq<char>>,
    pub truncated: bool,
}

impl View for FileError {
    type V = FileErrorView;

    open spec fn view(&self) -> FileErrorView {
        FileErrorView { kind: self.kind, message: self.message@ }
    }
}

impl View for ParsedSkillFrontmatter {
    type V = FrontmatterView;

    open spec fn view(&self) -> FrontmatterView {
        FrontmatterView {
            name: self.name@,
            description: self.description@,
            short_description: option_view(self.short_description),
        }
    }
}

impl View for ScanAction {
    type V = ActionView;

    open spec fn view(&self) -> ActionView {
        match *self {
            ScanAction::Canonicalize { path } => ActionView::Canonicalize { path: path@ },
            ScanAction::Stat { path } => ActionView::Stat { path: path@ },
            ScanAction::ReadDirectory { path } => ActionView::ReadDirectory { path: path@ },
            ScanAction::Join { dir, name } => ActionView::Join { dir: dir@, name: name@ },
            ScanAction::ReadText { path } => ActionView::ReadText { path: path@ },
            ScanAction::Parse { contents, default_name } => ActionView::Parse {
                contents: contents@,
                default_name: default_name@,
            },
            ScanAction::Finished => ActionView::Finished,
        }
    }
}

impl View for ScanEvent {
    type V = EventView;

    open spec fn view(&self) -> EventView {
        match *self {
            ScanEvent::Canonicalized(Some(path)) => EventView::Canonicalized(Some(path@)),
            ScanEvent::Canonicalized(None) => EventView::Canonicalized(None),
            ScanEvent::Stated(Ok(metadata)) => EventView::Stated(Ok(metadata)),
            ScanEvent::Stated(Err(error)) => EventView::Stated(Err(error@)),
            ScanEvent::DirectoryRead(Ok(names)) => EventView::DirectoryRead(
                Ok(text_views(names@)),
            ),
            ScanEvent::DirectoryRead(Err(error)) => EventView::DirectoryRead(Err(error@)),
            ScanEvent::Joined(Ok(path)) => EventView::Joined(Ok(path@)),
            ScanEvent::Joined(Err(reason)) => EventView::Joined(Err(reason@)),
            ScanEvent::TextRead(Ok(contents)) => EventView::TextRead(Ok(contents@)),
            ScanEvent::TextRead(Err(error)) => EventView::TextRead(Err(error@)),
            ScanEvent::Parsed(Ok(parsed)) => EventView::Parsed(Ok(parsed@)),
            ScanEvent::Parsed(Err(reason)) => EventView::Parsed(Err(reason@)),
        }
    }
}

impl View for ScanPhase {
    type V = PhaseView;

    closed spec fn view(&self) -> PhaseView {
        match *self {
            ScanPhase::ResolveRoot { root } => PhaseView::ResolveRoot { root: root@ },
            ScanPhase::StatRoot { root } => PhaseView::StatRoot { root: root@ },
            ScanPhase::List => PhaseView::List,
            ScanPhase::Join => PhaseView::Join,
            ScanPhase::Stat { path } => PhaseView::Stat { path: path@ },
            ScanPhase::Probe { path } => PhaseView::Probe { path: path@ },
            ScanPhase::ResolveDir { path } => PhaseView::ResolveDir { path: path@ },
            ScanPhase::ReadSkill { path } => PhaseView::ReadSkill { path: path@ },
            ScanPhase::ParseSkill { path, contents } => PhaseView::ParseSkill {
                path: path@,
                contents: contents@,
            },
            ScanPhase::ResolveSkill { path, parsed } => PhaseView::ResolveSkill {
                path: path@,
                parsed: parsed@,
            },
            ScanPhase::Done => PhaseView::Done,
        }
    }
}

impl View for SkillScan {
    type V = ScanView;

    closed spec fn view(&self) -> ScanView {
        ScanView {
            phase: self.phase@,
            dirs: self.dirs@.map_values(|dir: (PathUri, usize)| (dir.0@, dir.1 as int)),
            taken: self.taken as int,
            names: text_views(self.names@.skip(self.passed as int)),
            skills: skill_views(self.skills@),
            warnings: text_views(self.warnings@),
            truncated: self.truncated_by_dir_limit,
        }
    }
}

/// Skills as contracts speak of them.
pub open spec fn skill_views(skills: Seq<ExecutorSkill>) -> Seq<SkillView> {
    skills.map_values(|skill: ExecutorSkill| skill@)
}

// What the scan does.

/// A path as it is told apart from others: its canonical form, or itself if it has none.
pub open spec fn identity(path: PathView, canonical: Option<PathView>) -> PathView {
    match canonical {
        Some(canonical) => canonical,
        None => path,
    }
}

/// Whether a name is passed over.
pub open spec fn hidden(name: Seq<char>) -> bool {
    begins_with(name, '.')
}

/// The names that are not passed over.
pub open spec fn visible(names: Seq<Seq<char>>) -> Seq<Seq<char>> {
    names.filter(|name: Seq<char>| !hidden(name))
}

/// Whether a directory was found before.
pub open spec fn known(dirs: Seq<(PathView, int)>, uri: Seq<char>) -> bool {
    exists|i: int| 0 <= i < dirs.len() && (#[trigger] dirs[i]).0.uri == uri
}

/// The directory that was taken up last.
pub open spec fn current_dir(scan: ScanView) -> PathView {
    scan.dirs[scan.taken - 1].0
}

/// How far it is below the root.
pub open spec fn current_depth(scan: ScanView) -> int {
    scan.dirs[scan.taken - 1].1
}

/// A scan with one more warning.
pub open spec fn warned(scan: ScanView, warning: Seq<char>) -> ScanView {
    ScanView { warnings: scan.warnings.push(warning), ..scan }
}

/// A scan that takes up the next name, or else the next directory, or else is over.
pub open spec fn moved_on(scan: ScanView) -> ScanView {
    if scan.names.len() > 0 {
        ScanView { phase: PhaseView::Join, ..scan }
    } else if scan.taken < scan.dirs.len() {
        ScanView { phase: PhaseView::List, taken: scan.taken + 1, ..scan }
    } else {
        ScanView { phase: PhaseView::Done, ..scan }
    }
}

/// A scan that is through with the first name that was left.
pub open spec fn passed_name(scan: ScanView) -> ScanView {
    moved_on(ScanView { names: scan.names.drop_first(), ..scan })
}

/// A scan that has come upon a directory. Below the depth limit it is left aside, and beyond the
/// directory limit too, which is noted.
pub open spec fn came_upon_dir(scan: ScanView, path: PathView) -> ScanView {
    if current_depth(scan) + 1 > MAX_SCAN_DEPTH {
        passed_name(scan)
    } else if scan.dirs.len() >= MAX_SKILLS_DIRS_PER_ROOT {
        passed_name(ScanView { truncated: true, ..scan })
    } else {
        ScanView { phase: PhaseView::ResolveDir { path }, ..scan }
    }
}

/// A scan that knows the canonical form of a directory that it has come upon.
pub open spec fn resolved_dir(scan: ScanView, dir: PathView) -> ScanView {
    if known(scan.dirs, dir.uri) {
        passed_name(scan)
    } else {
        passed_name(ScanView { dirs: scan.dirs.push((dir, current_depth(scan) + 1)), ..scan })
    }
}

/// A scan that knows what a path leads to.
pub open spec fn stated_path(scan: ScanView, path: PathView, metadata: FileMetadata) -> ScanView {
    if metadata.is_symlink {
        ScanView { phase: PhaseView::Probe { path }, ..scan }
    } else if metadata.is_directory {
        came_upon_dir(scan, path)
    } else if metadata.is_file && scan.names[0] == SKILLS_FILENAME@ {
        ScanView { phase: PhaseView::ReadSkill { path }, ..scan }
    } else {
        passed_name(scan)
    }
}

pub open spec fn root_warning(root: PathView, error: FileErrorView) -> Seq<char> {
    "Failed to load executor skills at "@ + root.uri + ": "@ + error.message
}

pub open spec fn dir_warning(dir: PathView, error: FileErrorView) -> Seq<char> {
    "Failed to read executor skills dir "@ + dir.uri + ": "@ + error.message
}

pub open spec fn join_warning(dir: PathView, name: Seq<char>, reason: Seq<char>) -> Seq<char> {
    "Failed to resolve executor skill path "@ + dir.uri + "/"@ + name + ": "@ + reason
}

pub open spec fn stat_warning(path: PathView, error: FileErrorView) -> Seq<char> {
    "Failed to stat executor skill path "@ + path.uri + ": "@ + error.message
}

pub open spec fn link_warning(path: PathView, error: FileErrorView) -> Seq<char> {
    "Failed to read executor symlink dir "@ + path.uri + ": "@ + error.message
}

pub open spec fn skill_warning(path: PathView, reason: Seq<char>) -> Seq<char> {
    "Failed to load executor skill at "@ + path.uri + ": "@ + reason
}

pub open spec fn unreadable(error: FileErrorView) -> Seq<char> {
    "failed to read file: "@ + error.message
}

/// The skill that a skill file holds.
pub open spec fn skill_of(path: PathView, parsed: FrontmatterView) -> SkillView {
    SkillView {
        path,
        name: parsed.name,
        description: parsed.description,
        short_description: parsed.short_description,
    }
}

/// The scan of a root before anything was asked.
pub open spec fn scan_start(root: PathView) -> ScanView {
    ScanView {
        phase: PhaseView::ResolveRoot { root },
        dirs: Seq::empty(),
        taken: 0,
        names: Seq::empty(),
        skills: Seq::empty(),
        warnings: Seq::empty(),
        truncated: false,
    }
}

/// What a scan asks next.
pub open spec fn scan_action(scan: ScanView) -> ActionView {
    match scan.phase {
        PhaseView::ResolveRoot { root } => ActionView::Canonicalize { path: root },
        PhaseView::StatRoot { root } => ActionView::Stat { path: root },
        PhaseView::List => ActionView::ReadDirectory { path: current_dir(scan) },
        PhaseView::Join => ActionView::Join { dir: current_dir(scan), name: scan.names[0] },
        PhaseView::Stat { path } => ActionView::Stat { path },
        PhaseView::Probe { path } => ActionView::ReadDirectory { path },
        PhaseView::ResolveDir { path } => ActionView::Canonicalize { path },
        PhaseView::ReadSkill { path } => ActionView::ReadText { path },
        PhaseView::ParseSkill { path, contents } => ActionView::Parse {
            contents,
            default_name: default_name(path),
        },
        PhaseView::ResolveSkill { path, .. } => ActionView::Canonicalize { path },
        PhaseView::Done => ActionView::Finished,
    }
}

/// A scan after an answer. An answer to something else changes nothing.
pub open spec fn scan_next(scan: ScanView, event: EventView) -> ScanView {
    match (scan.phase, event) {
        (PhaseView::ResolveRoot { root }, EventView::Canonicalized(canonical)) => ScanView {
            phase: PhaseView::StatRoot { root: identity(root, canonical) },
            ..scan
        },
        (PhaseView::StatRoot { root }, EventView::Stated(Ok(metadata))) => if metadata.is_directory {
            moved_on(ScanView { dirs: seq![(root, 0)], ..scan })
        } else {
            ScanView { phase: PhaseView::Done, ..scan }
        },
        (PhaseView::StatRoot { root }, EventView::Stated(Err(error))) => ScanView {
            phase: PhaseView::Done,
            ..if error.kind is NotFound {
                scan
            } else {
                warned(scan, root_warning(root, error))
            }
        },
        (PhaseView::List, EventView::DirectoryRead(Ok(names))) => moved_on(
            ScanView { names: visible(names), ..scan },
        ),
        (PhaseView::List, EventView::DirectoryRead(Err(error))) => moved_on(
            warned(scan, dir_warning(current_dir(scan), error)),
        ),
        (PhaseView::Join, EventView::Joined(Ok(path))) => ScanView {
            phase: PhaseView::Stat { path },
            ..scan
        },
        (PhaseView::Join, EventView::Joined(Err(reason))) => passed_name(
            warned(scan, join_warning(current_dir(scan), scan.names[0], reason)),
        ),
        (PhaseView::Stat { path }, EventView::Stated(Ok(metadata))) => stated_path(
            scan,
            path,
            metadata,
        ),
        (PhaseView::Stat { path }, EventView::Stated(Err(error))) => passed_name(
            warned(scan, stat_warning(path, error)),
        ),
        (PhaseView::Probe { path }, EventView::DirectoryRead(Ok(_))) => came_upon_dir(scan, path),
        (PhaseView::Probe { path }, EventView::DirectoryRead(Err(error))) => passed_name(
            if error.kind is Other {
                warned(scan, link_warning(path, error))
            } else {
                scan
            },
        ),
        (PhaseView::ResolveDir { path }, EventView::Canonicalized(canonical)) => resolved_dir(
            scan,
            identity(path, canonical),
        ),
        (PhaseView::ReadSkill { path }, EventView::TextRead(Ok(contents))) => ScanView {
            phase: PhaseView::ParseSkill { path, contents },
            ..scan
        },
        (PhaseView::ReadSkill { path }, EventView::TextRead(Err(error))) => passed_name(
            warned(scan, skill_warning(path, unreadable(error))),
        ),
        (PhaseView::ParseSkill { path, .. }, EventView::Parsed(Ok(parsed))) => ScanView {
            phase: PhaseView::ResolveSkill { path, parsed },
            ..scan
        },
        (PhaseView::ParseSkill { path, .. }, EventView::Parsed(Err(reason))) => passed_name(
            warned(scan, skill_warning(path, reason)),
        ),
        (PhaseView::ResolveSkill { path, parsed }, EventView::Canonicalized(canonical)) =>
            passed_name(
                ScanView {
                    skills: scan.skills.push(skill_of(identity(path, canonical), parsed)),
                    ..scan
                },
            ),
        _ => scan,
    }
}

/// Whether the scan is past its root: a directory is being dealt with.
pub open spec fn under_way(scan: ScanView) -> bool {
    !(scan.phase is ResolveRoot) && !(scan.phase is StatRoot) && !(scan.phase is Done)
}

/// What holds of every scan. The directories are different ones, no deeper than allowed and no
/// more than allowed. Those nearer to the root come first, and none is more than one step below
/// the one that is being dealt with. No hidden name is left.
pub open spec fn scan_wf(scan: ScanView) -> bool {
    &&& 0 <= scan.taken <= scan.dirs.len() <= MAX_SKILLS_DIRS_PER_ROOT
    &&& forall|i: int, j: int|
        #![trigger scan.dirs[i], scan.dirs[j]]
        0 <= i < j < scan.dirs.len() ==> scan.dirs[i].0.uri != scan.dirs[j].0.uri
    &&& forall|i: int|
        #![trigger scan.dirs[i]]
        0 <= i < scan.dirs.len() ==> 0 <= scan.dirs[i].1 <= MAX_SCAN_DEPTH
    &&& forall|i: int, j: int|
        #![trigger scan.dirs[i], scan.dirs[j]]
        0 <= i < j < scan.dirs.len() ==> scan.dirs[i].1 <= scan.dirs[j].1
    &&& scan.taken > 0 ==> forall|i: int|
        #![trigger scan.dirs[i]]
        0 <= i < scan.dirs.len() ==> scan.dirs[i].1 <= current_depth(scan) + 1
    &&& forall|i: int|
        #![trigger scan.names[i]]
        0 <= i < scan.names.len() ==> !hidden(scan.names[i])
    &&& scan.truncated ==> scan.dirs.len() == MAX_SKILLS_DIRS_PER_ROOT
    &&& under_way(scan) ==> scan.taken > 0
    &&& !under_way(scan) ==> scan.names.len() == 0
    &&& scan.phase is ResolveRoot || scan.phase is StatRoot ==> scan.dirs.len() == 0
    &&& scan.phase is List ==> scan.names.len() == 0
    &&& under_way(scan) && !(scan.phase is List) ==> scan.names.len() > 0
    &&& scan.phase is ResolveDir ==> scan.dirs.len() < MAX_SKILLS_DIRS_PER_ROOT && current_depth(scan)
        < MAX_SCAN_DEPTH
}

/// Every answer leaves a scan in order.
pub proof fn scan_stays_in_order(scan: ScanView, event: EventView)
    requires
        scan_wf(scan),
    ensures
        scan_wf(scan_next(scan, event)),
{
    match (scan.phase, event) {
        (PhaseView::List, EventView::DirectoryRead(Ok(names))) => {
            visible_names(names);
        },
        (PhaseView::ResolveDir { path }, EventView::Canonicalized(canonical)) => {
            let dir = identity(path, canonical);
            let dirs = scan.dirs.push((dir, current_depth(scan) + 1));
            if !known(scan.dirs, dir.uri) {
                assert forall|i: int, j: int|
                    #![trigger dirs[i], dirs[j]]
                    0 <= i < j < dirs.len() implies dirs[i].0.uri != dirs[j].0.uri by {
                    assert(dirs[i] == scan.dirs[i]);
                }
            }
        },
        _ => {},
    }
}

/// No hidden name is among the visible ones.
proof fn visible_names(names: Seq<Seq<char>>)
    ensures
        forall|i: int|
            #![trigger visible(names)[i]]
            0 <= i < visible(names).len() ==> !hidden(visible(names)[i]),
{
    broadcast use vstd::seq_lib::group_filter_ensures;

    let kept = |name: Seq<char>| !hidden(name);
    assert forall|i: int|
        #![trigger visible(names)[i]]
        0 <= i < visible(names).len() implies !hidden(visible(names)[i]) by {
        assert(kept(names.filter(kept)[i]));
    }
}

// The scan itself.

/// The visible ones of some names.
fn visible_of(names: Vec<String>) -> (kept: Vec<String>)
    ensures
        text_views(kept@) == visible(text_views(names@)),
{
    let ghost all = text_views(names@);
    let mut kept: Vec<String> = Vec::new();
    proof {
        assert(all.take(0) =~= Seq::<Seq<char>>::empty());
        reveal(Seq::filter);
        assert(text_views(kept@) =~= visible(all.take(0)));
    }
    for name in it: names
        invariant
            all == text_views(it.seq()),
            text_views(kept@) == visible(all.take(it.index() as int)),
    {
        let chars = to_chars(name.as_str());
        let ghost before = kept@;
        proof {
            reveal(Seq::filter);
            assert(all[it.index() as int] == name@);
            assert(all.take(it.index() + 1).drop_last() =~= all.take(it.index() as int));
        }
        if chars.len() > 0 && chars[0] == '.' {
            assert(hidden(name@));
        } else {
            kept.push(name);
            assert(text_views(kept@) =~= text_views(before).push(name@));
        }
    }
    assert(all.take(all.len() as int) =~= all);
    kept
}

impl SkillScan {
    /// Whether the scan is in order.
    pub closed spec fn wf(&self) -> bool {
        &&& self.passed <= self.names@.len()
        &&& scan_wf(self@)
    }

    /// A scan of the skills below a root.
    pub fn new(root: PathUri) -> (scan: Self)
        ensures
            scan@ == scan_start(root@),
            scan.wf(),
            scan_wf(scan@),
    {
        let scan = SkillScan {
            phase: ScanPhase::ResolveRoot { root },
            dirs: Vec::new(),
            taken: 0,
            names: Vec::new(),
            passed: 0,
            skills: Vec::new(),
            warnings: Vec::new(),
            truncated_by_dir_limit: false,
        };
        assert(scan@ =~= scan_start(root@));
        scan
    }

    /// What to ask next.
    pub fn action(&self) -> (action: ScanAction)
        requires
            self.wf(),
        ensures
            action@ == scan_action(self@),
    {
        match &self.phase {
            ScanPhase::ResolveRoot { root } => ScanAction::Canonicalize { path: root.duplicate() },
            ScanPhase::StatRoot { root } => ScanAction::Stat { path: root.duplicate() },
            ScanPhase::List => ScanAction::ReadDirectory {
                path: self.dirs[self.taken - 1].0.duplicate(),
            },
            ScanPhase::Join => {
                assert(self@.names[0] == self.names@[self.passed as int]@);
                ScanAction::Join {
                    dir: self.dirs[self.taken - 1].0.duplicate(),
                    name: self.names[self.passed].clone(),
                }
            },
            ScanPhase::Stat { path } => ScanAction::Stat { path: path.duplicate() },
            ScanPhase::Probe { path } => ScanAction::ReadDirectory { path: path.duplicate() },
            ScanPhase::ResolveDir { path } => ScanAction::Canonicalize { path: path.duplicate() },
            ScanPhase::ReadSkill { path } => ScanAction::ReadText { path: path.duplicate() },
            ScanPhase::ParseSkill { path, contents } => ScanAction::Parse {
                contents: contents.clone(),
                default_name: default_skill_name(path),
            },
            ScanPhase::ResolveSkill { path, .. } => ScanAction::Canonicalize {
                path: path.duplicate(),
            },
            ScanPhase::Done => ScanAction::Finished,
        }
    }

    /// Adds a warning.
    fn warn(&mut self, warning: String)
        ensures
            final(self)@ == warned(old(self)@, warning@),
            final(self).passed == old(self).passed,
            final(self).names == old(self).names,
    {
        self.warnings.push(warning);
        assert(self@ =~= warned(old(self)@, warning@));
    }

    /// Takes up the next name, or else the next directory, or else ends the scan.
    fn move_on(&mut self)
        requires
            old(self).passed <= old(self).names@.len(),
            old(self).taken <= old(self).dirs@.len(),
        ensures
            final(self)@ == moved_on(old(self)@),
            final(self).passed <= final(self).names@.len(),
    {
        if self.passed < self.names.len() {
            self.phase = ScanPhase::Join;
        } else if self.taken < self.dirs.len() {
            self.phase = ScanPhase::List;
            self.taken = self.taken + 1;
        } else {
            self.phase = ScanPhase::Done;
        }
        assert(self@ =~= moved_on(old(self)@));
    }

    /// Is through with the first name that was left.
    fn pass_name(&mut self)
        requires
            old(self).passed < old(self).names@.len(),
            old(self).taken <= old(self).dirs@.len(),
        ensures
            final(self)@ == passed_name(old(self)@),
            final(self).passed <= final(self).names@.len(),
    {
        assert(self.passed < self.names.len());
        self.passed = self.passed + 1;
        assert(self@ =~= (ScanView { names: old(self)@.names.drop_first(), ..old(self)@ }));
        self.move_on();
    }

    /// Has come upon a directory.
    fn enqueue_executor_skill_dir(&mut self, path: PathUri)
        requires
            old(self).passed < old(self).names@.len(),
            0 < old(self).taken <= old(self).dirs@.len(),
            current_depth(old(self)@) <= MAX_SCAN_DEPTH,
        ensures
            final(self)@ == came_upon_dir(old(self)@, path@),
            final(self).passed <= final(self).names@.len(),
    {
        if self.dirs[self.taken - 1].1 + 1 > MAX_SCAN_DEPTH {
            self.pass_name();
        } else if self.dirs.len() >= MAX_SKILLS_DIRS_PER_ROOT {
            self.truncated_by_dir_limit = true;
            assert(self@ =~= (ScanView { truncated: true, ..old(self)@ }));
            self.pass_name();
        } else {
            self.phase = ScanPhase::ResolveDir { path };
            assert(self@ =~= came_upon_dir(old(self)@, path@));
        }
    }

    /// Whether a directory was found before.
    fn knows(&self, uri: &str) -> (found: bool)
        ensures
            found == known(self@.dirs, uri@),
    {
        let mut i: usize = 0;
        while i < self.dirs.len()
            invariant
                i <= self.dirs@.len(),
                forall|j: int| 0 <= j < i ==> (#[trigger] self@.dirs[j]).0.uri != uri@,
            decreases self.dirs@.len() - i,
        {
            assert(self@.dirs[i as int].0.uri == self.dirs@[i as int].0.uri@);
            if same_text(self.dirs[i].0.uri.as_str(), uri) {
                return true;
            }
            i = i + 1;
        }
        false
    }

    /// Knows the canonical form of a directory that it has come upon.
    fn add_dir(&mut self, dir: PathUri)
        requires
            old(self).passed < old(self).names@.len(),
            0 < old(self).taken <= old(self).dirs@.len(),
            current_depth(old(self)@) < MAX_SCAN_DEPTH,
        ensures
            final(self)@ == resolved_dir(old(self)@, dir@),
            final(self).passed <= final(self).names@.len(),
    {
        if !self.knows(dir.uri.as_str()) {
            let depth = self.dirs[self.taken - 1].1 + 1;
            self.dirs.push((dir, depth));
            assert(self@ =~= (ScanView {
                dirs: old(self)@.dirs.push((dir@, current_depth(old(self)@) + 1)),
                ..old(self)@
            }));
        }
        self.pass_name();
    }

    /// Knows what a path leads to.
    fn take_metadata(&mut self, path: PathUri, metadata: FileMetadata)
        requires
            old(self).passed < old(self).names@.len(),
            0 < old(self).taken <= old(self).dirs@.len(),
            current_depth(old(self)@) <= MAX_SCAN_DEPTH,
        ensures
            final(self)@ == stated_path(old(self)@, path@, metadata),
            final(self).passed <= final(self).names@.len(),
    {
        assert(self@.names[0] == self.names@[self.passed as int]@);
        if metadata.is_symlink {
            self.phase = ScanPhase::Probe { path };
            assert(self@ =~= stated_path(old(self)@, path@, metadata));
        } else if metadata.is_directory {
            self.enqueue_executor_skill_dir(path);
        } else if metadata.is_file && same_text(self.names[self.passed].as_str(), SKILLS_FILENAME) {
            self.phase = ScanPhase::ReadSkill { path };
            assert(self@ =~= stated_path(old(self)@, path@, metadata));
        } else {
            self.pass_name();
        }
    }

    /// Takes the answer to what was asked. An answer to something else changes nothing.
    pub fn step(&mut self, event: ScanEvent)
        requires
            old(self).wf(),
        ensures
            final(self)@ == scan_next(old(self)@, event@),
            final(self).wf(),
            scan_wf(final(self)@),
    {
        proof {
            scan_stays_in_order(self@, event@);
        }
        let mut phase = ScanPhase::Done;
        core::mem::swap(&mut self.phase, &mut phase);
        let ghost pending = *self;
        assert(self@ =~= (ScanView { phase: PhaseView::Done, ..old(self)@ }));
        match (phase, event) {
            (ScanPhase::ResolveRoot { root }, ScanEvent::Canonicalized(canonical)) => {
                let root = match canonical {
                    Some(canonical) => canonical,
                    None => root,
                };
                self.phase = ScanPhase::StatRoot { root };
            },
            (ScanPhase::StatRoot { root }, ScanEvent::Stated(Ok(metadata))) => {
                if metadata.is_directory {
                    self.dirs.push((root, 0));
                    assert(self@ =~= (ScanView { dirs: seq![(root@, 0)], ..pending@ }));
                    self.move_on();
                }
            },
            (ScanPhase::StatRoot { root }, ScanEvent::Stated(Err(error))) => {
                if error.kind != FileErrorKind::NotFound {
                    self.warn(
                        "Failed to load executor skills at ".to_owned().concat(
                            root.uri.as_str(),
                        ).concat(": ").concat(error.message.as_str()),
                    );
                }
            },
            (ScanPhase::List, ScanEvent::DirectoryRead(Ok(names))) => {
                self.names = visible_of(names);
                self.passed = 0;
                assert(self.names@.skip(0) =~= self.names@);
                self.move_on();
            },
            (ScanPhase::List, ScanEvent::DirectoryRead(Err(error))) => {
                let warning = "Failed to read executor skills dir ".to_owned().concat(
                    self.dirs[self.taken - 1].0.uri.as_str(),
                ).concat(": ").concat(error.message.as_str());
                self.warn(warning);
                self.move_on();
            },
            (ScanPhase::Join, ScanEvent::Joined(Ok(path))) => {
                self.phase = ScanPhase::Stat { path };
            },
            (ScanPhase::Join, ScanEvent::Joined(Err(reason))) => {
                assert(old(self)@.names[0] == self.names@[self.passed as int]@);
                let warning = "Failed to resolve executor skill path ".to_owned().concat(
                    self.dirs[self.taken - 1].0.uri.as_str(),
                ).concat("/").concat(self.names[self.passed].as_str()).concat(": ").concat(
                    reason.as_str(),
                );
                self.warn(warning);
                self.pass_name();
            },
            (ScanPhase::Stat { path }, ScanEvent::Stated(Ok(metadata))) => {
                self.take_metadata(path, metadata);
            },
            (ScanPhase::Stat { path }, ScanEvent::Stated(Err(error))) => {
                self.warn(
                    "Failed to stat executor skill path ".to_owned().concat(
                        path.uri.as_str(),
                    ).concat(": ").concat(error.message.as_str()),
                );
                self.pass_name();
            },
            (ScanPhase::Probe { path }, ScanEvent::DirectoryRead(Ok(_))) => {
                self.enqueue_executor_skill_dir(path);
            },
            (ScanPhase::Probe { path }, ScanEvent::DirectoryRead(Err(error))) => {
                if error.kind == FileErrorKind::Other {
                    self.warn(
                        "Failed to read executor symlink dir ".to_owned().concat(
                            path.uri.as_str(),
                        ).concat(": ").concat(error.message.as_str()),
                    );
                }
                self.pass_name();
            },
            (ScanPhase::ResolveDir { path }, ScanEvent::Canonicalized(canonical)) => {
                self.add_dir(
                    match canonical {
                        Some(canonical) => canonical,
                        None => path,
                    },
                );
            },
            (ScanPhase::ReadSkill { path }, ScanEvent::TextRead(Ok(contents))) => {
                self.phase = ScanPhase::ParseSkill { path, contents };
            },
            (ScanPhase::ReadSkill { path }, ScanEvent::TextRead(Err(error))) => {
                let reason = "failed to read file: ".to_owned().concat(error.message.as_str());
                self.warn(
                    "Failed to load executor skill at ".to_owned().concat(
                        path.uri.as_str(),
                    ).concat(": ").concat(reason.as_str()),
                );
                self.pass_name();
            },
            (ScanPhase::ParseSkill { path, .. }, ScanEvent::Parsed(Ok(parsed))) => {
                self.phase = ScanPhase::ResolveSkill { path, parsed };
            },
            (ScanPhase::ParseSkill { path, .. }, ScanEvent::Parsed(Err(reason))) => {
                self.warn(
                    "Failed to load executor skill at ".to_owned().concat(
                        path.uri.as_str(),
                    ).concat(": ").concat(reason.as_str()),
                );
                self.pass_name();
            },
            (ScanPhase::ResolveSkill { path, parsed }, ScanEvent::Canonicalized(canonical)) => {
                let path = match canonical {
                    Some(canonical) => canonical,
                    None => path,
                };
                let skill = ExecutorSkill {
                    path,
                    name: parsed.name,
                    description: parsed.description,
                    short_description: parsed.short_description,
                };
                self.skills.push(skill);
                assert(self@ =~= (ScanView {
                    skills: old(self)@.skills.push(skill@),
                    ..pending@
                }));
                self.pass_name();
            },
            (phase, _) => {
                self.phase = phase;
            },
        }
        assert(self@ =~= scan_next(old(self)@, event@));
    }

    /// Whether the scan is over.
    pub fn is_finished(&self) -> (over: bool)
        ensures
            over == (self@.phase is Done),
    {
        matches!(self.phase, ScanPhase::Done)
    }

    /// Whether directories were left aside because there were too many.
    pub fn truncated_by_dir_limit(&self) -> (truncated: bool)
        ensures
            truncated == self@.truncated,
    {
        self.truncated_by_dir_limit
    }

    /// The root that is scanned, in the form by which it is told apart, once it is known to be a
    /// directory.
    pub fn root(&self) -> (root: Option<&PathUri>)
        ensures
            match root {
                Some(root) => self@.dirs.len() > 0 && root@ == self@.dirs[0].0,
                None => self@.dirs.len() == 0,
            },
    {
        if self.dirs.len() > 0 {
            Some(&self.dirs[0].0)
        } else {
            None
        }
    }

    /// What the scan has found.
    pub fn into_outcome(self) -> (outcome: ExecutorSkillLoadOutcome)
        ensures
            skill_views(outcome.skills@) == self@.skills,
            text_views(outcome.warnings@) == self@.warnings,
    {
        ExecutorSkillLoadOutcome { skills: self.skills, warnings: self.warnings }
    }
}

// What holds of every scan.

/// Whether an answer is one to what the scan has asked.
pub open spec fn fits(scan: ScanView, event: EventView) -> bool {
    match scan_action(scan) {
        ActionView::Canonicalize { .. } => event is Canonicalized,
        ActionView::Stat { .. } => event is Stated,
        ActionView::ReadDirectory { .. } => event is DirectoryRead,
        ActionView::Join { .. } => event is Joined,
        ActionView::ReadText { .. } => event is TextRead,
        ActionView::Parse { .. } => event is Parsed,
        ActionView::Finished => false,
    }
}

/// How many directories may still be taken up.
pub open spec fn dirs_to_go(scan: ScanView) -> int {
    MAX_SKILLS_DIRS_PER_ROOT - scan.taken
}

/// Whether names, or the root, are still to come.
pub open spec fn names_to_come(scan: ScanView) -> int {
    if scan.phase is ResolveRoot || scan.phase is StatRoot || scan.phase is List {
        1
    } else {
        0
    }
}

/// How many questions are left at most before the scan is through with a name, or the root.
pub open spec fn questions_to_go(scan: ScanView) -> int {
    match scan.phase {
        PhaseView::Join => 6,
        PhaseView::Stat { .. } => 5,
        PhaseView::Probe { .. } => 4,
        PhaseView::ResolveDir { .. } => 3,
        PhaseView::ReadSkill { .. } => 3,
        PhaseView::ParseSkill { .. } => 2,
        PhaseView::ResolveRoot { .. } => 2,
        PhaseView::ResolveSkill { .. } => 1,
        PhaseView::StatRoot { .. } => 1,
        PhaseView::List => 1,
        PhaseView::Done => 0,
    }
}

/// Every answer to what was asked brings the scan nearer to its end, whatever the file system
/// says: links in a circle cannot keep it going.
pub proof fn scan_makes_progress(scan: ScanView, event: EventView)
    requires
        scan_wf(scan),
        fits(scan, event),
    ensures
        decreases_to!(
            dirs_to_go(scan), names_to_come(scan), scan.names.len(), questions_to_go(scan)
            => dirs_to_go(scan_next(scan, event)), names_to_come(scan_next(scan, event)),
            scan_next(scan, event).names.len(), questions_to_go(scan_next(scan, event))
        ),
{
    scan_stays_in_order(scan, event);
}

/// Whether a scan goes on where another one stood.
pub open spec fn continues(before: ScanView, after: ScanView) -> bool {
    &&& before.dirs.is_prefix_of(after.dirs)
    &&& before.skills.is_prefix_of(after.skills)
    &&& before.warnings.is_prefix_of(after.warnings)
    &&& before.taken <= after.taken
    &&& before.truncated ==> after.truncated
}

/// An answer takes nothing back: directories, skills and warnings are only added, at the end, and
/// no directory is taken up again.
pub proof fn scan_takes_nothing_back(scan: ScanView, event: EventView)
    requires
        scan_wf(scan),
    ensures
        continues(scan, scan_next(scan, event)),
{
}

// Scans of a file system that stands still.

/// What a file system that stands still answers.
pub struct FileSystemView {
    pub canonical: spec_fn(PathView) -> Option<PathView>,
    pub metadata: spec_fn(PathView) -> Result<FileMetadata, FileErrorView>,
    pub names: spec_fn(PathView) -> Result<Seq<Seq<char>>, FileErrorView>,
    pub join: spec_fn(PathView, Seq<char>) -> Result<PathView, Seq<char>>,
    pub text: spec_fn(PathView) -> Result<Seq<char>, FileErrorView>,
    pub parse: spec_fn(Seq<char>, Seq<char>) -> Result<FrontmatterView, Seq<char>>,
}

/// The answer to what a scan asks.
pub open spec fn answer(fs: FileSystemView, action: ActionView) -> EventView {
    match action {
        ActionView::Canonicalize { path } => EventView::Canonicalized((fs.canonical)(path)),
        ActionView::Stat { path } => EventView::Stated((fs.metadata)(path)),
        ActionView::ReadDirectory { path } => EventView::DirectoryRead((fs.names)(path)),
        ActionView::Join { dir, name } => EventView::Joined((fs.join)(dir, name)),
        ActionView::ReadText { path } => EventView::TextRead((fs.text)(path)),
        ActionView::Parse { contents, default_name } => EventView::Parsed(
            (fs.parse)(contents, default_name),
        ),
        ActionView::Finished => EventView::Canonicalized(None),
    }
}

/// A scan after it was answered once.
pub open spec fn answered(fs: FileSystemView, scan: ScanView) -> ScanView {
    scan_next(scan, answer(fs, scan_action(scan)))
}

/// A scan when it is over.
pub open spec fn scanned(fs: FileSystemView, scan: ScanView) -> ScanView
    decreases
            dirs_to_go(scan),
            names_to_come(scan),
            scan.names.len(),
            questions_to_go(scan),
        when scan_wf(scan)
{
    if scan.phase is Done {
        scan
    } else {
        proof {
            scan_makes_progress(scan, answer(fs, scan_action(scan)));
        }
        scanned(fs, answered(fs, scan))
    }
}

/// The canonical form of a path, or the path itself.
pub open spec fn resolved(fs: FileSystemView, path: PathView) -> PathView {
    identity(path, (fs.canonical)(path))
}

/// Whether a path leads to a directory.
pub open spec fn leads_to_dir(fs: FileSystemView, path: PathView) -> bool {
    (fs.metadata)(path) matches Ok(metadata) && metadata.is_directory
}

/// Whether a directory is among those found, if the limits allow it.
pub open spec fn dir_accounted(
    fs: FileSystemView,
    scan: ScanView,
    path: PathView,
    depth: int,
) -> bool {
    depth > MAX_SCAN_DEPTH || scan.truncated || known(scan.dirs, resolved(fs, path).uri)
}

/// Whether a skill file is among the skills, or its fault among the warnings.
pub open spec fn skill_accounted(fs: FileSystemView, scan: ScanView, path: PathView) -> bool {
    match (fs.text)(path) {
        Err(error) => scan.warnings.contains(skill_warning(path, unreadable(error))),
        Ok(contents) => match (fs.parse)(contents, default_name(path)) {
            Err(reason) => scan.warnings.contains(skill_warning(path, reason)),
            Ok(parsed) => scan.skills.contains(skill_of(resolved(fs, path), parsed)),
        },
    }
}

/// Whether a link that leads to a directory is accounted for.
pub open spec fn link_accounted(
    fs: FileSystemView,
    scan: ScanView,
    path: PathView,
    depth: int,
) -> bool {
    match (fs.names)(path) {
        Ok(_) => dir_accounted(fs, scan, path, depth),
        Err(error) => error.kind is Other ==> scan.warnings.contains(link_warning(path, error)),
    }
}

/// Whether a name in a directory is accounted for.
pub open spec fn name_accounted(
    fs: FileSystemView,
    scan: ScanView,
    dir: (PathView, int),
    name: Seq<char>,
) -> bool {
    match (fs.join)(dir.0, name) {
        Err(reason) => scan.warnings.contains(join_warning(dir.0, name, reason)),
        Ok(path) => match (fs.metadata)(path) {
            Err(error) => scan.warnings.contains(stat_warning(path, error)),
            Ok(metadata) => if metadata.is_symlink {
                link_accounted(fs, scan, path, dir.1 + 1)
            } else if metadata.is_directory {
                dir_accounted(fs, scan, path, dir.1 + 1)
            } else {
                metadata.is_file && name == SKILLS_FILENAME@ ==> skill_accounted(fs, scan, path)
            },
        },
    }
}

/// Whether the first names in a directory are accounted for.
pub open spec fn names_accounted(
    fs: FileSystemView,
    scan: ScanView,
    dir: (PathView, int),
    names: Seq<Seq<char>>,
    count: int,
) -> bool {
    forall|k: int|
        #![trigger names[k]]
        0 <= k < count ==> name_accounted(fs, scan, dir, names[k])
}

/// Whether everything in a directory is accounted for.
pub open spec fn contents_accounted(
    fs: FileSystemView,
    scan: ScanView,
    dir: (PathView, int),
) -> bool {
    match (fs.names)(dir.0) {
        Err(error) => scan.warnings.contains(dir_warning(dir.0, error)),
        Ok(names) => names_accounted(fs, scan, dir, visible(names), visible(names).len() as int),
    }
}

/// Whether a skill file that a directory lists holds this skill.
pub open spec fn holds_skill(fs: FileSystemView, dir: PathView, skill: SkillView) -> bool {
    match (fs.join)(dir, SKILLS_FILENAME@) {
        Err(_) => false,
        Ok(path) => {
            &&& (fs.metadata)(path) matches Ok(metadata)
            &&& metadata.is_file && !metadata.is_symlink && !metadata.is_directory
            &&& (fs.text)(path) matches Ok(contents)
            &&& (fs.parse)(contents, default_name(path)) matches Ok(parsed)
            &&& skill == skill_of(resolved(fs, path), parsed)
            &&& (fs.names)(dir) matches Ok(names)
            &&& visible(names).contains(SKILLS_FILENAME@)
        },
    }
}

/// Whether a skill file in one of the directories holds this skill.
pub open spec fn held_in(
    fs: FileSystemView,
    dirs: Seq<(PathView, int)>,
    skill: SkillView,
) -> bool {
    exists|i: int| 0 <= i < dirs.len() && holds_skill(fs, (#[trigger] dirs[i]).0, skill)
}

/// Whether every skill was found in one of the directories.
pub open spec fn skills_found(
    fs: FileSystemView,
    dirs: Seq<(PathView, int)>,
    skills: Seq<SkillView>,
) -> bool {
    forall|s: int| #![trigger skills[s]] 0 <= s < skills.len() ==> held_in(fs, dirs, skills[s])
}

/// Whether the path that a scan deals with is that of the first name that is left.
spec fn at_name(fs: FileSystemView, scan: ScanView, path: PathView) -> bool {
    (fs.join)(current_dir(scan), scan.names[0]) == Ok::<PathView, Seq<char>>(path)
}

/// Whether what a scan knows of the first name that is left is so.
spec fn well_informed(fs: FileSystemView, scan: ScanView) -> bool {
    match scan.phase {
        PhaseView::Stat { path } => at_name(fs, scan, path),
        PhaseView::Probe { path } => {
            &&& at_name(fs, scan, path)
            &&& (fs.metadata)(path) matches Ok(metadata)
            &&& metadata.is_symlink
        },
        PhaseView::ResolveDir { path } => {
            &&& at_name(fs, scan, path)
            &&& (fs.metadata)(path) matches Ok(metadata)
            &&& metadata.is_symlink && (fs.names)(path) is Ok || !metadata.is_symlink
                && metadata.is_directory
        },
        PhaseView::ReadSkill { path } => at_skill(fs, scan, path),
        PhaseView::ParseSkill { path, contents } => {
            &&& at_skill(fs, scan, path)
            &&& (fs.text)(path) == Ok::<Seq<char>, FileErrorView>(contents)
        },
        PhaseView::ResolveSkill { path, parsed } => {
            &&& at_skill(fs, scan, path)
            &&& (fs.text)(path) matches Ok(contents)
            &&& (fs.parse)(contents, default_name(path)) == Ok::<FrontmatterView, Seq<char>>(parsed)
        },
        _ => true,
    }
}

/// Whether the first name that is left is that of a skill file.
spec fn at_skill(fs: FileSystemView, scan: ScanView, path: PathView) -> bool {
    &&& at_name(fs, scan, path)
    &&& scan.names[0] == SKILLS_FILENAME@
    &&& (fs.metadata)(path) matches Ok(metadata)
    &&& metadata.is_file && !metadata.is_symlink && !metadata.is_directory
}

/// How many of the directories a scan is through with.
spec fn dirs_through(scan: ScanView) -> int {
    if under_way(scan) {
        scan.taken - 1
    } else {
        scan.taken
    }
}

/// What holds at every step of a scan of a file system that stands still.
spec fn accounted_so_far(fs: FileSystemView, scan: ScanView) -> bool {
    &&& forall|i: int|
        #![trigger scan.dirs[i]]
        0 <= i < dirs_through(scan) ==> contents_accounted(fs, scan, scan.dirs[i])
    &&& under_way(scan) && !(scan.phase is List) ==> {
        &&& (fs.names)(current_dir(scan)) matches Ok(names)
        &&& scan.names.len() <= visible(names).len()
        &&& scan.names == visible(names).skip(visible(names).len() - scan.names.len())
        &&& names_accounted(
            fs,
            scan,
            scan.dirs[scan.taken - 1],
            visible(names),
            visible(names).len() - scan.names.len(),
        )
    }
    &&& scan.phase is Done ==> scan.taken == scan.dirs.len()
    &&& well_informed(fs, scan)
    &&& skills_found(fs, scan.dirs, scan.skills)
}

/// What is accounted for stays so.
proof fn accounted_stays(
    fs: FileSystemView,
    before: ScanView,
    after: ScanView,
    dir: (PathView, int),
    name: Seq<char>,
)
    requires
        continues(before, after),
        name_accounted(fs, before, dir, name),
    ensures
        name_accounted(fs, after, dir, name),
{
    assert forall|warning: Seq<char>| before.warnings.contains(warning) implies #[trigger]
        after.warnings.contains(warning) by {
        let i = before.warnings.index_of(warning);
        assert(after.warnings[i] == warning);
    }
    assert forall|skill: SkillView| before.skills.contains(skill) implies #[trigger]
        after.skills.contains(skill) by {
        let i = before.skills.index_of(skill);
        assert(after.skills[i] == skill);
    }
    assert forall|uri: Seq<char>| known(before.dirs, uri) implies #[trigger]
        known(after.dirs, uri) by {
        let i = choose|i: int|
            0 <= i < before.dirs.len() && (#[trigger] before.dirs[i]).0.uri == uri;
        assert(after.dirs[i] == before.dirs[i]);
    }
}

/// A directory whose contents are accounted for stays so.
proof fn contents_stay_accounted(
    fs: FileSystemView,
    before: ScanView,
    after: ScanView,
    dir: (PathView, int),
)
    requires
        continues(before, after),
        contents_accounted(fs, before, dir),
    ensures
        contents_accounted(fs, after, dir),
{
    match (fs.names)(dir.0) {
        Err(error) => {
            let i = before.warnings.index_of(dir_warning(dir.0, error));
            assert(after.warnings[i] == dir_warning(dir.0, error));
        },
        Ok(names) => {
            assert forall|k: int|
                #![trigger visible(names)[k]]
                0 <= k < visible(names).len() implies name_accounted(
                fs,
                after,
                dir,
                visible(names)[k],
            ) by {
                accounted_stays(fs, before, after, dir, visible(names)[k]);
            }
        },
    }
}

/// A scan that moves on still accounts for everything.
proof fn moving_on_accounts(fs: FileSystemView, scan: ScanView, names: Seq<Seq<char>>)
    requires
        0 < scan.taken <= scan.dirs.len(),
        (fs.names)(current_dir(scan)) == Ok::<Seq<Seq<char>>, FileErrorView>(names),
        forall|i: int|
            #![trigger scan.dirs[i]]
            0 <= i < scan.taken - 1 ==> contents_accounted(fs, scan, scan.dirs[i]),
        scan.names.len() <= visible(names).len(),
        scan.names == visible(names).skip(visible(names).len() - scan.names.len()),
        names_accounted(
            fs,
            scan,
            scan.dirs[scan.taken - 1],
            visible(names),
            visible(names).len() - scan.names.len(),
        ),
        skills_found(fs, scan.dirs, scan.skills),
    ensures
        accounted_so_far(fs, moved_on(scan)),
{
    let after = moved_on(scan);
    let dir = scan.dirs[scan.taken - 1];
    assert(continues(scan, after));
    assert forall|i: int| #![trigger after.dirs[i]] 0 <= i < dirs_through(after) implies
        contents_accounted(fs, after, after.dirs[i]) by {
        if i == scan.taken - 1 {
            assert(contents_accounted(fs, scan, dir));
        }
        contents_stay_accounted(fs, scan, after, scan.dirs[i]);
    }
    assert forall|k: int|
        #![trigger visible(names)[k]]
        0 <= k < visible(names).len() - scan.names.len() implies name_accounted(
        fs,
        after,
        dir,
        visible(names)[k],
    ) by {
        accounted_stays(fs, scan, after, dir, visible(names)[k]);
    }
}

/// A scan that is through with a name that is accounted for still accounts for everything.
proof fn passing_name_accounts(fs: FileSystemView, before: ScanView, scan: ScanView)
    requires
        scan_wf(before),
        accounted_so_far(fs, before),
        under_way(before),
        !(before.phase is List),
        continues(before, scan),
        scan.taken == before.taken,
        scan.names == before.names,
        name_accounted(fs, scan, before.dirs[before.taken - 1], before.names[0]),
        skills_found(fs, scan.dirs, scan.skills),
    ensures
        accounted_so_far(fs, passed_name(scan)),
{
    let dir = before.dirs[before.taken - 1];
    let names = (fs.names)(current_dir(before))->Ok_0;
    let shorter = ScanView { names: scan.names.drop_first(), ..scan };
    let done = visible(names).len() - scan.names.len();
    assert(shorter.dirs[shorter.taken - 1] == dir);
    assert(scan.names[0] == visible(names)[done]);
    assert(shorter.names =~= visible(names).skip(done + 1));
    assert(continues(before, shorter));
    assert(continues(scan, shorter));
    assert forall|i: int| #![trigger shorter.dirs[i]] 0 <= i < shorter.taken - 1 implies
        contents_accounted(fs, shorter, shorter.dirs[i]) by {
        assert(before.dirs[i] == shorter.dirs[i]);
        contents_stay_accounted(fs, before, shorter, before.dirs[i]);
    }
    assert forall|k: int|
        #![trigger visible(names)[k]]
        0 <= k < done + 1 implies name_accounted(fs, shorter, dir, visible(names)[k]) by {
        if k < done {
            accounted_stays(fs, before, shorter, dir, visible(names)[k]);
        } else {
            accounted_stays(fs, scan, shorter, dir, visible(names)[k]);
        }
    }
    moving_on_accounts(fs, shorter, names);
}

/// A scan that asks on about a name still accounts for everything.
proof fn asking_on_accounts(fs: FileSystemView, scan: ScanView, phase: PhaseView)
    requires
        accounted_so_far(fs, scan),
        under_way(scan),
        !(scan.phase is List),
        under_way(ScanView { phase, ..scan }),
        !(phase is List),
        well_informed(fs, ScanView { phase, ..scan }),
    ensures
        accounted_so_far(fs, ScanView { phase, ..scan }),
{
    let after = ScanView { phase, ..scan };
    let names = (fs.names)(current_dir(scan))->Ok_0;
    assert forall|i: int| #![trigger after.dirs[i]] 0 <= i < dirs_through(after) implies
        contents_accounted(fs, after, after.dirs[i]) by {
        contents_stay_accounted(fs, scan, after, scan.dirs[i]);
    }
    assert forall|k: int|
        #![trigger visible(names)[k]]
        0 <= k < visible(names).len() - scan.names.len() implies name_accounted(
        fs,
        after,
        scan.dirs[scan.taken - 1],
        visible(names)[k],
    ) by {
        accounted_stays(fs, scan, after, scan.dirs[scan.taken - 1], visible(names)[k]);
    }
}

/// A scan that has come upon a directory still accounts for everything.
proof fn coming_upon_dir_accounts(fs: FileSystemView, scan: ScanView, path: PathView)
    requires
        scan_wf(scan),
        accounted_so_far(fs, scan),
        under_way(scan),
        !(scan.phase is List),
        well_informed(fs, ScanView { phase: PhaseView::ResolveDir { path }, ..scan }),
    ensures
        accounted_so_far(fs, came_upon_dir(scan, path)),
{
    if current_depth(scan) + 1 > MAX_SCAN_DEPTH {
        passing_name_accounts(fs, scan, scan);
    } else if scan.dirs.len() >= MAX_SKILLS_DIRS_PER_ROOT {
        passing_name_accounts(fs, scan, ScanView { truncated: true, ..scan });
    } else {
        asking_on_accounts(fs, scan, PhaseView::ResolveDir { path });
    }
}

/// A scan that warns of the first name that is left still accounts for everything.
proof fn warning_accounts(fs: FileSystemView, scan: ScanView, warning: Seq<char>)
    requires
        scan_wf(scan),
        accounted_so_far(fs, scan),
        under_way(scan),
        !(scan.phase is List),
        warned(scan, warning).warnings.contains(warning) ==> name_accounted(
            fs,
            warned(scan, warning),
            scan.dirs[scan.taken - 1],
            scan.names[0],
        ),
    ensures
        accounted_so_far(fs, passed_name(warned(scan, warning))),
{
    assert(warned(scan, warning).warnings.last() == warning);
    passing_name_accounts(fs, scan, warned(scan, warning));
}

/// A scan that adds a directory still has every skill from one of them.
proof fn skills_stay_found(
    fs: FileSystemView,
    dirs: Seq<(PathView, int)>,
    skills: Seq<SkillView>,
    dir: (PathView, int),
)
    requires
        skills_found(fs, dirs, skills),
    ensures
        skills_found(fs, dirs.push(dir), skills),
{
    assert forall|s: int| #![trigger skills[s]] 0 <= s < skills.len() implies held_in(
        fs,
        dirs.push(dir),
        skills[s],
    ) by {
        let i = choose|i: int|
            0 <= i < dirs.len() && holds_skill(fs, (#[trigger] dirs[i]).0, skills[s]);
        assert(dirs.push(dir)[i] == dirs[i]);
    }
}

/// A scan that is answered about the first name that is left still accounts for everything.
proof fn name_answer_accounts(fs: FileSystemView, scan: ScanView)
    requires
        scan_wf(scan),
        accounted_so_far(fs, scan),
        under_way(scan),
        !(scan.phase is List),
    ensures
        accounted_so_far(fs, answered(fs, scan)),
{
    let dir = scan.dirs[scan.taken - 1];
    match (scan.phase, answer(fs, scan_action(scan))) {
        (PhaseView::Join, EventView::Joined(Ok(path))) => {
            asking_on_accounts(fs, scan, PhaseView::Stat { path });
        },
        (PhaseView::Join, EventView::Joined(Err(reason))) => {
            warning_accounts(fs, scan, join_warning(dir.0, scan.names[0], reason));
        },
        (PhaseView::Stat { path }, EventView::Stated(Ok(metadata))) => {
            if metadata.is_symlink {
                asking_on_accounts(fs, scan, PhaseView::Probe { path });
            } else if metadata.is_directory {
                coming_upon_dir_accounts(fs, scan, path);
            } else if metadata.is_file && scan.names[0] == SKILLS_FILENAME@ {
                asking_on_accounts(fs, scan, PhaseView::ReadSkill { path });
            } else {
                passing_name_accounts(fs, scan, scan);
            }
        },
        (PhaseView::Stat { path }, EventView::Stated(Err(error))) => {
            warning_accounts(fs, scan, stat_warning(path, error));
        },
        (PhaseView::Probe { path }, EventView::DirectoryRead(Ok(_))) => {
            coming_upon_dir_accounts(fs, scan, path);
        },
        (PhaseView::Probe { path }, EventView::DirectoryRead(Err(error))) => {
            if error.kind is Other {
                warning_accounts(fs, scan, link_warning(path, error));
            } else {
                passing_name_accounts(fs, scan, scan);
            }
        },
        (PhaseView::ResolveDir { path }, EventView::Canonicalized(canonical)) => {
            let found = (identity(path, canonical), current_depth(scan) + 1);
            if known(scan.dirs, found.0.uri) {
                passing_name_accounts(fs, scan, scan);
            } else {
                let more = ScanView { dirs: scan.dirs.push(found), ..scan };
                assert(more.dirs.last().0.uri == found.0.uri);
                skills_stay_found(fs, scan.dirs, scan.skills, found);
                passing_name_accounts(fs, scan, more);
            }
        },
        (PhaseView::ReadSkill { path }, EventView::TextRead(Ok(contents))) => {
            asking_on_accounts(fs, scan, PhaseView::ParseSkill { path, contents });
        },
        (PhaseView::ReadSkill { path }, EventView::TextRead(Err(error))) => {
            warning_accounts(fs, scan, skill_warning(path, unreadable(error)));
        },
        (PhaseView::ParseSkill { path, .. }, EventView::Parsed(Ok(parsed))) => {
            asking_on_accounts(fs, scan, PhaseView::ResolveSkill { path, parsed });
        },
        (PhaseView::ParseSkill { path, .. }, EventView::Parsed(Err(reason))) => {
            warning_accounts(fs, scan, skill_warning(path, reason));
        },
        (PhaseView::ResolveSkill { path, parsed }, EventView::Canonicalized(canonical)) => {
            let skill = skill_of(identity(path, canonical), parsed);
            let more = ScanView { skills: scan.skills.push(skill), ..scan };
            assert(more.skills.last() == skill);
            let names = (fs.names)(dir.0)->Ok_0;
            assert(visible(names)[visible(names).len() - scan.names.len()] == scan.names[0]);
            assert(holds_skill(fs, dir.0, skill));
            assert(held_in(fs, scan.dirs, skill));
            passing_name_accounts(fs, scan, more);
        },
        _ => {},
    }
}

/// One more answer, and the scan still accounts for everything.
proof fn answer_accounts(fs: FileSystemView, scan: ScanView)
    requires
        scan_wf(scan),
        accounted_so_far(fs, scan),
    ensures
        accounted_so_far(fs, answered(fs, scan)),
{
    let event = answer(fs, scan_action(scan));
    match (scan.phase, event) {
        (PhaseView::List, EventView::DirectoryRead(Ok(names))) => {
            let listed = ScanView { names: visible(names), ..scan };
            assert(visible(names).skip(0) =~= visible(names));
            assert forall|i: int| #![trigger listed.dirs[i]] 0 <= i < listed.taken - 1 implies
                contents_accounted(fs, listed, listed.dirs[i]) by {
                contents_stay_accounted(fs, scan, listed, scan.dirs[i]);
            }
            moving_on_accounts(fs, listed, names);
        },
        (PhaseView::List, EventView::DirectoryRead(Err(error))) => {
            let warning = dir_warning(current_dir(scan), error);
            let after = answered(fs, scan);
            assert(after.warnings.last() == warning);
            assert forall|i: int| #![trigger after.dirs[i]] 0 <= i < dirs_through(after) implies
                contents_accounted(fs, after, after.dirs[i]) by {
                if i < scan.taken - 1 {
                    contents_stay_accounted(fs, scan, after, scan.dirs[i]);
                }
            }
        },
        _ => {
            if under_way(scan) {
                name_answer_accounts(fs, scan);
            }
        },
    }
}

/// A scan that is over accounts for everything.
proof fn scanned_accounts(fs: FileSystemView, scan: ScanView)
    requires
        scan_wf(scan),
        accounted_so_far(fs, scan),
    ensures
        scan_wf(scanned(fs, scan)),
        accounted_so_far(fs, scanned(fs, scan)),
        scanned(fs, scan).phase is Done,
        continues(scan, scanned(fs, scan)),
    decreases dirs_to_go(scan), names_to_come(scan), scan.names.len(), questions_to_go(scan),
{
    if !(scan.phase is Done) {
        let event = answer(fs, scan_action(scan));
        scan_makes_progress(scan, event);
        scan_stays_in_order(scan, event);
        answer_accounts(fs, scan);
        scan_takes_nothing_back(scan, event);
        scanned_accounts(fs, answered(fs, scan));
    }
}

/// The scan of a root, in a file system that stands still, comes to an end and leaves nothing
/// out. If the root is a directory, it is the first one found. Of every directory that was found,
/// every visible name is accounted for: a skill file is among the skills or its fault among the
/// warnings, a directory is found in turn unless it is too deep or there are too many, and what
/// could not be looked at is among the warnings.
pub proof fn scan_leaves_nothing_out(fs: FileSystemView, root: PathView)
    ensures
        ({
            let end = scanned(fs, scan_start(root));
            &&& end.phase is Done
            &&& leads_to_dir(fs, resolved(fs, root))
                ==> end.dirs.len() > 0 && end.dirs[0] == (resolved(fs, root), 0int)
            &&& forall|i: int|
                #![trigger end.dirs[i]]
                0 <= i < end.dirs.len() ==> contents_accounted(fs, end, end.dirs[i])
        }),
{
    root_is_scanned(fs, root);
}

/// The scan of a root keeps its limits: the directories found are different ones, no more and no
/// deeper than allowed, those nearer to the root first. Only the limit on their number makes it
/// leave some aside without regard to their depth.
pub proof fn scan_keeps_its_limits(fs: FileSystemView, root: PathView)
    ensures
        ({
            let end = scanned(fs, scan_start(root));
            &&& end.dirs.len() <= MAX_SKILLS_DIRS_PER_ROOT
            &&& end.truncated ==> end.dirs.len() == MAX_SKILLS_DIRS_PER_ROOT
            &&& forall|i: int|
                #![trigger end.dirs[i]]
                0 <= i < end.dirs.len() ==> 0 <= end.dirs[i].1 <= MAX_SCAN_DEPTH
            &&& forall|i: int, j: int|
                #![trigger end.dirs[i], end.dirs[j]]
                0 <= i < j < end.dirs.len() ==> end.dirs[i].0.uri != end.dirs[j].0.uri
                    && end.dirs[i].1 <= end.dirs[j].1
        }),
{
    root_is_scanned(fs, root);
}

/// The scan of a root, in a file system that stands still, makes nothing up: every skill is what
/// a skill file says that is a plain file in one of the directories found.
pub proof fn scan_makes_nothing_up(fs: FileSystemView, root: PathView)
    ensures
        ({
            let end = scanned(fs, scan_start(root));
            skills_found(fs, end.dirs, end.skills)
        }),
{
    root_is_scanned(fs, root);
}

/// A root that is no directory, or is not there, has no skills, and only an error other than that
/// is worth a warning.
pub proof fn missing_root_is_no_fault(fs: FileSystemView, root: PathView)
    requires
        !leads_to_dir(fs, resolved(fs, root)),
    ensures
        ({
            let end = scanned(fs, scan_start(root));
            &&& end.skills == Seq::<SkillView>::empty()
            &&& end.warnings == match (fs.metadata)(resolved(fs, root)) {
                Err(error) if !(error.kind is NotFound) => seq![
                    root_warning(resolved(fs, root), error),
                ],
                _ => Seq::empty(),
            }
        }),
{
    let start = scan_start(root);
    let stated = answered(fs, start);
    scan_stays_in_order(start, answer(fs, scan_action(start)));
    scan_stays_in_order(stated, answer(fs, scan_action(stated)));
    reveal_with_fuel(scanned, 3);
    assert(answered(fs, stated).phase is Done);
    assert(scanned(fs, start).warnings =~= match (fs.metadata)(resolved(fs, root)) {
        Err(error) if !(error.kind is NotFound) => seq![root_warning(resolved(fs, root), error)],
        _ => Seq::empty(),
    });
}

/// What holds of the whole scan of a root.
proof fn root_is_scanned(fs: FileSystemView, root: PathView)
    ensures
        ({
            let end = scanned(fs, scan_start(root));
            &&& end.phase is Done
            &&& scan_wf(end)
            &&& accounted_so_far(fs, end)
            &&& leads_to_dir(fs, resolved(fs, root))
                ==> end.dirs.len() > 0 && end.dirs[0] == (resolved(fs, root), 0int)
        }),
{
    let start = scan_start(root);
    let stated = answered(fs, start);
    let listing = answered(fs, stated);
    scan_stays_in_order(start, answer(fs, scan_action(start)));
    scan_stays_in_order(stated, answer(fs, scan_action(stated)));
    answer_accounts(fs, start);
    answer_accounts(fs, stated);
    scanned_accounts(fs, listing);
    reveal_with_fuel(scanned, 3);
    assert(scanned(fs, start) == scanned(fs, listing));
    if leads_to_dir(fs, resolved(fs, root)) {
        assert(listing.dirs =~= seq![(resolved(fs, root), 0int)]);
        assert(scanned(fs, listing).dirs[0] == listing.dirs[0]);
    }
}

// Where everything that a scan has found comes from.

/// Whether a name in a directory leads to this directory, itself or as a link.
pub open spec fn leads_to(
    fs: FileSystemView,
    dir: PathView,
    name: Seq<char>,
    found: PathView,
) -> bool {
    match (fs.join)(dir, name) {
        Err(_) => false,
        Ok(path) => {
            &&& found == resolved(fs, path)
            &&& (fs.metadata)(path) matches Ok(metadata)
            &&& if metadata.is_symlink {
                (fs.names)(path) is Ok
            } else {
                metadata.is_directory
            }
        },
    }
}

/// Whether a directory is one step below another one.
pub open spec fn one_below(
    fs: FileSystemView,
    dir: (PathView, int),
    found: (PathView, int),
) -> bool {
    &&& found.1 == dir.1 + 1
    &&& (fs.names)(dir.0) matches Ok(names)
    &&& exists|k: int|
        0 <= k < visible(names).len() && leads_to(
            fs,
            dir.0,
            #[trigger] visible(names)[k],
            found.0,
        )
}

/// Whether each directory is the root, which comes first, or one step below an earlier one.
pub open spec fn dirs_below(
    fs: FileSystemView,
    root: PathView,
    dirs: Seq<(PathView, int)>,
) -> bool {
    forall|i: int|
        #![trigger dirs[i]]
        0 <= i < dirs.len() ==> if i == 0 {
            dirs[i] == (root, 0int)
        } else {
            below_one_of(fs, dirs, i, dirs[i])
        }
}

/// Whether a directory is one step below one of the first ones.
pub open spec fn below_one_of(
    fs: FileSystemView,
    dirs: Seq<(PathView, int)>,
    count: int,
    found: (PathView, int),
) -> bool {
    exists|j: int| 0 <= j < count && one_below(fs, #[trigger] dirs[j], found)
}

/// Whether a warning is of a fault of a skill file.
pub open spec fn skill_fault(fs: FileSystemView, path: PathView, warning: Seq<char>) -> bool {
    match (fs.text)(path) {
        Err(error) => warning == skill_warning(path, unreadable(error)),
        Ok(contents) => match (fs.parse)(contents, default_name(path)) {
            Err(reason) => warning == skill_warning(path, reason),
            Ok(_) => false,
        },
    }
}

/// Whether a warning is of a fault of a name in a directory.
pub open spec fn name_fault(
    fs: FileSystemView,
    dir: PathView,
    name: Seq<char>,
    warning: Seq<char>,
) -> bool {
    match (fs.join)(dir, name) {
        Err(reason) => warning == join_warning(dir, name, reason),
        Ok(path) => match (fs.metadata)(path) {
            Err(error) => warning == stat_warning(path, error),
            Ok(metadata) => if metadata.is_symlink {
                (fs.names)(path) matches Err(error) && error.kind is Other && warning
                    == link_warning(path, error)
            } else {
                !metadata.is_directory && metadata.is_file && name == SKILLS_FILENAME@
                    && skill_fault(fs, path, warning)
            },
        },
    }
}

/// Whether a warning is of a fault of a directory or of something in it.
pub open spec fn fault_in(fs: FileSystemView, dir: PathView, warning: Seq<char>) -> bool {
    match (fs.names)(dir) {
        Err(error) => warning == dir_warning(dir, error),
        Ok(names) => exists|k: int|
            0 <= k < visible(names).len() && name_fault(
                fs,
                dir,
                #[trigger] visible(names)[k],
                warning,
            ),
    }
}

/// Whether a warning is of a fault of the root, of one of the directories or of something in it.
pub open spec fn fault_met(
    fs: FileSystemView,
    root: PathView,
    dirs: Seq<(PathView, int)>,
    warning: Seq<char>,
) -> bool {
    ||| (fs.metadata)(root) matches Err(error) && warning == root_warning(root, error)
    ||| exists|i: int| 0 <= i < dirs.len() && fault_in(fs, (#[trigger] dirs[i]).0, warning)
}

/// Whether every warning is of a fault that was met.
pub open spec fn warnings_met(
    fs: FileSystemView,
    root: PathView,
    dirs: Seq<(PathView, int)>,
    warnings: Seq<Seq<char>>,
) -> bool {
    forall|w: int|
        #![trigger warnings[w]]
        0 <= w < warnings.len() ==> fault_met(fs, root, dirs, warnings[w])
}

/// Whether these are the directories that the skills were found in, one for each, in order, and none
/// twice.
pub open spec fn found_in_turn(
    fs: FileSystemView,
    dirs: Seq<(PathView, int)>,
    skills: Seq<SkillView>,
    places: Seq<int>,
) -> bool {
    &&& places.len() == skills.len()
    &&& forall|s: int, t: int|
        #![trigger places[s], places[t]]
        0 <= s < t < places.len() ==> places[s] < places[t]
    &&& forall|s: int|
        #![trigger places[s]]
        0 <= s < places.len() ==> 0 <= places[s] < dirs.len() && holds_skill(
            fs,
            dirs[places[s]].0,
            skills[s],
        )
}

/// Whether no directory lists a visible name twice.
pub open spec fn names_differ(fs: FileSystemView) -> bool {
    forall|dir: PathView|
        #![trigger (fs.names)(dir)]
        (fs.names)(dir) matches Ok(names) ==> visible(names).no_duplicates()
}

/// Whether the skill files of different directories have different paths.
pub open spec fn skill_paths_differ(fs: FileSystemView) -> bool {
    forall|a: PathView, b: PathView|
        #![trigger (fs.join)(a, SKILLS_FILENAME@), (fs.join)(b, SKILLS_FILENAME@)]
        a.uri != b.uri && (fs.join)(a, SKILLS_FILENAME@) is Ok && (fs.join)(
            b,
            SKILLS_FILENAME@,
        ) is Ok ==> resolved(fs, (fs.join)(a, SKILLS_FILENAME@)->Ok_0).uri != resolved(
            fs,
            (fs.join)(b, SKILLS_FILENAME@)->Ok_0,
        ).uri
}

/// What holds of directories and warnings at every step.
spec fn traced(fs: FileSystemView, root: PathView, scan: ScanView) -> bool {
    &&& dirs_below(fs, resolved(fs, root), scan.dirs)
    &&& warnings_met(fs, resolved(fs, root), scan.dirs, scan.warnings)
    &&& scan.phase matches PhaseView::ResolveRoot { root: given } ==> given == root
    &&& scan.phase matches PhaseView::StatRoot { root: given } ==> given == resolved(fs, root)
}

/// What holds of skills at every step: from a directory that was dealt with comes at most one, and
/// from the one being dealt with only if its skill file is behind.
spec fn placed(fs: FileSystemView, scan: ScanView, places: Seq<int>) -> bool {
    &&& found_in_turn(fs, scan.dirs, scan.skills, places)
    &&& forall|s: int| #![trigger places[s]] 0 <= s < places.len() ==> places[s] < scan.taken
    &&& scan.phase is List && places.len() > 0 ==> places.last() < scan.taken - 1
    &&& places.len() > 0 && places.last() == scan.taken - 1 ==> !scan.names.contains(
        SKILLS_FILENAME@,
    )
}

/// A directory more takes nothing away from where things come from.
proof fn still_traced(fs: FileSystemView, root: PathView, scan: ScanView, found: (PathView, int))
    requires
        dirs_below(fs, root, scan.dirs),
        warnings_met(fs, root, scan.dirs, scan.warnings),
        scan.dirs.len() > 0,
        below_one_of(fs, scan.dirs, scan.dirs.len() as int, found),
    ensures
        dirs_below(fs, root, scan.dirs.push(found)),
        warnings_met(fs, root, scan.dirs.push(found), scan.warnings),
{
    let dirs = scan.dirs.push(found);
    assert forall|i: int| #![trigger dirs[i]] 0 < i < dirs.len() implies below_one_of(
        fs,
        dirs,
        i,
        dirs[i],
    ) by {
        assert(below_one_of(fs, scan.dirs, i, dirs[i])) by {
            if i < scan.dirs.len() {
                assert(scan.dirs[i] == dirs[i]);
            }
        }
        let j = choose|j: int| 0 <= j < i && one_below(fs, #[trigger] scan.dirs[j], dirs[i]);
        assert(dirs[j] == scan.dirs[j]);
    }
    assert(dirs[0] == scan.dirs[0]);
    assert forall|w: int| #![trigger scan.warnings[w]] 0 <= w < scan.warnings.len() implies fault_met(
        fs,
        root,
        dirs,
        scan.warnings[w],
    ) by {
        let warning = scan.warnings[w];
        assert(fault_met(fs, root, scan.dirs, warning));
        if !((fs.metadata)(root) matches Err(error) && warning == root_warning(root, error)) {
            let i = choose|i: int|
                0 <= i < scan.dirs.len() && fault_in(fs, (#[trigger] scan.dirs[i]).0, warning);
            assert(dirs[i] == scan.dirs[i]);
        }
    }
}

/// A warning of a fault in the directory being dealt with is one of a fault that was met.
proof fn warning_traced(fs: FileSystemView, root: PathView, scan: ScanView, warning: Seq<char>)
    requires
        warnings_met(fs, root, scan.dirs, scan.warnings),
        0 < scan.taken <= scan.dirs.len(),
        fault_in(fs, current_dir(scan), warning),
    ensures
        warnings_met(fs, root, scan.dirs, scan.warnings.push(warning)),
{
    assert(scan.dirs[scan.taken - 1].0 == current_dir(scan));
    assert(fault_met(fs, root, scan.dirs, warning));
    let more = scan.warnings.push(warning);
    assert forall|w: int| #![trigger more[w]] 0 <= w < more.len() implies fault_met(
        fs,
        root,
        scan.dirs,
        more[w],
    ) by {
        if w < scan.warnings.len() {
            assert(more[w] == scan.warnings[w]);
        }
    }
}

/// A fault of the first name that is left is one in the directory being dealt with.
proof fn first_name_faulty(fs: FileSystemView, scan: ScanView, warning: Seq<char>)
    requires
        scan_wf(scan),
        accounted_so_far(fs, scan),
        under_way(scan),
        !(scan.phase is List),
        name_fault(fs, current_dir(scan), scan.names[0], warning),
    ensures
        fault_in(fs, current_dir(scan), warning),
{
    let names = (fs.names)(current_dir(scan))->Ok_0;
    let k = visible(names).len() - scan.names.len();
    assert(visible(names)[k] == scan.names[0]);
}

/// One more answer, and everything still comes from where it was found.
proof fn answer_traced(fs: FileSystemView, root: PathView, scan: ScanView)
    requires
        scan_wf(scan),
        accounted_so_far(fs, scan),
        traced(fs, root, scan),
    ensures
        traced(fs, root, answered(fs, scan)),
{
    let top = resolved(fs, root);
    let dir = current_dir(scan);
    match (scan.phase, answer(fs, scan_action(scan))) {
        (PhaseView::StatRoot { root: given }, EventView::Stated(Err(error))) => {
            if !(error.kind is NotFound) {
                let more = scan.warnings.push(root_warning(given, error));
                assert forall|w: int| #![trigger more[w]] 0 <= w < more.len() implies fault_met(
                    fs,
                    top,
                    scan.dirs,
                    more[w],
                ) by {
                    if w < scan.warnings.len() {
                        assert(more[w] == scan.warnings[w]);
                    }
                }
            }
        },
        (PhaseView::StatRoot { root: given }, EventView::Stated(Ok(metadata))) => {
            if metadata.is_directory {
                let dirs = seq![(given, 0int)];
                assert forall|w: int|
                    #![trigger scan.warnings[w]]
                    0 <= w < scan.warnings.len() implies fault_met(
                    fs,
                    top,
                    dirs,
                    scan.warnings[w],
                ) by {
                    assert(fault_met(fs, top, scan.dirs, scan.warnings[w]));
                }
            }
        },
        (PhaseView::List, EventView::DirectoryRead(Err(error))) => {
            warning_traced(fs, top, scan, dir_warning(dir, error));
        },
        (PhaseView::Join, EventView::Joined(Err(reason))) => {
            let warning = join_warning(dir, scan.names[0], reason);
            first_name_faulty(fs, scan, warning);
            warning_traced(fs, top, scan, warning);
        },
        (PhaseView::Stat { path }, EventView::Stated(Err(error))) => {
            let warning = stat_warning(path, error);
            first_name_faulty(fs, scan, warning);
            warning_traced(fs, top, scan, warning);
        },
        (PhaseView::Probe { path }, EventView::DirectoryRead(Err(error))) => {
            if error.kind is Other {
                let warning = link_warning(path, error);
                first_name_faulty(fs, scan, warning);
                warning_traced(fs, top, scan, warning);
            }
        },
        (PhaseView::ReadSkill { path }, EventView::TextRead(Err(error))) => {
            let warning = skill_warning(path, unreadable(error));
            first_name_faulty(fs, scan, warning);
            warning_traced(fs, top, scan, warning);
        },
        (PhaseView::ParseSkill { path, .. }, EventView::Parsed(Err(reason))) => {
            let warning = skill_warning(path, reason);
            first_name_faulty(fs, scan, warning);
            warning_traced(fs, top, scan, warning);
        },
        (PhaseView::ResolveDir { path }, EventView::Canonicalized(canonical)) => {
            let found = (identity(path, canonical), current_depth(scan) + 1);
            let names = (fs.names)(dir)->Ok_0;
            let k = visible(names).len() - scan.names.len();
            assert(visible(names)[k] == scan.names[0]);
            assert(leads_to(fs, dir, visible(names)[k], found.0));
            assert(one_below(fs, scan.dirs[scan.taken - 1], found));
            assert(below_one_of(fs, scan.dirs, scan.dirs.len() as int, found));
            still_traced(fs, top, scan, found);
        },
        _ => {},
    }
}

/// Moving on leaves the skills where they were found.
proof fn moving_on_placed(fs: FileSystemView, scan: ScanView, places: Seq<int>)
    requires
        placed(fs, ScanView { phase: PhaseView::Join, ..scan }, places),
    ensures
        placed(fs, moved_on(scan), places),
{
    if scan.names.len() == 0 {
        assert(!scan.names.contains(SKILLS_FILENAME@));
    }
}

/// Passing a name leaves the skills where they were found.
proof fn passing_name_placed(fs: FileSystemView, scan: ScanView, places: Seq<int>)
    requires
        scan.names.len() > 0,
        placed(fs, ScanView { phase: PhaseView::Join, ..scan }, places),
    ensures
        placed(fs, passed_name(scan), places),
{
    let rest = scan.names.drop_first();
    if rest.contains(SKILLS_FILENAME@) {
        let i = rest.index_of(SKILLS_FILENAME@);
        assert(scan.names[i + 1] == SKILLS_FILENAME@);
    }
    moving_on_placed(fs, ScanView { names: rest, ..scan }, places);
}

/// Directories more leave the skills where they were found.
proof fn more_dirs_placed(
    fs: FileSystemView,
    dirs: Seq<(PathView, int)>,
    more: Seq<(PathView, int)>,
    skills: Seq<SkillView>,
    places: Seq<int>,
)
    requires
        dirs.is_prefix_of(more),
        found_in_turn(fs, dirs, skills, places),
    ensures
        found_in_turn(fs, more, skills, places),
{
    assert forall|s: int| #![trigger places[s]] 0 <= s < places.len() implies 0 <= places[s]
        < more.len() && holds_skill(fs, more[places[s]].0, skills[s]) by {
        assert(more[places[s]] == dirs[places[s]]);
    }
}

/// One more answer, and the skills still come from one directory each.
proof fn answer_placed(fs: FileSystemView, scan: ScanView, places: Seq<int>) -> (after: Seq<int>)
    requires
        names_differ(fs),
        scan_wf(scan),
        accounted_so_far(fs, scan),
        placed(fs, scan, places),
    ensures
        placed(fs, answered(fs, scan), after),
{
    match (scan.phase, answer(fs, scan_action(scan))) {
        (PhaseView::StatRoot { root }, EventView::Stated(Ok(metadata))) => {
            let found = ScanView { dirs: seq![(root, 0int)], ..scan };
            if metadata.is_directory {
                more_dirs_placed(fs, scan.dirs, found.dirs, scan.skills, places);
                moving_on_placed(fs, found, places);
            }
            places
        },
        (PhaseView::List, EventView::DirectoryRead(Ok(names))) => {
            moving_on_placed(fs, ScanView { names: visible(names), ..scan }, places);
            places
        },
        (PhaseView::List, EventView::DirectoryRead(Err(error))) => {
            moving_on_placed(
                fs,
                warned(scan, dir_warning(current_dir(scan), error)),
                places,
            );
            places
        },
        (PhaseView::ResolveDir { path }, EventView::Canonicalized(canonical)) => {
            let found = (identity(path, canonical), current_depth(scan) + 1);
            let more = ScanView { dirs: scan.dirs.push(found), ..scan };
            if known(scan.dirs, found.0.uri) {
                passing_name_placed(fs, scan, places);
            } else {
                more_dirs_placed(fs, scan.dirs, more.dirs, scan.skills, places);
                passing_name_placed(fs, more, places);
            }
            places
        },
        (PhaseView::ResolveSkill { path, parsed }, EventView::Canonicalized(canonical)) => {
            let skill = skill_of(identity(path, canonical), parsed);
            let more = places.push(scan.taken - 1);
            let names = (fs.names)(current_dir(scan))->Ok_0;
            assert(scan.names.contains(scan.names[0]));
            assert(visible(names)[visible(names).len() - scan.names.len()] == scan.names[0]);
            assert(holds_skill(fs, scan.dirs[scan.taken - 1].0, skill));
            let rest = scan.names.drop_first();
            if rest.contains(SKILLS_FILENAME@) {
                let i = rest.index_of(SKILLS_FILENAME@);
                let k = visible(names).len() - scan.names.len();
                assert(visible(names)[k] == scan.names[0]);
                assert(visible(names)[k + i + 1] == scan.names[i + 1]);
            }
            let kept = ScanView {
                names: rest,
                skills: scan.skills.push(skill),
                ..scan
            };
            assert forall|s: int| #![trigger more[s]] 0 <= s < more.len() implies 0 <= more[s]
                < scan.dirs.len() && holds_skill(fs, scan.dirs[more[s]].0, kept.skills[s]) by {
                if s < places.len() {
                    assert(more[s] == places[s]);
                    assert(kept.skills[s] == scan.skills[s]);
                }
            }
            assert forall|s: int, t: int|
                #![trigger more[s], more[t]]
                0 <= s < t < more.len() implies more[s] < more[t] by {
                assert(places[s] <= places.last());
                if t < places.len() {
                    assert(places[s] < places[t]);
                }
            }
            assert(found_in_turn(fs, scan.dirs, kept.skills, more));
            moving_on_placed(fs, kept, more);
            more
        },
        _ => places,
    }
}

/// What holds of a scan that is over, of where everything in it comes from.
proof fn scanned_traced(fs: FileSystemView, root: PathView, scan: ScanView)
    requires
        scan_wf(scan),
        accounted_so_far(fs, scan),
        traced(fs, root, scan),
    ensures
        traced(fs, root, scanned(fs, scan)),
    decreases dirs_to_go(scan), names_to_come(scan), scan.names.len(), questions_to_go(scan),
{
    if !(scan.phase is Done) {
        let event = answer(fs, scan_action(scan));
        scan_makes_progress(scan, event);
        scan_stays_in_order(scan, event);
        answer_accounts(fs, scan);
        answer_traced(fs, root, scan);
        scanned_traced(fs, root, answered(fs, scan));
    }
}

/// The directories that the skills of a scan that is over come from.
proof fn scanned_placed(fs: FileSystemView, scan: ScanView, places: Seq<int>) -> (after: Seq<int>)
    requires
        names_differ(fs),
        scan_wf(scan),
        accounted_so_far(fs, scan),
        placed(fs, scan, places),
    ensures
        placed(fs, scanned(fs, scan), after),
    decreases dirs_to_go(scan), names_to_come(scan), scan.names.len(), questions_to_go(scan),
{
    if scan.phase is Done {
        places
    } else {
        let event = answer(fs, scan_action(scan));
        scan_makes_progress(scan, event);
        scan_stays_in_order(scan, event);
        answer_accounts(fs, scan);
        let next = answer_placed(fs, scan, places);
        scanned_placed(fs, answered(fs, scan), next)
    }
}

/// The scan of a root, in a file system that stands still, finds only directories below the root: the
/// root itself, and what visible names and links lead to, step by step.
pub proof fn scan_stays_below_its_root(fs: FileSystemView, root: PathView)
    ensures
        dirs_below(fs, resolved(fs, root), scanned(fs, scan_start(root)).dirs),
{
    scanned_traced(fs, root, scan_start(root));
}

/// The scan of a root, in a file system that stands still, warns only of faults that it has met: of
/// the root, of a directory found, or of a visible name in one.
pub proof fn scan_warns_of_faults_only(fs: FileSystemView, root: PathView)
    ensures
        warnings_met(
            fs,
            resolved(fs, root),
            scanned(fs, scan_start(root)).dirs,
            scanned(fs, scan_start(root)).warnings,
        ),
{
    scanned_traced(fs, root, scan_start(root));
}

/// The scan of a root, in a file system that stands still and lists no name twice, takes at most one
/// skill from each directory, in the order in which directories are listed.
pub proof fn scan_takes_each_skill_once(fs: FileSystemView, root: PathView)
    requires
        names_differ(fs),
    ensures
        exists|places: Seq<int>|
            found_in_turn(
                fs,
                scanned(fs, scan_start(root)).dirs,
                scanned(fs, scan_start(root)).skills,
                places,
            ),
{
    let places = scanned_placed(fs, scan_start(root), Seq::empty());
    assert(found_in_turn(
        fs,
        scanned(fs, scan_start(root)).dirs,
        scanned(fs, scan_start(root)).skills,
        places,
    ));
}

/// Where, besides, the skill files of different directories have different paths, so have the skills
/// that were found.
pub proof fn scanned_skills_differ(fs: FileSystemView, root: PathView, s: int, t: int)
    requires
        names_differ(fs),
        skill_paths_differ(fs),
        0 <= s < t < scanned(fs, scan_start(root)).skills.len(),
    ensures
        scanned(fs, scan_start(root)).skills[s].path.uri != scanned(
            fs,
            scan_start(root),
        ).skills[t].path.uri,
{
    let end = scanned(fs, scan_start(root));
    scan_takes_each_skill_once(fs, root);
    root_is_scanned(fs, root);
    let places = choose|places: Seq<int>| found_in_turn(fs, end.dirs, end.skills, places);
    assert(places[s] < places[t]);
    let a = end.dirs[places[s]];
    let b = end.dirs[places[t]];
    assert(a.0.uri != b.0.uri);
    assert((fs.join)(a.0, SKILLS_FILENAME@) is Ok && (fs.join)(b.0, SKILLS_FILENAME@) is Ok);
}

// What a scan finds, said of the file system alone.

/// Names that begin with a dot are passed over. All others are kept, in order.
pub proof fn only_dotted_names_are_hidden(names: Seq<Seq<char>>, name: Seq<char>)
    ensures
        visible(Seq::empty()) == Seq::<Seq<char>>::empty(),
        visible(names.push(name)) == if name.len() > 0 && name[0] == '.' {
            visible(names)
        } else {
            visible(names).push(name)
        },
{
    reveal(Seq::filter);
    assert(names.push(name).drop_last() =~= names);
}

/// A name that does not begin with a dot is among the visible ones.
proof fn undotted_name_is_visible(names: Seq<Seq<char>>, name: Seq<char>)
    requires
        names.contains(name),
        !(name.len() > 0 && name[0] == '.'),
    ensures
        visible(names).contains(name),
{
    broadcast use vstd::seq_lib::group_filter_ensures;

    let kept = |name: Seq<char>| !hidden(name);
    let k = names.index_of(name);
    assert(kept(names[k]));
    assert(names.filter(kept).contains(names[k]));
}

/// A visible name is one of the names, and does not begin with a dot.
proof fn visible_name_is_undotted(names: Seq<Seq<char>>, k: int)
    requires
        0 <= k < visible(names).len(),
    ensures
        names.contains(visible(names)[k]),
        !(visible(names)[k].len() > 0 && visible(names)[k][0] == '.'),
    decreases names.len(),
{
    reveal(Seq::filter);
    if names.len() > 0 {
        let fewer = names.drop_last();
        only_dotted_names_are_hidden(fewer, names.last());
        assert(fewer.push(names.last()) =~= names);
        if k < visible(fewer).len() {
            visible_name_is_undotted(fewer, k);
            let i = fewer.index_of(visible(fewer)[k]);
            assert(names[i] == visible(names)[k]);
        } else {
            assert(names[names.len() - 1] == visible(names)[k]);
        }
    }
}

/// The scan of a root begins at its canonical form, or at the root itself where it has none. If that
/// is a directory, it is the first one found, at depth zero. If it is none, or is not there, nothing
/// is found and nothing is said. Any other error is the one warning, with the path and the reason.
pub proof fn scan_begins_at_its_root(fs: FileSystemView, root: PathView)
    ensures
        ({
            let end = scanned(fs, scan_start(root));
            let top = match (fs.canonical)(root) {
                Some(canonical) => canonical,
                None => root,
            };
            match (fs.metadata)(top) {
                Ok(metadata) => if metadata.is_directory {
                    end.dirs.len() > 0 && end.dirs[0] == (top, 0int)
                } else {
                    end.dirs.len() == 0 && end.skills.len() == 0 && end.warnings.len() == 0
                },
                Err(error) => {
                    &&& end.dirs.len() == 0
                    &&& end.skills.len() == 0
                    &&& end.warnings == if error.kind is NotFound {
                        Seq::empty()
                    } else {
                        seq![
                            "Failed to load executor skills at "@ + top.uri + ": "@ + error.message,
                        ]
                    }
                },
            }
        }),
{
    root_is_scanned(fs, root);
    if !leads_to_dir(fs, resolved(fs, root)) {
        missing_root_is_no_fault(fs, root);
        let start = scan_start(root);
        let stated = answered(fs, start);
        scan_stays_in_order(start, answer(fs, scan_action(start)));
        scan_stays_in_order(stated, answer(fs, scan_action(stated)));
        reveal_with_fuel(scanned, 3);
        assert(answered(fs, stated).phase is Done);
        assert(scanned(fs, start).dirs.len() == 0);
    }
}

/// Every skill that the scan of a root lists is what a skill file says: a plain file that one of the
/// directories found lists as `SKILL.md`, whose text was parsed with the name of its directory to fall back
/// on. The skill has the name, the description and the short description that the parser gave, and
/// the canonical path of the file.
pub proof fn listed_skills_say_what_their_files_say(
    fs: FileSystemView,
    root: PathView,
    s: int,
) -> (origin: (int, PathView, Seq<char>, FrontmatterView))
    requires
        0 <= s < scanned(fs, scan_start(root)).skills.len(),
    ensures
        ({
            let end = scanned(fs, scan_start(root));
            let skill = end.skills[s];
            let (at, path, contents, parsed) = origin;
            &&& 0 <= at < end.dirs.len()
            &&& (fs.names)(end.dirs[at].0) is Ok
            &&& (fs.names)(end.dirs[at].0)->Ok_0.contains("SKILL.md"@)
            &&& (fs.join)(end.dirs[at].0, "SKILL.md"@) == Ok::<PathView, Seq<char>>(path)
            &&& (fs.metadata)(path) is Ok
            &&& (fs.metadata)(path)->Ok_0.is_file
            &&& !(fs.metadata)(path)->Ok_0.is_directory
            &&& !(fs.metadata)(path)->Ok_0.is_symlink
            &&& (fs.text)(path) == Ok::<Seq<char>, FileErrorView>(contents)
            &&& (fs.parse)(
                contents,
                match path.parent_name {
                    Some(name) if name.len() > 0 => name,
                    _ => "skill"@,
                },
            ) == Ok::<FrontmatterView, Seq<char>>(parsed)
            &&& skill.name == parsed.name
            &&& skill.description == parsed.description
            &&& skill.short_description == parsed.short_description
            &&& skill.path == match (fs.canonical)(path) {
                Some(canonical) => canonical,
                None => path,
            }
        }),
{
    let end = scanned(fs, scan_start(root));
    scan_makes_nothing_up(fs, root);
    let skill = end.skills[s];
    assert(held_in(fs, end.dirs, skill));
    let at = choose|i: int|
        0 <= i < end.dirs.len() && holds_skill(fs, (#[trigger] end.dirs[i]).0, skill);
    let path = (fs.join)(end.dirs[at].0, SKILLS_FILENAME@)->Ok_0;
    let contents = (fs.text)(path)->Ok_0;
    let parsed = (fs.parse)(contents, default_name(path))->Ok_0;
    let names = (fs.names)(end.dirs[at].0)->Ok_0;
    visible_name_is_undotted(names, visible(names).index_of(SKILLS_FILENAME@));
    (at, path, contents, parsed)
}

/// Every skill file that can be read is listed: where a directory that was found lists the name
/// `SKILL.md`, this is a plain file and its text parses, there is a skill with the name, the
/// description and the short description that the parser gave, and with the canonical path of the
/// file.
pub proof fn readable_skill_files_are_listed(
    fs: FileSystemView,
    root: PathView,
    at: int,
    path: PathView,
    contents: Seq<char>,
    parsed: FrontmatterView,
) -> (s: int)
    requires
        0 <= at < scanned(fs, scan_start(root)).dirs.len(),
        (fs.names)(scanned(fs, scan_start(root)).dirs[at].0) is Ok,
        (fs.names)(scanned(fs, scan_start(root)).dirs[at].0)->Ok_0.contains("SKILL.md"@),
        (fs.join)(scanned(fs, scan_start(root)).dirs[at].0, "SKILL.md"@) == Ok::<
            PathView,
            Seq<char>,
        >(path),
        (fs.metadata)(path) is Ok,
        (fs.metadata)(path)->Ok_0.is_file,
        !(fs.metadata)(path)->Ok_0.is_directory,
        !(fs.metadata)(path)->Ok_0.is_symlink,
        (fs.text)(path) == Ok::<Seq<char>, FileErrorView>(contents),
        (fs.parse)(
            contents,
            match path.parent_name {
                Some(name) if name.len() > 0 => name,
                _ => "skill"@,
            },
        ) == Ok::<FrontmatterView, Seq<char>>(parsed),
    ensures
        ({
            let skills = scanned(fs, scan_start(root)).skills;
            &&& 0 <= s < skills.len()
            &&& skills[s].name == parsed.name
            &&& skills[s].description == parsed.description
            &&& skills[s].short_description == parsed.short_description
            &&& skills[s].path == match (fs.canonical)(path) {
                Some(canonical) => canonical,
                None => path,
            }
        }),
{
    let end = scanned(fs, scan_start(root));
    let names = (fs.names)(end.dirs[at].0)->Ok_0;
    scan_leaves_nothing_out(fs, root);
    reveal_strlit("SKILL.md");
    undotted_name_is_visible(names, "SKILL.md"@);
    assert(contents_accounted(fs, end, end.dirs[at]));
    let k = visible(names).index_of("SKILL.md"@);
    assert(name_accounted(fs, end, end.dirs[at], visible(names)[k]));
    assert(skill_accounted(fs, end, path));
    end.skills.index_of(skill_of(resolved(fs, path), parsed))
}

/// What a name that does not begin with a dot leads to in a directory that was found, itself or as a
/// link, is found too if it is a directory, by its canonical path. Only six steps below the root, or
/// after two thousand directories, may it be missing.
pub proof fn directories_below_are_found(
    fs: FileSystemView,
    root: PathView,
    at: int,
    name: Seq<char>,
    path: PathView,
) -> (found: int)
    requires
        0 <= at < scanned(fs, scan_start(root)).dirs.len(),
        scanned(fs, scan_start(root)).dirs[at].1 < 6,
        (fs.names)(scanned(fs, scan_start(root)).dirs[at].0) is Ok,
        (fs.names)(scanned(fs, scan_start(root)).dirs[at].0)->Ok_0.contains(name),
        !(name.len() > 0 && name[0] == '.'),
        (fs.join)(scanned(fs, scan_start(root)).dirs[at].0, name) == Ok::<PathView, Seq<char>>(
            path,
        ),
        (fs.metadata)(path) is Ok,
        if (fs.metadata)(path)->Ok_0.is_symlink {
            (fs.names)(path) is Ok
        } else {
            (fs.metadata)(path)->Ok_0.is_directory
        },
    ensures
        ({
            let end = scanned(fs, scan_start(root));
            ||| end.truncated && end.dirs.len() == 2000
            ||| 0 <= found < end.dirs.len() && end.dirs[found].0.uri == (match (fs.canonical)(
                path,
            ) {
                Some(canonical) => canonical,
                None => path,
            }).uri
        }),
{
    let end = scanned(fs, scan_start(root));
    let names = (fs.names)(end.dirs[at].0)->Ok_0;
    scan_leaves_nothing_out(fs, root);
    scan_keeps_its_limits(fs, root);
    undotted_name_is_visible(names, name);
    assert(contents_accounted(fs, end, end.dirs[at]));
    let k = visible(names).index_of(name);
    assert(name_accounted(fs, end, end.dirs[at], visible(names)[k]));
    if end.truncated {
        0
    } else {
        choose|i: int|
            0 <= i < end.dirs.len() && (#[trigger] end.dirs[i]).0.uri == resolved(fs, path).uri
    }
}

/// Every directory found but the root stands one step below an earlier one: a name in it that does not
/// begin with a dot leads there, itself or as a link. None is more than six steps below the root, and
/// there are at most two thousand.
pub proof fn found_directories_stand_below_earlier_ones(
    fs: FileSystemView,
    root: PathView,
    i: int,
) -> (origin: (int, Seq<char>, PathView))
    requires
        0 < i < scanned(fs, scan_start(root)).dirs.len(),
    ensures
        ({
            let dirs = scanned(fs, scan_start(root)).dirs;
            let (above, name, path) = origin;
            &&& dirs.len() <= 2000
            &&& 0 <= above < i
            &&& dirs[i].1 == dirs[above].1 + 1
            &&& dirs[i].1 <= 6
            &&& (fs.names)(dirs[above].0) is Ok
            &&& (fs.names)(dirs[above].0)->Ok_0.contains(name)
            &&& !(name.len() > 0 && name[0] == '.')
            &&& (fs.join)(dirs[above].0, name) == Ok::<PathView, Seq<char>>(path)
            &&& (fs.metadata)(path) is Ok
            &&& if (fs.metadata)(path)->Ok_0.is_symlink {
                (fs.names)(path) is Ok
            } else {
                (fs.metadata)(path)->Ok_0.is_directory
            }
            &&& dirs[i].0 == match (fs.canonical)(path) {
                Some(canonical) => canonical,
                None => path,
            }
        }),
{
    let dirs = scanned(fs, scan_start(root)).dirs;
    scan_stays_below_its_root(fs, root);
    scan_keeps_its_limits(fs, root);
    assert(below_one_of(fs, dirs, i, dirs[i]));
    let above = choose|j: int| 0 <= j < i && one_below(fs, #[trigger] dirs[j], dirs[i]);
    let names = (fs.names)(dirs[above].0)->Ok_0;
    let k = choose|k: int|
        0 <= k < visible(names).len() && leads_to(
            fs,
            dirs[above].0,
            #[trigger] visible(names)[k],
            dirs[i].0,
        );
    visible_name_is_undotted(names, k);
    let name = visible(names)[k];
    (above, name, (fs.join)(dirs[above].0, name)->Ok_0)
}

/// A directory that was found and cannot be listed is warned of, with its path and the reason.
pub proof fn unlisted_directories_are_warned_of(
    fs: FileSystemView,
    root: PathView,
    at: int,
    error: FileErrorView,
)
    requires
        0 <= at < scanned(fs, scan_start(root)).dirs.len(),
        (fs.names)(scanned(fs, scan_start(root)).dirs[at].0) == Err::<
            Seq<Seq<char>>,
            FileErrorView,
        >(error),
    ensures
        scanned(fs, scan_start(root)).warnings.contains(
            "Failed to read executor skills dir "@ + scanned(fs, scan_start(root)).dirs[at].0.uri
                + ": "@ + error.message,
        ),
{
    let end = scanned(fs, scan_start(root));
    scan_leaves_nothing_out(fs, root);
    assert(contents_accounted(fs, end, end.dirs[at]));
}

/// A name that does not begin with a dot, in a directory that was found, is warned of with its path
/// and the reason if it cannot be joined or looked at, if it is a link that leads to neither a missing
/// path nor a file and yet cannot be listed, or if it is a skill file that cannot be read or parsed.
pub proof fn faulty_names_are_warned_of(fs: FileSystemView, root: PathView, at: int, name: Seq<char>)
    requires
        0 <= at < scanned(fs, scan_start(root)).dirs.len(),
        (fs.names)(scanned(fs, scan_start(root)).dirs[at].0) is Ok,
        (fs.names)(scanned(fs, scan_start(root)).dirs[at].0)->Ok_0.contains(name),
        !(name.len() > 0 && name[0] == '.'),
    ensures
        ({
            let end = scanned(fs, scan_start(root));
            let dir = end.dirs[at].0;
            match (fs.join)(dir, name) {
                Err(reason) => end.warnings.contains(
                    "Failed to resolve executor skill path "@ + dir.uri + "/"@ + name + ": "@
                        + reason,
                ),
                Ok(path) => match (fs.metadata)(path) {
                    Err(error) => end.warnings.contains(
                        "Failed to stat executor skill path "@ + path.uri + ": "@ + error.message,
                    ),
                    Ok(metadata) => if metadata.is_symlink {
                        match (fs.names)(path) {
                            Err(error) => error.kind is Other ==> end.warnings.contains(
                                "Failed to read executor symlink dir "@ + path.uri + ": "@
                                    + error.message,
                            ),
                            Ok(_) => true,
                        }
                    } else if metadata.is_file && !metadata.is_directory && name == "SKILL.md"@ {
                        match (fs.text)(path) {
                            Err(error) => end.warnings.contains(
                                "Failed to load executor skill at "@ + path.uri + ": "@ + (
                                "failed to read file: "@ + error.message),
                            ),
                            Ok(contents) => match (fs.parse)(
                                contents,
                                match path.parent_name {
                                    Some(name) if name.len() > 0 => name,
                                    _ => "skill"@,
                                },
                            ) {
                                Err(reason) => end.warnings.contains(
                                    "Failed to load executor skill at "@ + path.uri + ": "@
                                        + reason,
                                ),
                                Ok(_) => true,
                            },
                        }
                    } else {
                        true
                    },
                },
            }
        }),
{
    let end = scanned(fs, scan_start(root));
    let names = (fs.names)(end.dirs[at].0)->Ok_0;
    scan_leaves_nothing_out(fs, root);
    undotted_name_is_visible(names, name);
    assert(contents_accounted(fs, end, end.dirs[at]));
    let k = visible(names).index_of(name);
    assert(name_accounted(fs, end, end.dirs[at], visible(names)[k]));
}

/// One answer brings at most one directory, one skill and one warning, and an answer to something
/// that was not asked brings nothing.
pub proof fn answers_bring_one_thing_at_a_time(scan: ScanView, event: EventView)
    requires
        scan_wf(scan),
    ensures
        scan_next(scan, event).dirs.len() <= scan.dirs.len() + 1,
        scan_next(scan, event).skills.len() <= scan.skills.len() + 1,
        scan_next(scan, event).warnings.len() <= scan.warnings.len() + 1,
        !fits(scan, event) ==> scan_next(scan, event) == scan,
{
}

/// Where the root is a directory, every warning tells of a fault: that a directory found cannot be
/// listed, or that a name in one which does not begin with a dot cannot be joined or looked at, is a link
/// that cannot be listed though it leads to neither a missing path nor a file, or is a skill file that
/// cannot be read or parsed. It names the path and the reason.
pub proof fn warnings_tell_of_faults(fs: FileSystemView, root: PathView, w: int) -> (origin: (
    int,
    Seq<char>,
))
    requires
        scanned(fs, scan_start(root)).dirs.len() > 0,
        0 <= w < scanned(fs, scan_start(root)).warnings.len(),
    ensures
        ({
            let end = scanned(fs, scan_start(root));
            let warning = end.warnings[w];
            let (at, name) = origin;
            let dir = end.dirs[at].0;
            &&& 0 <= at < end.dirs.len()
            &&& match (fs.names)(dir) {
                Err(error) => warning == "Failed to read executor skills dir "@ + dir.uri + ": "@
                    + error.message,
                Ok(names) => {
                    &&& names.contains(name)
                    &&& !(name.len() > 0 && name[0] == '.')
                    &&& match (fs.join)(dir, name) {
                        Err(reason) => warning == "Failed to resolve executor skill path "@
                            + dir.uri + "/"@ + name + ": "@ + reason,
                        Ok(path) => match (fs.metadata)(path) {
                            Err(error) => warning == "Failed to stat executor skill path "@
                                + path.uri + ": "@ + error.message,
                            Ok(metadata) => if metadata.is_symlink {
                                match (fs.names)(path) {
                                    Err(error) => error.kind is Other && warning
                                        == "Failed to read executor symlink dir "@ + path.uri
                                        + ": "@ + error.message,
                                    Ok(_) => false,
                                }
                            } else {
                                &&& metadata.is_file && !metadata.is_directory
                                &&& name == "SKILL.md"@
                                &&& match (fs.text)(path) {
                                    Err(error) => warning == "Failed to load executor skill at "@
                                        + path.uri + ": "@ + ("failed to read file: "@
                                        + error.message),
                                    Ok(contents) => match (fs.parse)(
                                        contents,
                                        match path.parent_name {
                                            Some(name) if name.len() > 0 => name,
                                            _ => "skill"@,
                                        },
                                    ) {
                                        Err(reason) => warning
                                            == "Failed to load executor skill at "@ + path.uri
                                            + ": "@ + reason,
                                        Ok(_) => false,
                                    },
                                }
                            },
                        },
                    }
                },
            }
        }),
{
    let end = scanned(fs, scan_start(root));
    let warning = end.warnings[w];
    scan_begins_at_its_root(fs, root);
    scan_warns_of_faults_only(fs, root);
    assert(fault_met(fs, resolved(fs, root), end.dirs, warning));
    let at = choose|i: int|
        0 <= i < end.dirs.len() && fault_in(fs, (#[trigger] end.dirs[i]).0, warning);
    let dir = end.dirs[at].0;
    match (fs.names)(dir) {
        Err(_) => (at, Seq::empty()),
        Ok(names) => {
            let k = choose|k: int|
                0 <= k < visible(names).len() && name_fault(
                    fs,
                    dir,
                    #[trigger] visible(names)[k],
                    warning,
                );
            visible_name_is_undotted(names, k);
            (at, visible(names)[k])
        },
    }
}

}
