use std::collections::HashMap;
use std::sync::Arc;

use codex_runtime::skill_catalog::{
    catalog_entry_from_skill, default_skill_name, EnvironmentPath, ExecutorSkill,
    ExecutorSkillLoadOutcome, ExecutorSkillProvider, PathUri, Product, SelectedRootLoad,
    SkillAuthority, SkillPackageId, SkillReadReply, SkillReadRequest, SkillReadResult,
    SkillResourceId, SkillSourceKind,
};
use codex_runtime::skill_scan::{
    FileError, FileErrorKind, FileMetadata, ParsedSkillFrontmatter, ScanAction, ScanEvent,
    SkillScan,
};

fn path(text: &str) -> PathUri {
    let parent = text.rsplit_once('/').map(|(parent, _)| parent);
    PathUri {
        uri: format!("file://{text}"),
        native_path: text.to_string(),
        parent_name: parent
            .and_then(|parent| parent.rsplit_once('/'))
            .map(|(_, name)| name.to_string()),
    }
}

fn skill(text: &str, name: &str) -> ExecutorSkill {
    ExecutorSkill {
        path: path(text),
        name: name.to_string(),
        description: format!("about {name}"),
        short_description: Some(name.to_string()),
    }
}

fn provider() -> ExecutorSkillProvider<u64> {
    ExecutorSkillProvider::new_with_restriction_product(Arc::new(5), None)
}

fn authority(root: &str) -> SkillAuthority {
    SkillAuthority { kind: SkillSourceKind::Executor, id: root.to_string() }
}

#[test]
fn providers_keep_their_manager_and_product() {
    let provider = ExecutorSkillProvider::new_with_restriction_product(
        Arc::new(5),
        Some(Product("codex".to_string())),
    );
    assert_eq!(*provider.environment_manager, 5);
    assert_eq!(provider.restriction_product, Some(Product("codex".to_string())));
    assert_eq!(provider.search().entries.len(), 0);
}

#[test]
fn a_skill_without_a_name_has_that_of_its_directory() {
    assert_eq!(default_skill_name(&path("/skills/deploy/SKILL.md")), "deploy");
    assert_eq!(default_skill_name(&path("/SKILL.md")), "skill");
    let mut odd = path("/x/SKILL.md");
    odd.parent_name = Some(String::new());
    assert_eq!(default_skill_name(&odd), "skill");
}

#[test]
fn skills_are_shown_below_their_root() {
    let entry = catalog_entry_from_skill(
        &skill("//skills/deploy/SKILL.md", "deploy"),
        authority("root-1"),
        "root-1",
        "env",
    );
    let shown = "skill://root-1/skills/deploy/SKILL.md".to_string();
    assert_eq!(entry.package, SkillPackageId(shown.clone()));
    assert_eq!(entry.authority, authority("root-1"));
    assert_eq!(entry.name, "deploy");
    assert_eq!(entry.description, "about deploy");
    assert_eq!(entry.short_description, Some("deploy".to_string()));
    assert_eq!(entry.display_path, Some(shown.clone()));
    assert_eq!(
        entry.resource,
        SkillResourceId {
            text: shown,
            environment: Some(EnvironmentPath {
                environment_id: "env".to_string(),
                path: path("//skills/deploy/SKILL.md"),
            }),
        }
    );
}

#[test]
fn windows_paths_are_shown_with_slashes() {
    let mut windows = skill("/x/SKILL.md", "x");
    windows.path.native_path = "C:\\skills\\x\\SKILL.md".to_string();
    let entry = catalog_entry_from_skill(&windows, authority("r"), "r", "env");
    assert_eq!(entry.display_path, Some("skill://r/C:/skills/x/SKILL.md".to_string()));
    windows.path.native_path = "\\\\host\\x".to_string();
    let entry = catalog_entry_from_skill(&windows, authority("r"), "r", "env");
    assert_eq!(entry.display_path, Some("skill://r/host/x".to_string()));
}

#[test]
fn the_catalog_lists_the_roots_in_order() {
    let catalog = provider().list(vec![
        SelectedRootLoad {
            id: "one".to_string(),
            environment_id: "env".to_string(),
            outcome: Some(ExecutorSkillLoadOutcome {
                skills: vec![skill("/a/SKILL.md", "a"), skill("/b/SKILL.md", "b")],
                warnings: vec!["w1".to_string()],
            }),
        },
        SelectedRootLoad {
            id: "two".to_string(),
            environment_id: "gone".to_string(),
            outcome: None,
        },
        SelectedRootLoad {
            id: "three".to_string(),
            environment_id: "env".to_string(),
            outcome: Some(ExecutorSkillLoadOutcome {
                skills: vec![skill("/c/SKILL.md", "c")],
                warnings: vec![],
            }),
        },
    ]);
    let names: Vec<&str> = catalog.entries.iter().map(|entry| entry.name.as_str()).collect();
    assert_eq!(names, vec!["a", "b", "c"]);
    let authorities: Vec<&str> =
        catalog.entries.iter().map(|entry| entry.authority.id.as_str()).collect();
    assert_eq!(authorities, vec!["one", "one", "three"]);
    assert_eq!(
        catalog.warnings,
        vec![
            "w1".to_string(),
            "Selected capability root `two` references unavailable environment `gone`.".to_string(),
        ]
    );
    assert_eq!(provider().list(vec![]).entries, vec![]);
}

fn request(kind: SkillSourceKind, package: &str, bound: bool) -> SkillReadRequest {
    SkillReadRequest {
        authority: SkillAuthority { kind, id: "one".to_string() },
        package: SkillPackageId(package.to_string()),
        resource: SkillResourceId {
            text: "skill://one/a".to_string(),
            environment: if bound {
                Some(EnvironmentPath { environment_id: "env".to_string(), path: path("/a") })
            } else {
                None
            },
        },
    }
}

fn refusal(request: SkillReadRequest) -> String {
    provider().read(request, SkillReadReply::Read(Ok("text".to_string()))).unwrap_err().message
}

#[test]
fn requests_that_are_not_for_executor_skills_are_refused() {
    assert_eq!(
        refusal(request(SkillSourceKind::Other("host".to_string()), "skill://one/a", true)),
        "executor skill provider cannot read host resources"
    );
    assert_eq!(
        refusal(request(SkillSourceKind::Executor, "skill://one/b", true)),
        "executor skill resource does not match its package"
    );
    assert_eq!(
        refusal(request(SkillSourceKind::Executor, "skill://one/a", false)),
        "executor skill resource is not bound to an environment"
    );
}

#[test]
fn requests_are_answered_with_what_was_read() {
    let fine = || request(SkillSourceKind::Executor, "skill://one/a", true);
    let target = provider().read_target(&fine()).unwrap();
    assert_eq!(target, EnvironmentPath { environment_id: "env".to_string(), path: path("/a") });
    assert_eq!(
        provider().read(fine(), SkillReadReply::Read(Ok("text".to_string()))),
        Ok(SkillReadResult { resource: fine().resource, contents: "text".to_string() })
    );
    assert_eq!(
        provider().read(fine(), SkillReadReply::EnvironmentUnavailable).unwrap_err().message,
        "executor skill resource references unavailable environment `env`"
    );
    assert_eq!(
        provider()
            .read(fine(), SkillReadReply::Read(Err("gone".to_string())))
            .unwrap_err()
            .message,
        "failed to read executor skill resource skill://one/a: gone"
    );
}

#[test]
fn a_listed_skill_can_be_read() {
    let entry = catalog_entry_from_skill(&skill("/a/SKILL.md", "a"), authority("one"), "one", "env");
    let request = SkillReadRequest {
        authority: entry.authority,
        package: entry.package,
        resource: entry.resource,
    };
    assert_eq!(
        provider().read_target(&request),
        Ok(EnvironmentPath { environment_id: "env".to_string(), path: path("/a/SKILL.md") })
    );
}

/// A file system of directories, files and links.
enum Node {
    Dir(Vec<&'static str>),
    File(&'static str),
    Link(&'static str),
    Locked,
}

struct Tree(HashMap<String, Node>);

impl Tree {
    fn new(nodes: Vec<(&str, Node)>) -> Tree {
        Tree(nodes.into_iter().map(|(name, node)| (name.to_string(), node)).collect())
    }

    fn follow(&self, path: &str) -> String {
        match self.0.get(path) {
            Some(Node::Link(target)) => self.follow(target),
            _ => path.to_string(),
        }
    }

    fn missing(path: &str) -> FileError {
        FileError { kind: FileErrorKind::NotFound, message: format!("no {path}") }
    }

    fn answer(&self, action: ScanAction) -> Option<ScanEvent> {
        Some(match action {
            ScanAction::Canonicalize { path: asked } => ScanEvent::Canonicalized(
                self.0
                    .contains_key(&self.follow(&asked.native_path))
                    .then(|| path(&self.follow(&asked.native_path))),
            ),
            ScanAction::Stat { path } => ScanEvent::Stated(match self.0.get(&path.native_path) {
                None => Err(Tree::missing(&path.native_path)),
                Some(Node::Locked) => Err(FileError {
                    kind: FileErrorKind::Other,
                    message: "denied".to_string(),
                }),
                Some(node) => Ok(FileMetadata {
                    is_directory: matches!(node, Node::Dir(_)),
                    is_file: matches!(node, Node::File(_)),
                    is_symlink: matches!(node, Node::Link(_)),
                }),
            }),
            ScanAction::ReadDirectory { path } => {
                let target = self.follow(&path.native_path);
                ScanEvent::DirectoryRead(match self.0.get(&target) {
                    Some(Node::Dir(names)) => {
                        Ok(names.iter().map(|name| name.to_string()).collect())
                    }
                    None => Err(Tree::missing(&target)),
                    Some(Node::Locked) => Err(FileError {
                        kind: FileErrorKind::Other,
                        message: "denied".to_string(),
                    }),
                    Some(_) => Err(FileError {
                        kind: FileErrorKind::NotADirectory,
                        message: "not a directory".to_string(),
                    }),
                })
            }
            ScanAction::Join { dir, name } => ScanEvent::Joined(if name == "odd" {
                Err("odd name".to_string())
            } else {
                Ok(path(&format!("{}/{name}", dir.native_path)))
            }),
            ScanAction::ReadText { path } => {
                ScanEvent::TextRead(match self.0.get(&path.native_path) {
                    Some(Node::File("unreadable")) => Err(FileError {
                        kind: FileErrorKind::Other,
                        message: "io".to_string(),
                    }),
                    Some(Node::File(text)) => Ok(text.to_string()),
                    _ => Err(Tree::missing(&path.native_path)),
                })
            }
            ScanAction::Parse { contents, default_name } => {
                ScanEvent::Parsed(if contents == "broken" {
                    Err("missing frontmatter".to_string())
                } else {
                    Ok(ParsedSkillFrontmatter {
                        name: if contents.is_empty() { default_name } else { contents },
                        description: "d".to_string(),
                        short_description: None,
                    })
                })
            }
            ScanAction::Finished => return None,
        })
    }

    fn scan(&self, root: &str) -> (ExecutorSkillLoadOutcome, bool) {
        let mut scan = SkillScan::new(path(root));
        while let Some(event) = self.answer(scan.action()) {
            scan.step(event);
        }
        assert!(scan.is_finished());
        let truncated = scan.truncated_by_dir_limit();
        (scan.into_outcome(), truncated)
    }
}

fn found(outcome: &ExecutorSkillLoadOutcome) -> Vec<(&str, &str)> {
    outcome
        .skills
        .iter()
        .map(|skill| (skill.path.native_path.as_str(), skill.name.as_str()))
        .collect()
}

#[test]
fn skills_are_found_breadth_first() {
    let tree = Tree::new(vec![
        ("/r", Node::Dir(vec!["a", ".hidden", "SKILL.md", "b", "notes.md"])),
        ("/r/a", Node::Dir(vec!["deep"])),
        ("/r/a/deep", Node::Dir(vec!["SKILL.md"])),
        ("/r/a/deep/SKILL.md", Node::File("deep skill")),
        ("/r/.hidden", Node::Dir(vec!["SKILL.md"])),
        ("/r/.hidden/SKILL.md", Node::File("hidden")),
        ("/r/SKILL.md", Node::File("root skill")),
        ("/r/b", Node::Dir(vec!["SKILL.md"])),
        ("/r/b/SKILL.md", Node::File("")),
        ("/r/notes.md", Node::File("notes")),
    ]);
    let (outcome, truncated) = tree.scan("/r");
    assert_eq!(
        found(&outcome),
        vec![
            ("/r/SKILL.md", "root skill"),
            ("/r/b/SKILL.md", "b"),
            ("/r/a/deep/SKILL.md", "deep skill"),
        ]
    );
    assert_eq!(outcome.warnings, Vec::<String>::new());
    assert!(!truncated);
}

#[test]
fn a_directory_that_is_reached_twice_is_listed_once() {
    let tree = Tree::new(vec![
        ("/r", Node::Dir(vec!["a", "loop", "again", "dangling", "file"])),
        ("/r/a", Node::Dir(vec!["SKILL.md", "up"])),
        ("/r/a/SKILL.md", Node::File("a")),
        ("/r/a/up", Node::Link("/r")),
        ("/r/loop", Node::Link("/r")),
        ("/r/again", Node::Link("/r/a")),
        ("/r/dangling", Node::Link("/nowhere")),
        ("/r/file", Node::Link("/r/a/SKILL.md")),
    ]);
    let (outcome, _) = tree.scan("/r");
    assert_eq!(found(&outcome), vec![("/r/a/SKILL.md", "a")]);
    assert_eq!(outcome.warnings, Vec::<String>::new());
}

#[test]
fn what_cannot_be_looked_at_is_reported() {
    let tree = Tree::new(vec![
        ("/r", Node::Dir(vec!["odd", "locked", "gone", "link", "bad", "worse"])),
        ("/r/locked", Node::Locked),
        ("/r/link", Node::Link("/r/locked")),
        ("/r/bad", Node::Dir(vec!["SKILL.md"])),
        ("/r/bad/SKILL.md", Node::File("broken")),
        ("/r/worse", Node::Dir(vec!["SKILL.md"])),
        ("/r/worse/SKILL.md", Node::File("unreadable")),
    ]);
    let (outcome, _) = tree.scan("/r");
    assert_eq!(found(&outcome), vec![]);
    assert_eq!(
        outcome.warnings,
        vec![
            "Failed to resolve executor skill path file:///r/odd: odd name".to_string(),
            "Failed to stat executor skill path file:///r/locked: denied".to_string(),
            "Failed to stat executor skill path file:///r/gone: no /r/gone".to_string(),
            "Failed to read executor symlink dir file:///r/link: denied".to_string(),
            "Failed to load executor skill at file:///r/bad/SKILL.md: missing frontmatter".to_string(),
            "Failed to load executor skill at file:///r/worse/SKILL.md: failed to read file: io".to_string(),
        ]
    );
}

#[test]
fn roots_that_are_no_directory_have_no_skills() {
    let tree = Tree::new(vec![("/file", Node::File("x")), ("/locked", Node::Locked)]);
    let empty = ExecutorSkillLoadOutcome { skills: vec![], warnings: vec![] };
    assert_eq!(tree.scan("/file").0, empty);
    assert_eq!(tree.scan("/missing").0, empty);
    assert_eq!(
        tree.scan("/locked").0.warnings,
        vec!["Failed to load executor skills at file:///locked: denied".to_string()]
    );
}

#[test]
fn a_directory_that_cannot_be_listed_is_reported() {
    let mut scan = SkillScan::new(path("/r"));
    scan.step(ScanEvent::Canonicalized(None));
    assert_eq!(scan.root(), None);
    assert_eq!(scan.action(), ScanAction::Stat { path: path("/r") });
    scan.step(ScanEvent::Stated(Ok(FileMetadata {
        is_directory: true,
        is_file: false,
        is_symlink: false,
    })));
    assert_eq!(scan.root(), Some(&path("/r")));
    assert_eq!(scan.action(), ScanAction::ReadDirectory { path: path("/r") });
    scan.step(ScanEvent::DirectoryRead(Err(FileError {
        kind: FileErrorKind::NotFound,
        message: "gone".to_string(),
    })));
    assert!(scan.is_finished());
    assert_eq!(scan.action(), ScanAction::Finished);
    assert_eq!(
        scan.into_outcome().warnings,
        vec!["Failed to read executor skills dir file:///r: gone".to_string()]
    );
}

#[test]
fn answers_to_something_else_change_nothing() {
    let mut scan = SkillScan::new(path("/r"));
    scan.step(ScanEvent::TextRead(Ok("x".to_string())));
    assert_eq!(scan.action(), ScanAction::Canonicalize { path: path("/r") });
}

#[test]
fn directories_below_the_depth_limit_are_left_aside() {
    let tree = Tree::new(vec![
        ("/0", Node::Dir(vec!["1"])),
        ("/0/1", Node::Dir(vec!["2"])),
        ("/0/1/2", Node::Dir(vec!["3"])),
        ("/0/1/2/3", Node::Dir(vec!["4"])),
        ("/0/1/2/3/4", Node::Dir(vec!["5"])),
        ("/0/1/2/3/4/5", Node::Dir(vec!["6"])),
        ("/0/1/2/3/4/5/6", Node::Dir(vec!["SKILL.md", "7"])),
        ("/0/1/2/3/4/5/6/SKILL.md", Node::File("six")),
        ("/0/1/2/3/4/5/6/7", Node::Dir(vec!["SKILL.md"])),
        ("/0/1/2/3/4/5/6/7/SKILL.md", Node::File("seven")),
    ]);
    let (outcome, truncated) = tree.scan("/0");
    assert_eq!(found(&outcome), vec![("/0/1/2/3/4/5/6/SKILL.md", "six")]);
    assert!(!truncated);
}

#[test]
fn too_many_directories_end_the_search_for_more() {
    let mut scan = SkillScan::new(path("/r"));
    scan.step(ScanEvent::Canonicalized(None));
    let directory = FileMetadata { is_directory: true, is_file: false, is_symlink: false };
    scan.step(ScanEvent::Stated(Ok(directory)));
    let mut listed = 0;
    while !scan.is_finished() {
        let event = match scan.action() {
            ScanAction::ReadDirectory { .. } => {
                listed += 1;
                ScanEvent::DirectoryRead(Ok(if listed == 1 {
                    (0..2100).map(|n| format!("d{n}")).collect()
                } else {
                    vec![]
                }))
            }
            ScanAction::Join { dir, name } => {
                ScanEvent::Joined(Ok(path(&format!("{}/{name}", dir.native_path))))
            }
            ScanAction::Stat { .. } => ScanEvent::Stated(Ok(directory)),
            ScanAction::Canonicalize { .. } => ScanEvent::Canonicalized(None),
            other => panic!("unexpected {other:?}"),
        };
        scan.step(event);
    }
    assert_eq!(listed, 2000);
    assert!(scan.truncated_by_dir_limit());
    assert_eq!(scan.into_outcome().warnings, Vec::<String>::new());
}
