use std::collections::BTreeMap;

use kot::action::{Action, Event, MoveOptions, PathStatus};
use kot::engine::{Stage, Transaction};
use kot::kcli::Cli;
use kot::kerror::{Error, KindTag};
use kot::{handle_args, install_configs, uninstall_configs};

#[derive(Clone, Debug, PartialEq, Eq)]
enum Node {
    File(String),
    Dir(String),
    Link(String),
}

/// A file system in memory that performs the engine's requests.
#[derive(Clone, Debug, PartialEq, Eq)]
struct Disk {
    nodes: BTreeMap<String, Node>,
    unlinkable: Vec<String>,
    immovable: Vec<String>,
    answers: Vec<bool>,
    log: Vec<String>,
}

fn last_name(path: &str) -> String {
    path.trim_end_matches('/').rsplit('/').next().unwrap().to_string()
}

impl Disk {
    fn new(entries: &[(&str, Node)]) -> Disk {
        let mut nodes = BTreeMap::new();
        for (path, node) in entries {
            nodes.insert(path.to_string(), node.clone());
        }
        Disk { nodes, unlinkable: vec![], immovable: vec![], answers: vec![], log: vec![] }
    }

    fn status(&self, path: &str) -> PathStatus {
        match self.nodes.get(path) {
            None => PathStatus::Missing,
            Some(Node::File(_)) => PathStatus::File,
            Some(Node::Dir(_)) => PathStatus::Directory,
            Some(Node::Link(to)) => match self.nodes.get(to) {
                None => PathStatus::DanglingLink,
                Some(Node::Dir(_)) => PathStatus::Directory,
                Some(_) => PathStatus::File,
            },
        }
    }

    fn list(&self, dir: &str) -> Vec<String> {
        let prefix = format!("{}/", dir.trim_end_matches('/'));
        let mut names = vec![];
        for path in self.nodes.keys() {
            if let Some(rest) = path.strip_prefix(&prefix) {
                if !rest.is_empty() && !rest.contains('/') {
                    names.push(rest.to_string());
                }
            }
        }
        names.reverse();
        names
    }

    fn shift(&mut self, from: &str, to: String) -> Event {
        if self.immovable.iter().any(|p| p == from) {
            return Event::Failed("permission denied".to_string());
        }
        match self.nodes.remove(from) {
            Some(node) => {
                self.nodes.insert(to, node);
                Event::Done
            }
            None => Event::Failed("not found".to_string()),
        }
    }

    fn perform(&mut self, action: &Action) -> Event {
        self.log.push(format!("{:?}", action));
        match action {
            Action::CloneRepo { url, dir } => {
                if url.contains("missing") {
                    return Event::Failed("exit status: 128".to_string());
                }
                self.nodes.insert(dir.trim_end_matches('/').to_string(), Node::Dir("clone".to_string()));
                self.nodes.insert(format!("{}gitconfig", dir), Node::File("cloned".to_string()));
                Event::Done
            }
            Action::MakeDir { dir } => {
                self.nodes.entry(dir.clone()).or_insert(Node::Dir(String::new()));
                Event::Done
            }
            Action::Canonicalize { path } => Event::Resolved(path.clone()),
            Action::CountEntries { dir } => Event::Count(self.list(dir).len()),
            Action::ListDir { dir } => {
                if self.nodes.contains_key(dir.trim_end_matches('/')) {
                    Event::Listing(self.list(dir))
                } else {
                    Event::Failed("No such file or directory".to_string())
                }
            }
            Action::Probe { paths } => {
                Event::Statuses(paths.iter().map(|p| self.status(p)).collect())
            }
            Action::Prompt { .. } => Event::Answer(self.answers.remove(0)),
            Action::MoveDir { from, to, options } => {
                let place = if self.nodes.contains_key(to) || !options.copy_inside {
                    format!("{}/{}", to, last_name(from))
                } else {
                    to.clone()
                };
                if self.nodes.contains_key(&place) && !options.overwrite {
                    return Event::Failed("entity already exists".to_string());
                }
                self.shift(from, place)
            }
            Action::MoveFile { from, to } => self.shift(from, to.clone()),
            Action::Symlink { source, target } => {
                if self.unlinkable.contains(target) {
                    Event::Failed("Read-only file system".to_string())
                } else if self.nodes.contains_key(target) {
                    Event::Failed("File exists".to_string())
                } else {
                    self.nodes.insert(target.clone(), Node::Link(source.clone()));
                    Event::Done
                }
            }
            Action::RemoveDir { path } | Action::RemoveFile { path } => {
                self.nodes.remove(path);
                Event::Done
            }
            Action::Succeed | Action::Fail(_) => panic!("the run has ended"),
        }
    }

    fn drive(&mut self, first: (Transaction, Action)) -> (Transaction, Result<(), Error>) {
        let (mut state, mut action) = first;
        for _ in 0..1000 {
            match action {
                Action::Succeed => return (state, Ok(())),
                Action::Fail(e) => return (state, Err(e)),
                other => {
                    let event = self.perform(&other);
                    let next = state.step(event);
                    state = next.0;
                    action = next.1;
                }
            }
        }
        panic!("the run does not end");
    }

    fn mutations(&self) -> Vec<String> {
        self.log
            .iter()
            .filter(|l| {
                !(l.starts_with("ListDir") || l.starts_with("Probe") || l.starts_with("Prompt"))
            })
            .cloned()
            .collect()
    }
}

fn settings(force: bool) -> Cli {
    Cli {
        dotfiles: "/dot".to_string(),
        install_dir: "/home".to_string(),
        backup_dir: Some("/bak".to_string()),
        clone_dir: None,
        force,
        dry_run: false,
        is_repo: false,
        conflicts: vec![],
    }
}

fn file(content: &str) -> Node {
    Node::File(content.to_string())
}

fn dir(tree: &str) -> Node {
    Node::Dir(tree.to_string())
}

fn link(to: &str) -> Node {
    Node::Link(to.to_string())
}

fn mixed_disk() -> Disk {
    Disk::new(&[
        ("/dot", dir("")),
        ("/dot/bashrc", file("new bashrc")),
        ("/dot/.vim", dir("vim tree")),
        ("/home", dir("")),
        ("/home/bashrc", file("original bashrc")),
        ("/home/notes", file("unrelated")),
        ("/bak", dir("")),
    ])
}

#[test]
fn mixed_scenario_backs_up_the_conflict_and_links_both() {
    let mut disk = mixed_disk();
    let (state, result) = disk.drive(handle_args(&settings(true)));
    assert!(result.is_ok());
    assert_eq!(state.stage(), Stage::Finished);
    assert_eq!(state.conflicts(), &vec!["/home/bashrc".to_string()]);
    assert_eq!(disk.nodes.get("/bak/bashrc"), Some(&file("original bashrc")));
    assert_eq!(disk.nodes.get("/home/bashrc"), Some(&link("/dot/bashrc")));
    assert_eq!(disk.nodes.get("/home/.vim"), Some(&link("/dot/.vim")));
    assert_eq!(disk.nodes.get("/bak/.vim"), None);
    assert_eq!(disk.nodes.get("/home/notes"), Some(&file("unrelated")));
    assert_eq!(
        disk.mutations(),
        vec![
            "MoveFile { from: \"/home/bashrc\", to: \"/bak/bashrc\" }",
            "Symlink { source: \"/dot/bashrc\", target: \"/home/bashrc\" }",
            "Symlink { source: \"/dot/.vim\", target: \"/home/.vim\" }",
        ]
    );
}

#[test]
fn rollback_scenario_leaves_the_install_directory_as_it_was() {
    let mut disk = mixed_disk();
    let before = disk.nodes.clone();
    disk.unlinkable.push("/home/.vim".to_string());
    let (state, result) = disk.drive(handle_args(&settings(true)));
    let e = result.unwrap_err();
    assert_eq!(e.kind().tag(), KindTag::IO);
    assert_eq!(e.kind().detail(), "Read-only file system");
    assert_eq!(e.message(), "Unable to symlink config: /home/.vim -> /dot/.vim");
    assert_eq!(state.stage(), Stage::Finished);
    assert_eq!(disk.nodes.get("/home/bashrc"), Some(&file("original bashrc")));
    assert_eq!(disk.nodes.get("/home/.vim"), None);
    assert_eq!(disk.nodes.get("/bak/bashrc"), None);
    assert_eq!(disk.nodes, before);
    assert_eq!(
        disk.mutations(),
        vec![
            "MoveFile { from: \"/home/bashrc\", to: \"/bak/bashrc\" }",
            "Symlink { source: \"/dot/bashrc\", target: \"/home/bashrc\" }",
            "Symlink { source: \"/dot/.vim\", target: \"/home/.vim\" }",
            "RemoveFile { path: \"/home/.vim\" }",
            "Symlink { source: \"/dot/.vim\", target: \"/home/.vim\" }",
            "MoveFile { from: \"/bak/bashrc\", to: \"/home/bashrc\" }",
        ]
    );
}

#[test]
fn install_alone_is_not_rolled_back() {
    let mut disk = mixed_disk();
    disk.unlinkable.push("/home/.vim".to_string());
    let (_, result) = disk.drive(install_configs(&settings(true)));
    assert_eq!(result.unwrap_err().kind().tag(), KindTag::IO);
    assert_eq!(disk.nodes.get("/home/bashrc"), Some(&link("/dot/bashrc")));
    assert_eq!(disk.nodes.get("/bak/bashrc"), Some(&file("original bashrc")));
}

#[test]
fn fresh_install_is_undone_by_uninstall() {
    let mut disk = Disk::new(&[
        ("/dot", dir("")),
        ("/dot/bashrc", file("new bashrc")),
        ("/dot/.vim", dir("vim tree")),
        ("/dot/zshrc", file("new zshrc")),
        ("/home", dir("")),
        ("/home/notes", file("unrelated")),
        ("/bak", dir("")),
    ]);
    let before = disk.nodes.clone();
    let (state, result) = disk.drive(handle_args(&settings(false)));
    assert!(result.is_ok());
    assert!(state.conflicts().is_empty());
    assert_eq!(disk.nodes.get("/home/zshrc"), Some(&link("/dot/zshrc")));
    assert_eq!(disk.nodes.len(), before.len() + 3);
    let mut args = settings(false);
    args.conflicts = state.conflicts().clone();
    let (_, undone) = disk.drive(uninstall_configs(&args));
    assert!(undone.is_ok());
    assert_eq!(disk.nodes, before);
}

#[test]
fn install_with_conflicts_is_undone_by_uninstall() {
    let mut disk = mixed_disk();
    disk.nodes.insert("/home/.vim".to_string(), dir("old vim tree"));
    let before = disk.nodes.clone();
    let (state, result) = disk.drive(handle_args(&settings(true)));
    assert!(result.is_ok());
    assert_eq!(disk.nodes.get("/bak/.vim"), Some(&dir("old vim tree")));
    assert_eq!(disk.nodes.get("/home/.vim"), Some(&link("/dot/.vim")));
    let mut args = settings(true);
    args.conflicts = state.conflicts().clone();
    let (_, undone) = disk.drive(uninstall_configs(&args));
    assert!(undone.is_ok());
    assert_eq!(disk.nodes, before);
}

#[test]
fn directories_are_backed_up_whole() {
    let mut disk = mixed_disk();
    disk.nodes.insert("/home/.vim".to_string(), dir("old vim tree"));
    disk.drive(handle_args(&settings(true)));
    assert!(disk.log.contains(&format!(
        "{:?}",
        Action::MoveDir {
            from: "/home/.vim".to_string(),
            to: "/bak".to_string(),
            options: MoveOptions { copy_inside: true, overwrite: true },
        }
    )));
}

#[test]
fn user_who_declines_aborts_without_a_change() {
    let mut disk = mixed_disk();
    let before = disk.nodes.clone();
    disk.answers.push(false);
    let (state, result) = disk.drive(handle_args(&settings(false)));
    let e = result.unwrap_err();
    assert_eq!(e.kind().tag(), KindTag::Other);
    assert_eq!(e.kind().detail(), "User aborted installation");
    assert_eq!(e.message(), "Aborted");
    assert_eq!(state.conflicts(), &vec!["/home/bashrc".to_string()]);
    assert_eq!(disk.nodes, before);
    assert!(disk.mutations().is_empty());
}

#[test]
fn user_who_agrees_gets_the_backup_without_overwrite() {
    let mut disk = mixed_disk();
    disk.nodes.insert("/home/.vim".to_string(), dir("old vim tree"));
    disk.answers.push(true);
    let (_, result) = disk.drive(handle_args(&settings(false)));
    assert!(result.is_ok());
    assert!(disk.log.iter().any(|l| l.starts_with("Prompt")));
    assert!(disk.log.contains(&format!(
        "{:?}",
        Action::MoveDir {
            from: "/home/.vim".to_string(),
            to: "/bak".to_string(),
            options: MoveOptions { copy_inside: true, overwrite: false },
        }
    )));
    assert_eq!(disk.nodes.get("/bak/bashrc"), Some(&file("original bashrc")));
}

#[test]
fn prompt_names_the_conflicts_and_the_backup_directory() {
    let mut disk = mixed_disk();
    disk.answers.push(false);
    disk.drive(handle_args(&settings(false)));
    let expected = Action::Prompt {
        message: "The following configurations already exist:\n  /home/bashrc\nIf you continue, \
                  backups will be made in /bak. Any configurations there will be \
                  overwritten.\nContinue? Enter Y/y or N/n: "
            .to_string(),
    };
    assert!(disk.log.contains(&format!("{:?}", expected)));
}

#[test]
fn force_skips_the_prompt() {
    let mut disk = mixed_disk();
    disk.drive(handle_args(&settings(true)));
    assert!(!disk.log.iter().any(|l| l.starts_with("Prompt")));
}

#[test]
fn failed_backup_blocks_the_installation() {
    let mut disk = mixed_disk();
    disk.immovable.push("/home/bashrc".to_string());
    let (_, result) = disk.drive(handle_args(&settings(true)));
    let e = result.unwrap_err();
    assert_eq!(e.kind().tag(), KindTag::File);
    assert_eq!(e.kind().detail(), "permission denied");
    assert_eq!(e.message(), "Cannot move file from /home/bashrc to /bak/bashrc");
    assert!(!disk.log.iter().any(|l| l.starts_with("Symlink")));
    assert_eq!(disk.nodes.get("/home/bashrc"), Some(&file("original bashrc")));
}

#[test]
fn failed_directory_backup_is_a_directory_error() {
    let mut disk = mixed_disk();
    disk.nodes.insert("/home/.vim".to_string(), dir("old vim tree"));
    disk.nodes.insert("/bak/.vim".to_string(), dir("older vim tree"));
    disk.answers.push(true);
    let (_, result) = disk.drive(handle_args(&settings(false)));
    let e = result.unwrap_err();
    assert_eq!(e.kind().tag(), KindTag::Dir);
    assert_eq!(e.kind().detail(), "entity already exists");
    assert_eq!(e.message(), "Cannot move directory from /home/.vim to /bak");
    assert!(!disk.log.iter().any(|l| l.starts_with("Symlink")));
}

#[test]
fn unlisted_source_is_an_io_error() {
    let mut disk = Disk::new(&[("/home", dir("")), ("/bak", dir(""))]);
    let (_, result) = disk.drive(handle_args(&settings(true)));
    let e = result.unwrap_err();
    assert_eq!(e.kind().tag(), KindTag::IO);
    assert_eq!(e.kind().detail(), "No such file or directory");
    assert_eq!(e.message(), "Unable to access: /dot");
    assert!(disk.mutations().is_empty());
}

#[test]
fn empty_source_installs_nothing() {
    let mut disk = Disk::new(&[("/dot", dir("")), ("/home", dir("")), ("/bak", dir(""))]);
    let before = disk.nodes.clone();
    let (_, result) = disk.drive(handle_args(&settings(false)));
    assert!(result.is_ok());
    assert_eq!(disk.nodes, before);
}

#[test]
fn occupied_target_that_was_missed_is_replaced() {
    let mut disk = mixed_disk();
    let (state, first) = install_configs(&settings(true));
    assert_eq!(format!("{:?}", first), "ListDir { dir: \"/dot\" }");
    let (state, probe) = state.step(Event::Listing(vec!["bashrc".to_string()]));
    assert_eq!(format!("{:?}", probe), "Probe { paths: [\"/home/bashrc\"] }");
    let (state, action) = state.step(Event::Statuses(vec![PathStatus::Missing]));
    assert_eq!(state.stage(), Stage::Linking);
    let (_, result) = disk.drive((state, action));
    assert!(result.is_ok());
    assert_eq!(disk.nodes.get("/home/bashrc"), Some(&link("/dot/bashrc")));
    assert_eq!(
        disk.mutations(),
        vec![
            "Symlink { source: \"/dot/bashrc\", target: \"/home/bashrc\" }",
            "RemoveFile { path: \"/home/bashrc\" }",
            "Symlink { source: \"/dot/bashrc\", target: \"/home/bashrc\" }",
        ]
    );
}

#[test]
fn occupied_directory_that_was_missed_is_removed_as_a_directory() {
    let (state, _) = install_configs(&settings(true));
    let (state, _) = state.step(Event::Listing(vec![".vim".to_string()]));
    let (state, _) = state.step(Event::Statuses(vec![PathStatus::Missing]));
    let (state, probe) = state.step(Event::Failed("File exists".to_string()));
    assert_eq!(state.stage(), Stage::Inspecting);
    assert_eq!(format!("{:?}", probe), "Probe { paths: [\"/home/.vim\"] }");
    let (state, removal) = state.step(Event::Statuses(vec![PathStatus::Directory]));
    assert_eq!(state.stage(), Stage::Clearing);
    assert_eq!(format!("{:?}", removal), "RemoveDir { path: \"/home/.vim\" }");
    let (state, retry) = state.step(Event::Failed("busy".to_string()));
    assert_eq!(state.stage(), Stage::Relinking);
    assert_eq!(format!("{:?}", retry), "Symlink { source: \"/dot/.vim\", target: \"/home/.vim\" }");
    let (state, last) = state.step(Event::Failed("File exists".to_string()));
    assert_eq!(state.stage(), Stage::Finished);
    match last {
        Action::Fail(e) => assert_eq!(e.kind().detail(), "File exists"),
        other => panic!("unexpected {:?}", other),
    }
}

#[test]
fn dangling_link_at_a_target_is_a_conflict() {
    let mut disk = mixed_disk();
    disk.nodes.remove("/home/bashrc");
    disk.nodes.insert("/home/.vim".to_string(), link("/nowhere"));
    let (state, result) = disk.drive(handle_args(&settings(true)));
    assert!(result.is_ok());
    assert_eq!(state.conflicts(), &vec!["/home/.vim".to_string()]);
    assert_eq!(disk.nodes.get("/bak/.vim"), Some(&link("/nowhere")));
    assert_eq!(disk.nodes.get("/home/.vim"), Some(&link("/dot/.vim")));
}

#[test]
fn detection_twice_finds_the_same() {
    let disk = mixed_disk();
    let paths = vec!["/home/bashrc".to_string(), "/home/.vim".to_string()];
    let listing = Event::Listing(vec!["bashrc".to_string(), ".vim".to_string()]);
    let map = kot::kfs::get_target_paths("/home", "/dot", &listing).unwrap();
    let mut probed = disk.clone();
    let first = match probed.perform(&Action::Probe { paths: paths.clone() }) {
        Event::Statuses(found) => kot::check_collisions(&map, &found),
        other => panic!("unexpected {:?}", other),
    };
    let second = match probed.perform(&Action::Probe { paths }) {
        Event::Statuses(found) => kot::check_collisions(&map, &found),
        other => panic!("unexpected {:?}", other),
    };
    assert_eq!(first, Some(vec!["/home/bashrc".to_string()]));
    assert_eq!(first, second);
    assert_eq!(probed.nodes, disk.nodes);
}

#[test]
fn repository_is_cloned_first() {
    let mut disk = Disk::new(&[("/home", dir("")), ("/bak", dir(""))]);
    let mut args = settings(false);
    args.dotfiles = "https://host/user/dot.git".to_string();
    args.clone_dir = Some("/clones/dot/".to_string());
    args.is_repo = true;
    let (_, result) = disk.drive(handle_args(&args));
    assert!(result.is_ok());
    assert_eq!(
        disk.log[0],
        "CloneRepo { url: \"https://host/user/dot.git\", dir: \"/clones/dot/\" }"
    );
    assert_eq!(disk.nodes.get("/home/gitconfig"), Some(&link("/clones/dot/gitconfig")));
}

#[test]
fn failed_clone_is_a_git_error_and_nothing_is_rolled_back() {
    let mut disk = Disk::new(&[("/home", dir("")), ("/bak", dir(""))]);
    let mut args = settings(false);
    args.dotfiles = "https://host/user/missing.git".to_string();
    args.clone_dir = Some("/clones/missing/".to_string());
    args.is_repo = true;
    let (_, result) = disk.drive(handle_args(&args));
    let e = result.unwrap_err();
    assert_eq!(e.kind().tag(), KindTag::Git);
    assert_eq!(e.kind().detail(), "exit status: 128");
    assert_eq!(e.message(), "Unable to clone repository");
    assert_eq!(disk.log.len(), 1);
}

#[test]
fn event_that_answers_nothing_ends_the_run() {
    let (state, _) = handle_args(&settings(false));
    let (state, action) = state.step(Event::Answer(true));
    assert!(state.is_finished());
    match action {
        Action::Fail(e) => {
            assert_eq!(e.kind().tag(), KindTag::Other);
            assert_eq!(e.kind().detail(), "Unexpected event");
        }
        other => panic!("unexpected {:?}", other),
    }
    let (state, again) = state.step(Event::Done);
    assert!(state.is_finished());
    assert!(matches!(again, Action::Fail(_)));
}

#[test]
fn statuses_of_the_wrong_number_are_refused() {
    let (state, _) = handle_args(&settings(false));
    let (state, _) = state.step(Event::Listing(vec!["bashrc".to_string(), ".vim".to_string()]));
    let (state, action) = state.step(Event::Statuses(vec![PathStatus::Missing]));
    assert!(state.is_finished());
    assert!(matches!(action, Action::Fail(_)));
}

#[test]
fn failed_restore_is_surfaced() {
    let mut disk = mixed_disk();
    disk.unlinkable.push("/home/.vim".to_string());
    disk.immovable.push("/bak/bashrc".to_string());
    let (_, result) = disk.drive(handle_args(&settings(true)));
    let e = result.unwrap_err();
    assert_eq!(e.kind().tag(), KindTag::File);
    assert_eq!(e.kind().detail(), "permission denied");
    assert_eq!(e.message(), "Cannot move file from /bak/bashrc to /home/bashrc");
    assert_eq!(disk.nodes.get("/bak/bashrc"), Some(&file("original bashrc")));
}

#[test]
fn uninstall_removes_only_what_was_free_before() {
    let mut disk = Disk::new(&[
        ("/dot", dir("")),
        ("/dot/bashrc", file("new bashrc")),
        ("/dot/zshrc", file("new zshrc")),
        ("/dot/.vim", dir("vim tree")),
        ("/home", dir("")),
        ("/home/bashrc", link("/dot/bashrc")),
        ("/home/zshrc", link("/dot/zshrc")),
        ("/bak", dir("")),
        ("/bak/bashrc", file("original bashrc")),
    ]);
    let mut args = settings(false);
    args.conflicts = vec!["/home/bashrc".to_string()];
    let (_, result) = disk.drive(uninstall_configs(&args));
    assert!(result.is_ok());
    assert_eq!(disk.nodes.get("/home/bashrc"), Some(&file("original bashrc")));
    assert_eq!(disk.nodes.get("/home/zshrc"), None);
    assert_eq!(disk.nodes.get("/home/.vim"), None);
    assert_eq!(disk.nodes.get("/bak/bashrc"), None);
    assert_eq!(
        disk.mutations(),
        vec![
            "MoveFile { from: \"/bak/bashrc\", to: \"/home/bashrc\" }",
            "RemoveFile { path: \"/home/zshrc\" }",
        ]
    );
}

#[test]
fn backed_up_file_comes_back_as_it_was() {
    let mut disk = mixed_disk();
    let before = disk.nodes.clone();
    let listing = Event::Listing(vec!["bashrc".to_string()]);
    let map = kot::kfs::get_target_paths("/home", "/dot", &listing).unwrap();
    let backup = kot::plan::backup_config(&map.entries[0], disk.status("/home/bashrc"), "/bak", false);
    assert!(matches!(disk.perform(&backup), Event::Done));
    assert_eq!(disk.nodes.get("/home/bashrc"), None);
    assert_eq!(disk.nodes.get("/bak/bashrc"), Some(&file("original bashrc")));
    let held = disk.list("/bak");
    assert_eq!(held, vec!["bashrc".to_string()]);
    let found = vec![disk.status("/bak/bashrc")];
    for action in kot::plan::plan_restore(&held, &found, "/bak", "/home", false) {
        assert!(matches!(disk.perform(&action), Event::Done));
    }
    assert_eq!(disk.nodes.get("/home/bashrc"), Some(&file("original bashrc")));
    assert_eq!(disk.nodes.get("/bak/bashrc"), None);
    assert_eq!(disk.nodes, before);
}

#[test]
fn backed_up_directory_comes_back_as_it_was() {
    let mut disk = mixed_disk();
    disk.nodes.insert("/home/.vim".to_string(), dir("old vim tree"));
    let before = disk.nodes.clone();
    let listing = Event::Listing(vec![".vim".to_string()]);
    let map = kot::kfs::get_target_paths("/home", "/dot", &listing).unwrap();
    let backup = kot::plan::backup_config(&map.entries[0], disk.status("/home/.vim"), "/bak", false);
    assert!(matches!(disk.perform(&backup), Event::Done));
    assert_eq!(disk.nodes.get("/bak/.vim"), Some(&dir("old vim tree")));
    let held = disk.list("/bak");
    let found = vec![disk.status("/bak/.vim")];
    for action in kot::plan::plan_restore(&held, &found, "/bak", "/home", false) {
        assert!(matches!(disk.perform(&action), Event::Done));
    }
    assert_eq!(disk.nodes, before);
}

#[test]
fn settings_without_a_backup_directory_are_not_ready() {
    let mut args = settings(false);
    assert!(args.is_ready());
    args.backup_dir = None;
    assert!(!args.is_ready());
    let mut args = settings(false);
    args.is_repo = true;
    assert!(!args.is_ready());
    args.clone_dir = Some("/clones/dot".to_string());
    assert!(args.is_ready());
    assert_eq!(args.source_dir(), "/clones/dot");
}

#[test]
fn transaction_keeps_the_mapping_it_resolved() {
    let (state, _) = handle_args(&settings(false));
    assert!(state.config_map().entries.is_empty());
    let (state, _) = state.step(Event::Listing(vec!["bashrc".to_string(), ".vim".to_string()]));
    assert_eq!(state.stage(), Stage::Detecting);
    assert_eq!(state.config_map().len(), 2);
    assert_eq!(state.config_map().entries[1].target, "/home/.vim");
}

#[test]
fn transaction_remembers_what_it_asked_last() {
    let (state, first) = handle_args(&settings(false));
    assert_eq!(format!("{:?}", state.pending()), format!("{:?}", first));
    let (state, second) = state.step(Event::Listing(vec![]));
    assert_eq!(format!("{:?}", state.pending()), format!("{:?}", second));
    assert_eq!(format!("{:?}", second), "Probe { paths: [] }");
}
