use kot::action::{Action, Event};
use kot::kcli::{from_args, Cli, Host, Normalizer};
use kot::kerror::KindTag;

fn host() -> Host {
    Host {
        home: "/home/kapper".to_string(),
        user: "kapper".to_string(),
        temp_dir: "/tmp".to_string(),
    }
}

fn settings(dotfiles: &str) -> Cli {
    Cli {
        dotfiles: dotfiles.to_string(),
        install_dir: "/home/kapper".to_string(),
        backup_dir: Some("/bak".to_string()),
        clone_dir: None,
        force: false,
        dry_run: false,
        is_repo: false,
        conflicts: vec![],
    }
}

fn show(action: &Action) -> String {
    format!("{:?}", action)
}

/// Feeds `events` one by one and gives the requests that were made.
fn feed(first: (Normalizer, Action), events: Vec<Event>) -> (Normalizer, Vec<String>) {
    let (mut state, action) = first;
    let mut asked = vec![show(&action)];
    for event in events {
        let next = state.step(event);
        state = next.0;
        asked.push(show(&next.1));
    }
    (state, asked)
}

fn resolved(path: &str) -> Event {
    Event::Resolved(path.to_string())
}

#[test]
fn directory_source_is_made_absolute_and_directories_are_created() {
    let first = from_args(settings("dot"), host());
    let (state, asked) =
        feed(first, vec![resolved("/work/dot"), Event::Done, Event::Done, Event::Count(0)]);
    assert_eq!(
        asked,
        vec![
            "Canonicalize { path: \"dot\" }",
            "MakeDir { dir: \"/home/kapper\" }",
            "MakeDir { dir: \"/bak\" }",
            "CountEntries { dir: \"/bak\" }",
            "Succeed",
        ]
    );
    assert!(state.has_succeeded());
    let args = state.into_args();
    assert_eq!(args.dotfiles, "/work/dot");
    assert!(!args.is_repo);
    assert_eq!(args.backup_dir, Some("/bak".to_string()));
    assert!(args.is_ready());
    assert_eq!(args.source_dir(), "/work/dot");
}

#[test]
fn existing_backups_without_force_are_a_config_error() {
    for count in [1usize, 2, 40] {
        let first = from_args(settings("dot"), host());
        let (state, _) = feed(first, vec![resolved("/work/dot"), Event::Done, Event::Done]);
        let (state, action) = state.step(Event::Count(count));
        assert!(!state.has_succeeded());
        match action {
            Action::Fail(e) => {
                assert_eq!(e.kind().tag(), KindTag::Config);
                assert_eq!(e.kind().detail(), "Backups already exist at: /bak");
                assert_eq!(
                    e.message(),
                    "Set the --force flag to overwrite configurations stored here"
                );
            }
            other => panic!("unexpected {:?}", other),
        }
    }
}

#[test]
fn existing_backups_with_force_are_stashed() {
    let mut args = settings("dot");
    args.force = true;
    let first = from_args(args, host());
    let (state, asked) = feed(
        first,
        vec![
            resolved("/work/dot"),
            Event::Done,
            Event::Done,
            Event::Count(1),
            Event::Done,
            Event::Done,
        ],
    );
    assert_eq!(
        asked[4..],
        [
            "MoveDir { from: \"/bak\", to: \"/tmp/kot/expired/bak\", options: MoveOptions { \
             copy_inside: true, overwrite: true } }",
            "MakeDir { dir: \"/bak\" }",
            "Succeed",
        ]
    );
    assert!(state.has_succeeded());
}

#[test]
fn stash_of_an_empty_directory_asks_for_nothing_twice_in_a_row() {
    for _ in 0..2 {
        let mut args = settings("dot");
        args.force = true;
        let first = from_args(args, host());
        let (_, asked) =
            feed(first, vec![resolved("/work/dot"), Event::Done, Event::Done, Event::Count(0)]);
        assert_eq!(asked.last().unwrap(), "Succeed");
        assert!(!asked.iter().any(|a| a.starts_with("Move")));
    }
}

#[test]
fn failed_stash_is_a_directory_error() {
    let mut args = settings("dot");
    args.force = true;
    let first = from_args(args, host());
    let (state, _) =
        feed(first, vec![resolved("/work/dot"), Event::Done, Event::Done, Event::Count(3)]);
    let (_, action) = state.step(Event::Failed("disk full".to_string()));
    match action {
        Action::Fail(e) => {
            assert_eq!(e.kind().tag(), KindTag::Dir);
            assert_eq!(e.kind().detail(), "disk full");
            assert_eq!(e.message(), "Cannot move directory from /bak to /tmp/kot/expired/bak");
        }
        other => panic!("unexpected {:?}", other),
    }
}

#[test]
fn backup_directory_without_a_name_cannot_be_stashed() {
    let mut args = settings("dot");
    args.force = true;
    args.backup_dir = Some("/".to_string());
    let first = from_args(args, host());
    let (state, _) = feed(first, vec![resolved("/work/dot"), Event::Done, Event::Done]);
    let (_, action) = state.step(Event::Count(2));
    match action {
        Action::Fail(e) => {
            assert_eq!(e.kind().tag(), KindTag::Config);
            assert_eq!(e.kind().detail(), "/");
        }
        other => panic!("unexpected {:?}", other),
    }
}

#[test]
fn repository_urls_are_recognised() {
    for url in [
        "https://github.com/shaunrd0/dot.git",
        "http://github.com/shaunrd0/dot.git",
        "git@github.com:shaunrd0/dot.git",
        "https://user@host.example:8080/team/dot-files.git",
    ] {
        let (state, action) = from_args(settings(url), host());
        assert_eq!(show(&action), "MakeDir { dir: \"/home/kapper\" }", "{}", url);
        assert!(state.into_args().is_repo, "{}", url);
    }
}

#[test]
fn other_sources_are_taken_as_directories() {
    for path in [
        "dot",
        "/home/kapper/dot.git",
        "https://github.com/shaunrd0/dot",
        "ftp://github.com/shaunrd0/dot.git",
        "https://github.com/shaunrd0/dot.git extra",
        "",
    ] {
        let (state, action) = from_args(settings(path), host());
        assert_eq!(show(&action), format!("Canonicalize {{ path: {:?} }}", path));
        assert!(!state.into_args().is_repo, "{}", path);
    }
}

#[test]
fn repository_without_clone_directory_goes_under_the_data_directory() {
    let (state, _) = from_args(settings("https://github.com/shaunrd0/dot.git"), host());
    let args = state.into_args();
    assert_eq!(args.clone_dir, Some("/home/kapper/.local/share/kot/dotfiles/dot/".to_string()));
    assert_eq!(args.dotfiles, "https://github.com/shaunrd0/dot.git");
}

#[test]
fn given_clone_directory_is_created_and_made_absolute() {
    let mut args = settings("git@github.com:shaunrd0/dot.git");
    args.clone_dir = Some("clones/dot".to_string());
    let first = from_args(args, host());
    let (state, asked) = feed(first, vec![Event::Done, resolved("/work/clones/dot")]);
    assert_eq!(
        asked,
        vec![
            "MakeDir { dir: \"clones/dot\" }",
            "Canonicalize { path: \"clones/dot\" }",
            "MakeDir { dir: \"/home/kapper\" }",
        ]
    );
    let args = state.into_args();
    assert_eq!(args.clone_dir, Some("/work/clones/dot".to_string()));
    assert_eq!(args.source_dir(), "/work/clones/dot");
}

#[test]
fn url_without_a_repository_name_is_a_config_error() {
    let (state, action) = from_args(settings("git@host:dot.git"), host());
    assert!(state.into_args().is_repo);
    match action {
        Action::Fail(e) => {
            assert_eq!(e.kind().tag(), KindTag::Config);
            assert_eq!(e.kind().detail(), "git@host:dot.git");
            assert_eq!(e.message(), "The URL names no repository");
        }
        other => panic!("unexpected {:?}", other),
    }
}

#[test]
fn dry_run_installs_under_the_data_directory() {
    let mut args = settings("dot");
    args.dry_run = true;
    let first = from_args(args, host());
    let (state, asked) = feed(first, vec![resolved("/work/dot")]);
    assert_eq!(asked[1], "MakeDir { dir: \"/home/kapper/.local/share/kot/dry-runs/kapper\" }");
    assert_eq!(state.into_args().install_dir, "/home/kapper/.local/share/kot/dry-runs/kapper");
}

#[test]
fn default_backup_directory_is_named_by_source_and_time() {
    let mut args = settings("dot");
    args.backup_dir = None;
    let first = args.normalize_with(host(), false, "2021-09-30T12:34:56".to_string());
    let (state, asked) = feed(first, vec![resolved("/work/dot"), Event::Done]);
    assert_eq!(
        asked[2],
        "MakeDir { dir: \"/home/kapper/.local/share/kot/backups/dot:2021-09-30T12:34:56\" }"
    );
    assert_eq!(
        state.into_args().backup_dir,
        Some("/home/kapper/.local/share/kot/backups/dot:2021-09-30T12:34:56".to_string())
    );
}

#[test]
fn default_backup_directory_carries_the_time_of_the_clock() {
    let mut args = settings("https://github.com/shaunrd0/dot.git");
    args.backup_dir = None;
    let first = from_args(args, host());
    let (state, _) = feed(first, vec![Event::Done]);
    let dir = state.into_args().backup_dir.unwrap();
    let stamp = dir.strip_prefix("/home/kapper/.local/share/kot/backups/dot.git:").unwrap();
    let shape: String = stamp
        .chars()
        .map(|c| if c.is_ascii_digit() { '9' } else { c })
        .collect();
    assert_eq!(shape, "9999-99-99T99:99:99");
    assert_ne!(stamp, "%Y-%m-%dT%H:%M:%S");
}

#[test]
fn source_without_a_name_has_no_default_backup_directory() {
    let mut args = settings("dot");
    args.backup_dir = None;
    let first = from_args(args, host());
    let (_, asked) = feed(first, vec![resolved("/"), Event::Done]);
    assert!(asked[2].starts_with("Fail("));
    assert!(asked[2].contains("ConfigError(\"/\")"));
}

#[test]
fn failures_are_classified_by_the_request() {
    let (state, _) = from_args(settings("dot"), host());
    let (_, action) = state.step(Event::Failed("No such file or directory".to_string()));
    match action {
        Action::Fail(e) => {
            assert_eq!(e.kind().tag(), KindTag::IO);
            assert_eq!(e.kind().detail(), "No such file or directory");
            assert_eq!(e.message(), "Unable to canonicalize dir: dot");
        }
        other => panic!("unexpected {:?}", other),
    }
    let (state, _) = from_args(settings("dot"), host());
    let (state, _) = state.step(resolved("/work/dot"));
    let (_, action) = state.step(Event::Failed("Permission denied".to_string()));
    match action {
        Action::Fail(e) => {
            assert_eq!(e.kind().tag(), KindTag::IO);
            assert_eq!(e.message(), "Unable to create directory: /home/kapper");
        }
        other => panic!("unexpected {:?}", other),
    }
}

#[test]
fn events_that_answer_nothing_end_the_normalization() {
    let (state, _) = from_args(settings("dot"), host());
    let (state, action) = state.step(Event::Count(0));
    assert!(!state.has_succeeded());
    match action {
        Action::Fail(e) => assert_eq!(e.kind().detail(), "Unexpected event"),
        other => panic!("unexpected {:?}", other),
    }
    let (_, again) = state.step(Event::Done);
    assert!(matches!(again, Action::Fail(_)));
}
