use kot::action::{Action, Event, MoveOptions, PathStatus};
use kot::check_collisions;
use kot::kerror::KindTag;
use kot::kfs::{
    abs, joined, create_dir_all, dir_entries, get_target_paths, landing_place, move_dir,
    move_dir_error, move_file, stash_dir, ConfigMap,
};
use kot::plan::{
    backup_config, contains_path, failure, paths_in, plan_backups, plan_cleanup, plan_links,
    plan_restore, prompt_message,
};

fn names(list: &[&str]) -> Vec<String> {
    list.iter().map(|s| s.to_string()).collect()
}

fn show(actions: &[Action]) -> Vec<String> {
    actions.iter().map(|a| format!("{:?}", a)).collect()
}

fn mapping(list: &[&str]) -> ConfigMap {
    get_target_paths("/home", "/dot", &Event::Listing(names(list))).unwrap()
}

fn triples(map: &ConfigMap) -> Vec<(String, String, String)> {
    map.entries.iter().map(|e| (e.name.clone(), e.source.clone(), e.target.clone())).collect()
}

#[test]
fn every_listed_name_gets_its_pair() {
    let map = mapping(&["bashrc", ".vim", "zshrc"]);
    assert_eq!(
        triples(&map),
        vec![
            ("bashrc".to_string(), "/dot/bashrc".to_string(), "/home/bashrc".to_string()),
            (".vim".to_string(), "/dot/.vim".to_string(), "/home/.vim".to_string()),
            ("zshrc".to_string(), "/dot/zshrc".to_string(), "/home/zshrc".to_string()),
        ]
    );
}

#[test]
fn empty_listing_gives_an_empty_mapping() {
    assert!(mapping(&[]).entries.is_empty());
}

#[test]
fn repeated_source_keeps_the_first_pair() {
    let map = mapping(&["bashrc", ".vim", "bashrc"]);
    assert_eq!(map.entries.len(), 2);
    assert_eq!(map.entries[0].source, "/dot/bashrc");
    assert_eq!(map.entries[1].source, "/dot/.vim");
}

#[test]
fn failed_listing_is_an_io_error() {
    let e = get_target_paths("/home", "/dot", &Event::Failed("Permission denied".to_string()))
        .unwrap_err();
    assert_eq!(e.kind().tag(), KindTag::IO);
    assert_eq!(e.kind().detail(), "Permission denied");
    assert_eq!(e.message(), "Unable to access: /dot");
}

#[test]
fn other_events_are_no_listing() {
    let e = get_target_paths("/home", "/dot", &Event::Done).unwrap_err();
    assert_eq!(e.kind().tag(), KindTag::Other);
    assert_eq!(e.kind().detail(), "Unexpected event");
}

#[test]
fn collisions_are_the_occupied_targets_in_order() {
    let map = mapping(&["bashrc", ".vim", "zshrc", "profile"]);
    let found = vec![
        PathStatus::File,
        PathStatus::Missing,
        PathStatus::Directory,
        PathStatus::DanglingLink,
    ];
    assert_eq!(
        check_collisions(&map, &found),
        Some(names(&["/home/bashrc", "/home/zshrc", "/home/profile"]))
    );
}

#[test]
fn no_collision_is_none() {
    let map = mapping(&["bashrc", ".vim"]);
    assert_eq!(check_collisions(&map, &vec![PathStatus::Missing, PathStatus::Missing]), None);
    assert_eq!(check_collisions(&mapping(&[]), &vec![]), None);
}

#[test]
fn target_without_a_status_is_no_collision() {
    let map = mapping(&["bashrc", ".vim"]);
    assert_eq!(check_collisions(&map, &vec![PathStatus::Missing]), None);
    assert_eq!(check_collisions(&map, &vec![PathStatus::File]), Some(names(&["/home/bashrc"])));
}

#[test]
fn broken_link_counts_as_a_collision() {
    let map = mapping(&["bashrc"]);
    assert_eq!(
        check_collisions(&map, &vec![PathStatus::DanglingLink]),
        Some(names(&["/home/bashrc"]))
    );
    assert!(PathStatus::DanglingLink.is_occupied());
    assert!(!PathStatus::Missing.is_occupied());
    assert!(!PathStatus::DanglingLink.is_dir());
}

#[test]
fn file_is_backed_up_under_its_name() {
    let map = mapping(&["bashrc"]);
    for status in [PathStatus::File, PathStatus::DanglingLink] {
        let action = backup_config(&map.entries[0], status, "/bak", false);
        assert_eq!(
            format!("{:?}", action),
            "MoveFile { from: \"/home/bashrc\", to: \"/bak/bashrc\" }"
        );
    }
}

#[test]
fn directory_is_backed_up_into_the_backup_directory() {
    let map = mapping(&[".vim"]);
    for force in [false, true] {
        let action = backup_config(&map.entries[0], PathStatus::Directory, "/bak", force);
        match action {
            Action::MoveDir { from, to, options } => {
                assert_eq!(from, "/home/.vim");
                assert_eq!(to, "/bak");
                assert_eq!(options, MoveOptions { copy_inside: true, overwrite: force });
            }
            other => panic!("unexpected {:?}", other),
        }
    }
}

#[test]
fn backups_are_planned_for_conflicts_only() {
    let map = mapping(&["bashrc", ".vim", "zshrc"]);
    let found = vec![PathStatus::File, PathStatus::Missing, PathStatus::Directory];
    assert_eq!(
        show(&plan_backups(&map, &found, "/bak", true)),
        vec![
            "MoveFile { from: \"/home/bashrc\", to: \"/bak/bashrc\" }",
            "MoveDir { from: \"/home/zshrc\", to: \"/bak\", options: MoveOptions { copy_inside: \
             true, overwrite: true } }",
        ]
    );
    assert!(plan_backups(&map, &vec![PathStatus::Missing; 3], "/bak", true).is_empty());
}

#[test]
fn links_are_planned_for_every_entry() {
    let map = mapping(&["bashrc", ".vim"]);
    assert_eq!(
        show(&plan_links(&map)),
        vec![
            "Symlink { source: \"/dot/bashrc\", target: \"/home/bashrc\" }",
            "Symlink { source: \"/dot/.vim\", target: \"/home/.vim\" }",
        ]
    );
}

#[test]
fn restore_moves_every_backup_back() {
    let plan = plan_restore(
        &names(&["bashrc", ".vim", "zshrc"]),
        &vec![PathStatus::File, PathStatus::Directory],
        "/bak",
        "/home",
        false,
    );
    assert_eq!(
        show(&plan),
        vec![
            "MoveFile { from: \"/bak/bashrc\", to: \"/home/bashrc\" }",
            "MoveDir { from: \"/bak/.vim\", to: \"/home\", options: MoveOptions { copy_inside: \
             true, overwrite: false } }",
            "MoveFile { from: \"/bak/zshrc\", to: \"/home/zshrc\" }",
        ]
    );
}

#[test]
fn cleanup_removes_what_was_free_and_is_occupied() {
    let plan = plan_cleanup(
        &names(&["bashrc", ".vim", "zshrc", "profile"]),
        &vec![PathStatus::File, PathStatus::Directory, PathStatus::Missing, PathStatus::DanglingLink],
        "/home",
        &names(&["/home/bashrc"]),
    );
    assert_eq!(
        show(&plan),
        vec!["RemoveFile { path: \"/home/.vim\" }", "RemoveFile { path: \"/home/profile\" }"]
    );
}

#[test]
fn paths_are_found_by_their_text() {
    let paths = names(&["/home/bashrc", "/home/.vim"]);
    assert!(contains_path(&paths, &"/home/.vim".to_string()));
    assert!(!contains_path(&paths, &"/home/.vi".to_string()));
    assert!(!contains_path(&vec![], &"".to_string()));
    assert_eq!(paths_in("/bak/", &names(&["a", "b"])), names(&["/bak/a", "/bak/b"]));
}

#[test]
fn prompt_lists_every_conflict() {
    assert_eq!(
        prompt_message(&names(&["/home/bashrc", "/home/.vim"]), "/bak"),
        "The following configurations already exist:\n  /home/bashrc\n  /home/.vim\nIf you \
         continue, backups will be made in /bak. Any configurations there will be \
         overwritten.\nContinue? Enter Y/y or N/n: "
    );
}

#[test]
fn requests_are_phrased_as_asked() {
    assert_eq!(format!("{:?}", abs("dot")), "Canonicalize { path: \"dot\" }");
    assert_eq!(format!("{:?}", create_dir_all("/a/b")), "MakeDir { dir: \"/a/b\" }");
    assert_eq!(format!("{:?}", dir_entries("/bak")), "CountEntries { dir: \"/bak\" }");
    assert_eq!(format!("{:?}", move_file("/a", "/b")), "MoveFile { from: \"/a\", to: \"/b\" }");
    assert_eq!(
        format!("{:?}", kot::kgit::clone("git@host:u/r.git", "/clones/r")),
        "CloneRepo { url: \"git@host:u/r.git\", dir: \"/clones/r\" }"
    );
}

#[test]
fn move_without_options_replaces_nothing() {
    match move_dir("/a", "/b", None) {
        Action::MoveDir { options, .. } => {
            assert_eq!(options, MoveOptions { copy_inside: true, overwrite: false })
        }
        other => panic!("unexpected {:?}", other),
    }
    let given = MoveOptions { copy_inside: false, overwrite: true };
    match move_dir("/a", "/b", Some(given)) {
        Action::MoveDir { from, to, options } => {
            assert_eq!((from.as_str(), to.as_str()), ("/a", "/b"));
            assert_eq!(options, given);
        }
        other => panic!("unexpected {:?}", other),
    }
}

#[test]
fn stash_of_an_empty_directory_is_empty() {
    assert!(stash_dir("/bak", 0, "/tmp").unwrap().is_empty());
    assert!(stash_dir("/", 0, "/tmp").unwrap().is_empty());
}

#[test]
fn stash_moves_the_directory_and_creates_it_anew() {
    assert_eq!(
        show(&stash_dir("/data/backups/dot:2021", 5, "/tmp").unwrap()),
        vec![
            "MoveDir { from: \"/data/backups/dot:2021\", to: \"/tmp/kot/expired/dot:2021\", \
             options: MoveOptions { copy_inside: true, overwrite: true } }",
            "MakeDir { dir: \"/data/backups/dot:2021\" }",
        ]
    );
}

#[test]
fn stash_of_a_directory_without_a_name_is_refused() {
    let e = stash_dir("/", 1, "/tmp").unwrap_err();
    assert_eq!(e.kind().tag(), KindTag::Config);
    assert_eq!(e.kind().detail(), "/");
    assert_eq!(e.message(), "The path has no final name");
}

#[test]
fn every_kind_of_error_has_its_cause() {
    let cases: Vec<(Action, KindTag, &str)> = vec![
        (kot::kgit::clone("u", "d"), KindTag::Git, "Unable to clone repository"),
        (create_dir_all("/d"), KindTag::IO, "Unable to create directory: /d"),
        (abs("d"), KindTag::IO, "Unable to canonicalize dir: d"),
        (move_dir("/a", "/b", None), KindTag::Dir, "Cannot move directory from /a to /b"),
        (move_file("/a", "/b"), KindTag::File, "Cannot move file from /a to /b"),
        (
            Action::Symlink { source: "/s".to_string(), target: "/t".to_string() },
            KindTag::IO,
            "Unable to symlink config: /t -> /s",
        ),
        (Action::RemoveFile { path: "/t".to_string() }, KindTag::IO, "Unable to access: /t"),
        (Action::RemoveDir { path: "/t".to_string() }, KindTag::IO, "Unable to access: /t"),
        (Action::ListDir { dir: "/d".to_string() }, KindTag::IO, "Unable to access: /d"),
        (dir_entries("/d"), KindTag::IO, "Unable to access: /d"),
        (Action::Probe { paths: vec![] }, KindTag::IO, "Unable to access: "),
    ];
    for (action, tag, message) in cases {
        let e = failure(&action, "cause");
        assert_eq!(e.kind().tag(), tag);
        assert_eq!(e.kind().detail(), "cause");
        assert_eq!(e.message(), message);
    }
    let e = move_dir_error("/a", "/b", "cause");
    assert_eq!(e.duplicate().message(), "Cannot move directory from /a to /b");
    assert_eq!(e.kind().duplicate().tag(), KindTag::Dir);
}

#[test]
fn mapping_counts_its_pairs() {
    assert_eq!(mapping(&["bashrc", ".vim", "zshrc"]).len(), 3);
    assert_eq!(mapping(&["bashrc", "bashrc"]).len(), 1);
    assert_eq!(mapping(&[]).len(), 0);
}

#[test]
fn targets_lie_in_the_install_directory_whatever_its_form() {
    let listing = Event::Listing(names(&["bashrc"]));
    let map = get_target_paths("/home/kapper/", "dot/", &listing).unwrap();
    assert_eq!(map.entries[0].source, "dot/bashrc");
    assert_eq!(map.entries[0].target, "/home/kapper/bashrc");
    assert_eq!(map.entries[0].name, "bashrc");
}

#[test]
fn moved_directory_lands_inside_an_existing_destination() {
    let inside = MoveOptions { copy_inside: true, overwrite: false };
    let strict = MoveOptions { copy_inside: false, overwrite: false };
    assert_eq!(landing_place("/home/.vim", "/bak", true, inside), Some("/bak/.vim".to_string()));
    assert_eq!(landing_place("/home/.vim", "/bak", false, inside), Some("/bak".to_string()));
    assert_eq!(landing_place("/home/.vim", "/bak", false, strict), Some("/bak/.vim".to_string()));
    assert_eq!(landing_place("/home/.vim/", "/bak/", true, strict), Some("/bak/.vim".to_string()));
    assert_eq!(landing_place("/", "/bak", true, inside), None);
    assert_eq!(landing_place("/", "/bak", false, inside), Some("/bak".to_string()));
}

#[test]
fn texts_are_joined_end_to_end() {
    assert_eq!(joined("Unable to access: ", "/dot"), "Unable to access: /dot");
    assert_eq!(joined("", ""), "");
}

#[test]
fn mapping_gives_its_targets_in_order() {
    assert_eq!(mapping(&["bashrc", ".vim"]).targets(), names(&["/home/bashrc", "/home/.vim"]));
    assert!(mapping(&[]).targets().is_empty());
}
