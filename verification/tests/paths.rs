use kot::kfs::{get_data_dir, get_repo_path, get_temp_dir};
use kot::kgit::{repo_name, try_repo_name};
use kot::kpath::{file_name, join_path};

#[test]
fn join_puts_one_separator_between() {
    assert_eq!(join_path("/home/kapper", "bashrc"), "/home/kapper/bashrc");
    assert_eq!(join_path("/home/kapper/", "bashrc"), "/home/kapper/bashrc");
    assert_eq!(join_path("", "bashrc"), "bashrc");
    assert_eq!(join_path("/", ".vim"), "/.vim");
}

#[test]
fn join_with_a_rooted_name_gives_the_name() {
    assert_eq!(join_path("/home/kapper", "/etc/hosts"), "/etc/hosts");
}

#[test]
fn join_with_an_empty_name_ends_in_a_separator() {
    assert_eq!(join_path("/home/kapper", ""), "/home/kapper/");
}

#[test]
fn file_name_is_the_last_component() {
    assert_eq!(file_name("/home/kapper/.vimrc"), Some(".vimrc".to_string()));
    assert_eq!(file_name("dot"), Some("dot".to_string()));
    assert_eq!(file_name("/home/kapper/dot/"), Some("dot".to_string()));
    assert_eq!(file_name("/home/kapper/dot///"), Some("dot".to_string()));
    assert_eq!(file_name("https://host/user/dot.git"), Some("dot.git".to_string()));
}

#[test]
fn file_name_is_missing_for_roots_and_dots() {
    assert_eq!(file_name(""), None);
    assert_eq!(file_name("/"), None);
    assert_eq!(file_name("///"), None);
    assert_eq!(file_name("/home/.."), None);
    assert_eq!(file_name(".."), None);
    assert_eq!(file_name("."), None);
    assert_eq!(file_name("/home/./"), None);
}

#[test]
fn file_name_of_a_join_is_the_name() {
    for dir in ["", "/", "/home", "/home/", "rel/dir"] {
        for name in ["bashrc", ".vim", "a b", "...", "x.git"] {
            assert_eq!(file_name(&join_path(dir, name)), Some(name.to_string()));
        }
    }
}

#[test]
fn file_name_counts_characters_not_bytes() {
    assert_eq!(file_name("/hörn/çonf/"), Some("çonf".to_string()));
    assert_eq!(join_path("/hörn", "çonf"), "/hörn/çonf");
}

#[test]
fn repo_name_drops_the_suffix() {
    assert_eq!(repo_name("https://github.com/shaunrd0/dot.git"), "dot");
    assert_eq!(repo_name("git@github.com:shaunrd0/dot.git"), "dot");
    assert_eq!(repo_name("https://host/a/b/c.d.git"), "c.d");
    assert_eq!(repo_name("https://host/.git"), "");
}

#[test]
fn try_repo_name_refuses_what_names_no_repository() {
    assert_eq!(try_repo_name("https://host/user/dot.git"), Some("dot".to_string()));
    assert_eq!(try_repo_name("git@host:dot.git"), None);
    assert_eq!(try_repo_name("https://host/user/dot"), None);
    assert_eq!(try_repo_name("https://host/user/dot.git/"), None);
    assert_eq!(try_repo_name("https://host/user/git"), None);
    assert_eq!(try_repo_name(""), None);
    assert_eq!(try_repo_name("dot.git"), None);
}

#[test]
fn data_directories_lie_under_home() {
    assert_eq!(get_data_dir("/home/kapper"), "/home/kapper/.local/share/kot/");
    assert_eq!(get_data_dir("/home/kapper/"), "/home/kapper/.local/share/kot/");
    assert_eq!(
        get_repo_path("/home/kapper", "https://github.com/shaunrd0/dot.git"),
        "/home/kapper/.local/share/kot/dotfiles/dot/"
    );
}

#[test]
fn stashes_lie_under_the_temporary_directory() {
    assert_eq!(get_temp_dir("/tmp"), "/tmp/kot/expired/");
    assert_eq!(get_temp_dir("/var/tmp/"), "/var/tmp/kot/expired/");
}
