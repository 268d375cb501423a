//! What each phase of a run asks for, computed from what was observed.

use vstd::prelude::*;
use vstd::string::*;
use crate::action::{Action, ActionView, MoveOptions, PathStatus};
use crate::kerror::{Error, ErrorKind, ErrorView, KindTag};
use crate::kfs::{
    abs_error, abs_error_view, action_views, joined, create_dir_error, create_dir_error_view,
    error_view, io_error, io_error_view, move_dir, move_dir_error, move_dir_error_view, move_file,
    move_file_error, move_file_error_view, ConfigEntry, ConfigMap, EntryView,
};
use crate::kgit::{clone_error, clone_error_view};
use crate::kpath::{join, join_path};

verus! {

/// The targets that are occupied, in the order of the entries. An entry
/// for which no status was given is not among them.
pub open spec fn conflicts(entries: Seq<EntryView>, statuses: Seq<PathStatus>) -> Seq<Seq<char>>
    decreases entries.len(),
{
    if entries.len() == 0 {
        Seq::empty()
    } else {
        let before = conflicts(entries.drop_last(), statuses);
        let last = entries.len() - 1;
        if last < statuses.len() && statuses[last].occupied() {
            before.push(entries[last].target)
        } else {
            before
        }
    }
}

/// A path is a conflict exactly if it is the target of an entry whose
/// status says that the path is occupied.
pub proof fn lemma_conflicts_members(
    entries: Seq<EntryView>,
    statuses: Seq<PathStatus>,
    path: Seq<char>,
)
    ensures
        conflicts(entries, statuses).contains(path) <==> exists|i: int|
            0 <= i < entries.len() && i < statuses.len() && statuses[i].occupied()
                && #[trigger] entries[i].target == path,
    decreases entries.len(),
{
    if entries.len() > 0 {
        let shorter = entries.drop_last();
        let last = entries.len() - 1;
        lemma_conflicts_members(shorter, statuses, path);
        let before = conflicts(shorter, statuses);
        let all = conflicts(entries, statuses);
        if all.contains(path) {
            let k = choose|k: int| 0 <= k < all.len() && all[k] == path;
            if k < before.len() {
                assert(before[k] == path);
                assert(before.contains(path));
                let i = choose|i: int|
                    0 <= i < shorter.len() && i < statuses.len() && statuses[i].occupied()
                        && #[trigger] shorter[i].target == path;
                assert(entries[i].target == path);
            } else {
                assert(entries[last].target == path);
            }
        }
        if exists|i: int|
            0 <= i < entries.len() && i < statuses.len() && statuses[i].occupied()
                && #[trigger] entries[i].target == path {
            let i = choose|i: int|
                0 <= i < entries.len() && i < statuses.len() && statuses[i].occupied()
                    && #[trigger] entries[i].target == path;
            if i < last {
                assert(shorter[i].target == path);
                assert(before.contains(path));
                let k = choose|k: int| 0 <= k < before.len() && before[k] == path;
                assert(all[k] == path);
            } else {
                assert(all.last() == path);
            }
        }
    }
}

/// Law: a target that holds only a link that leads nowhere is a conflict.
pub proof fn lemma_dangling_link_conflicts(
    entries: Seq<EntryView>,
    statuses: Seq<PathStatus>,
    i: int,
)
    requires
        0 <= i < entries.len(),
        i < statuses.len(),
        statuses[i] == PathStatus::DanglingLink,
    ensures
        conflicts(entries, statuses).contains(entries[i].target),
{
    lemma_conflicts_members(entries, statuses, entries[i].target);
}

/// The targets of `config_map` that already exist, given the status of each
/// target in the order of the entries; `None` where there is none.
pub fn check_collisions(config_map: &ConfigMap, statuses: &Vec<PathStatus>) -> (found: Option<
    Vec<String>,
>)
    ensures
        found.is_none() <==> conflicts(config_map@, statuses@).len() == 0,
        found.is_some() ==> found.unwrap().deep_view() == conflicts(config_map@, statuses@),
{
    let mut found: Vec<String> = Vec::new();
    let mut i: usize = 0;
    let ghost entries = config_map@;
    while i < config_map.entries.len()
        invariant
            i <= config_map.entries.len(),
            entries == config_map@,
            found.deep_view() == conflicts(entries.subrange(0, i as int), statuses@),
        decreases config_map.entries.len() - i,
    {
        proof {
            let upto = entries.subrange(0, i + 1);
            assert(upto.drop_last() =~= entries.subrange(0, i as int));
            assert(upto[i as int].target == config_map.entries[i as int].target@);
        }
        if i < statuses.len() && statuses[i].is_occupied() {
            let ghost before = found.deep_view();
            found.push(config_map.entries[i].target.clone());
            assert(found.deep_view() =~= before.push(config_map.entries[i as int].target@));
        }
        i = i + 1;
    }
    assert(entries.subrange(0, i as int) =~= entries);
    if found.len() > 0 {
        Some(found)
    } else {
        None
    }
}

/// The lines that name the conflicts, one for each.
pub open spec fn conflict_lines(found: Seq<Seq<char>>) -> Seq<char>
    decreases found.len(),
{
    if found.len() == 0 {
        Seq::empty()
    } else {
        conflict_lines(found.drop_last()) + "\n  "@ + found.last()
    }
}

/// The question put to the user when targets are occupied.
pub open spec fn prompt_text(found: Seq<Seq<char>>, backup_dir: Seq<char>) -> Seq<char> {
    "The following configurations already exist:"@ + conflict_lines(found)
        + "\nIf you continue, backups will be made in "@ + backup_dir
        + ". Any configurations there will be overwritten.\nContinue? Enter Y/y or N/n: "@
}

/// The question put to the user when the targets `found` are occupied.
pub fn prompt_message(found: &Vec<String>, backup_dir: &str) -> (message: String)
    ensures
        message@ == prompt_text(found.deep_view(), backup_dir@),
{
    let head = "The following configurations already exist:";
    let mut message = head.to_owned();
    let mut i: usize = 0;
    let ghost all = found.deep_view();
    while i < found.len()
        invariant
            i <= found.len(),
            all == found.deep_view(),
            message@ == head@ + conflict_lines(all.subrange(0, i as int)),
        decreases found.len() - i,
    {
        proof {
            let upto = all.subrange(0, i + 1);
            assert(upto.drop_last() =~= all.subrange(0, i as int));
            assert(head@ + (conflict_lines(upto.drop_last()) + "\n  "@ + upto.last()) =~= head@
                + conflict_lines(upto.drop_last()) + "\n  "@ + found[i as int]@);
        }
        message.append("\n  ");
        message.append(found[i].as_str());
        i = i + 1;
    }
    assert(all.subrange(0, i as int) =~= all);
    message.append("\nIf you continue, backups will be made in ");
    message.append(backup_dir);
    message.append(
        ". Any configurations there will be overwritten.\nContinue? Enter Y/y or N/n: ",
    );
    message
}

/// The error for a run that the user has called off.
pub open spec fn aborted_view() -> ErrorView {
    error_view(KindTag::Other, "User aborted installation"@, "Aborted"@)
}

/// The error for a run that the user has called off.
pub fn aborted() -> (e: Error)
    ensures
        e@ == aborted_view(),
{
    Error::new(ErrorKind::Other("User aborted installation".to_owned()), "Aborted".to_owned())
}

/// The options with which a conflicting directory is moved out of the way
/// or back: it goes inside the destination, and replaces what is there
/// only when `force` is set.
pub open spec fn transfer_options(force: bool) -> MoveOptions {
    MoveOptions { copy_inside: true, overwrite: force }
}

/// The request that moves one entry, `name` at the path `from`, into the
/// directory `to_dir`, keeping its name: a directory is moved as a whole,
/// anything else as a file.
pub open spec fn transfer(
    from: Seq<char>,
    name: Seq<char>,
    status: PathStatus,
    to_dir: Seq<char>,
    force: bool,
) -> ActionView {
    if status == PathStatus::Directory {
        ActionView::MoveDir { from, to: to_dir, options: transfer_options(force) }
    } else {
        ActionView::MoveFile { from, to: join(to_dir, name) }
    }
}

/// The request that backs up the occupied target of `entry`.
pub open spec fn backup_of(entry: EntryView, status: PathStatus, backup_dir: Seq<char>, force: bool)
    -> ActionView {
    transfer(entry.target, entry.name, status, backup_dir, force)
}

/// The request that moves the occupied target of `entry` into `backup_dir`,
/// under the entry's name.
pub fn backup_config(entry: &ConfigEntry, status: PathStatus, backup_dir: &str, force: bool)
    -> (action: Action)
    ensures
        action@ == backup_of(entry@, status, backup_dir@, force),
{
    if status.is_dir() {
        let options = MoveOptions { copy_inside: true, overwrite: force };
        move_dir(entry.target.as_str(), backup_dir, Some(options))
    } else {
        let place = join_path(backup_dir, entry.name.as_str());
        move_file(entry.target.as_str(), place.as_str())
    }
}

/// The requests that back up every occupied target, in the order of the
/// entries.
pub open spec fn backup_plan(
    entries: Seq<EntryView>,
    statuses: Seq<PathStatus>,
    backup_dir: Seq<char>,
    force: bool,
) -> Seq<ActionView>
    decreases entries.len(),
{
    if entries.len() == 0 {
        Seq::empty()
    } else {
        let before = backup_plan(entries.drop_last(), statuses, backup_dir, force);
        let last = entries.len() - 1;
        if last < statuses.len() && statuses[last].occupied() {
            before.push(backup_of(entries[last], statuses[last], backup_dir, force))
        } else {
            before
        }
    }
}

/// The requests that back up every occupied target of `config_map`.
pub fn plan_backups(
    config_map: &ConfigMap,
    statuses: &Vec<PathStatus>,
    backup_dir: &str,
    force: bool,
) -> (plan: Vec<Action>)
    ensures
        action_views(plan@) == backup_plan(config_map@, statuses@, backup_dir@, force),
        plan.len() == backup_plan(config_map@, statuses@, backup_dir@, force).len(),
{
    let mut plan: Vec<Action> = Vec::new();
    let mut i: usize = 0;
    let ghost entries = config_map@;
    assert(action_views(plan@) =~= Seq::<ActionView>::empty());
    while i < config_map.entries.len()
        invariant
            i <= config_map.entries.len(),
            entries == config_map@,
            action_views(plan@) == backup_plan(
                entries.subrange(0, i as int),
                statuses@,
                backup_dir@,
                force,
            ),
        decreases config_map.entries.len() - i,
    {
        proof {
            let upto = entries.subrange(0, i + 1);
            assert(upto.drop_last() =~= entries.subrange(0, i as int));
            assert(upto[i as int] == config_map.entries[i as int]@);
        }
        if i < statuses.len() && statuses[i].is_occupied() {
            let ghost before = action_views(plan@);
            let action = backup_config(&config_map.entries[i], statuses[i], backup_dir, force);
            plan.push(action);
            assert(action_views(plan@) =~= before.push(action@));
        }
        i = i + 1;
    }
    assert(entries.subrange(0, i as int) =~= entries);
    plan
}

/// The request that links the target of `entry` to its source.
pub open spec fn link_of(entry: EntryView) -> ActionView {
    ActionView::Symlink { source: entry.source, target: entry.target }
}

/// The requests that install every entry, in their order.
pub open spec fn link_plan(entries: Seq<EntryView>) -> Seq<ActionView> {
    entries.map_values(|e: EntryView| link_of(e))
}

/// The requests that install every entry of `config_map`.
pub fn plan_links(config_map: &ConfigMap) -> (plan: Vec<Action>)
    ensures
        action_views(plan@) == link_plan(config_map@),
        plan.len() == config_map@.len(),
{
    let mut plan: Vec<Action> = Vec::new();
    let mut i: usize = 0;
    while i < config_map.entries.len()
        invariant
            i <= config_map.entries.len(),
            plan.len() == i,
            forall|k: int| 0 <= k < i ==> (#[trigger] plan[k])@ == link_of(config_map@[k]),
        decreases config_map.entries.len() - i,
    {
        let entry = &config_map.entries[i];
        plan.push(Action::Symlink { source: entry.source.clone(), target: entry.target.clone() });
        i = i + 1;
    }
    assert(action_views(plan@) =~= link_plan(config_map@));
    plan
}

/// The request that moves the backed-up entry `name` back into the install
/// directory.
pub open spec fn restore_of(
    name: Seq<char>,
    status: PathStatus,
    backup_dir: Seq<char>,
    install_dir: Seq<char>,
    force: bool,
) -> ActionView {
    transfer(join(backup_dir, name), name, status, install_dir, force)
}

/// The requests that move every entry of the backup directory back, in the
/// order of `names`. A name for which no status was given is moved as a
/// file.
pub open spec fn restore_plan(
    names: Seq<Seq<char>>,
    statuses: Seq<PathStatus>,
    backup_dir: Seq<char>,
    install_dir: Seq<char>,
    force: bool,
) -> Seq<ActionView> {
    Seq::new(
        names.len(),
        |i: int|
            restore_of(
                names[i],
                if i < statuses.len() {
                    statuses[i]
                } else {
                    PathStatus::File
                },
                backup_dir,
                install_dir,
                force,
            ),
    )
}

/// The paths of `names` under `dir`, in their order.
pub open spec fn paths_under(dir: Seq<char>, names: Seq<Seq<char>>) -> Seq<Seq<char>> {
    Seq::new(names.len(), |i: int| join(dir, names[i]))
}

/// The paths of `names` under `dir`.
pub fn paths_in(dir: &str, names: &Vec<String>) -> (paths: Vec<String>)
    ensures
        paths.deep_view() == paths_under(dir@, names.deep_view()),
{
    let mut paths: Vec<String> = Vec::new();
    let mut i: usize = 0;
    while i < names.len()
        invariant
            i <= names.len(),
            paths.len() == i,
            forall|k: int| 0 <= k < i ==> (#[trigger] paths[k])@ == join(dir@, names[k]@),
        decreases names.len() - i,
    {
        paths.push(join_path(dir, names[i].as_str()));
        i = i + 1;
    }
    assert(paths.deep_view() =~= paths_under(dir@, names.deep_view()));
    paths
}

/// The requests that move every entry of the backup directory back into
/// the install directory.
pub fn plan_restore(
    names: &Vec<String>,
    statuses: &Vec<PathStatus>,
    backup_dir: &str,
    install_dir: &str,
    force: bool,
) -> (plan: Vec<Action>)
    ensures
        action_views(plan@) == restore_plan(
            names.deep_view(),
            statuses@,
            backup_dir@,
            install_dir@,
            force,
        ),
        plan.len() == names.len(),
{
    let mut plan: Vec<Action> = Vec::new();
    let mut i: usize = 0;
    while i < names.len()
        invariant
            i <= names.len(),
            plan.len() == i,
            forall|k: int|
                0 <= k < i ==> (#[trigger] plan[k])@ == restore_plan(
                    names.deep_view(),
                    statuses@,
                    backup_dir@,
                    install_dir@,
                    force,
                )[k],
        decreases names.len() - i,
    {
        let status = if i < statuses.len() {
            statuses[i]
        } else {
            PathStatus::File
        };
        let from = join_path(backup_dir, names[i].as_str());
        let action = if status.is_dir() {
            let options = MoveOptions { copy_inside: true, overwrite: force };
            move_dir(from.as_str(), install_dir, Some(options))
        } else {
            let place = join_path(install_dir, names[i].as_str());
            move_file(from.as_str(), place.as_str())
        };
        plan.push(action);
        i = i + 1;
    }
    assert(action_views(plan@) =~= restore_plan(
        names.deep_view(),
        statuses@,
        backup_dir@,
        install_dir@,
        force,
    ));
    plan
}

/// Whether the run put the entry `name` where nothing was before: its
/// place in the install directory was no conflict at the start.
pub open spec fn is_fresh(install_dir: Seq<char>, name: Seq<char>, original: Seq<Seq<char>>)
    -> bool {
    !original.contains(join(install_dir, name))
}

/// The requests that remove what the run has added: for each name, in
/// their order, the removal of its place in the install directory, if that
/// place was no conflict at the start and is occupied now.
pub open spec fn cleanup_plan(
    names: Seq<Seq<char>>,
    statuses: Seq<PathStatus>,
    install_dir: Seq<char>,
    original: Seq<Seq<char>>,
) -> Seq<ActionView>
    decreases names.len(),
{
    if names.len() == 0 {
        Seq::empty()
    } else {
        let before = cleanup_plan(names.drop_last(), statuses, install_dir, original);
        let last = names.len() - 1;
        if is_fresh(install_dir, names[last], original) && last < statuses.len()
            && statuses[last].occupied() {
            before.push(ActionView::RemoveFile { path: join(install_dir, names[last]) })
        } else {
            before
        }
    }
}

/// Whether `path` is one of `paths`.
pub fn contains_path(paths: &Vec<String>, path: &String) -> (found: bool)
    ensures
        found == paths.deep_view().contains(path@),
{
    let mut i: usize = 0;
    while i < paths.len()
        invariant
            i <= paths.len(),
            forall|k: int| 0 <= k < i ==> paths[k]@ != path@,
        decreases paths.len() - i,
    {
        if paths[i] == *path {
            assert(paths.deep_view()[i as int] == path@);
            return true;
        }
        i = i + 1;
    }
    assert forall|k: int| 0 <= k < paths.deep_view().len() implies paths.deep_view()[k]
        != path@ by {
        assert(paths.deep_view()[k] == paths[k]@);
    }
    false
}

/// The requests that remove what the run has added to the install
/// directory.
pub fn plan_cleanup(
    names: &Vec<String>,
    statuses: &Vec<PathStatus>,
    install_dir: &str,
    original: &Vec<String>,
) -> (plan: Vec<Action>)
    ensures
        action_views(plan@) == cleanup_plan(
            names.deep_view(),
            statuses@,
            install_dir@,
            original.deep_view(),
        ),
        plan.len() == cleanup_plan(
            names.deep_view(),
            statuses@,
            install_dir@,
            original.deep_view(),
        ).len(),
{
    let mut plan: Vec<Action> = Vec::new();
    let mut i: usize = 0;
    let ghost all = names.deep_view();
    assert(action_views(plan@) =~= Seq::<ActionView>::empty());
    while i < names.len()
        invariant
            i <= names.len(),
            all == names.deep_view(),
            action_views(plan@) == cleanup_plan(
                all.subrange(0, i as int),
                statuses@,
                install_dir@,
                original.deep_view(),
            ),
        decreases names.len() - i,
    {
        proof {
            let upto = all.subrange(0, i + 1);
            assert(upto.drop_last() =~= all.subrange(0, i as int));
            assert(upto[i as int] == names[i as int]@);
        }
        let place = join_path(install_dir, names[i].as_str());
        if !contains_path(original, &place) && i < statuses.len() && statuses[i].is_occupied() {
            let ghost before = action_views(plan@);
            plan.push(Action::RemoveFile { path: place });
            assert(action_views(plan@) =~= before.push(
                ActionView::RemoveFile { path: join(install_dir@, names[i as int]@) },
            ));
        }
        i = i + 1;
    }
    assert(all.subrange(0, i as int) =~= all);
    plan
}

/// The message for a link that could not be created.
pub open spec fn link_message(source: Seq<char>, target: Seq<char>) -> Seq<char> {
    "Unable to symlink config: "@ + target + " -> "@ + source
}

/// The error for the request `action` that failed with `text`: its kind
/// goes by what was asked, and its message names the paths that were
/// involved.
pub open spec fn failure_view(action: ActionView, text: Seq<char>) -> ErrorView {
    match action {
        ActionView::CloneRepo { url, dir } => clone_error_view(text),
        ActionView::MakeDir { dir } => create_dir_error_view(dir, text),
        ActionView::Canonicalize { path } => abs_error_view(path, text),
        ActionView::MoveDir { from, to, options } => move_dir_error_view(from, to, text),
        ActionView::MoveFile { from, to } => move_file_error_view(from, to, text),
        ActionView::Symlink { source, target } => error_view(
            KindTag::IO,
            text,
            link_message(source, target),
        ),
        ActionView::CountEntries { dir } => io_error_view(dir, text),
        ActionView::ListDir { dir } => io_error_view(dir, text),
        ActionView::RemoveDir { path } => io_error_view(path, text),
        ActionView::RemoveFile { path } => io_error_view(path, text),
        _ => io_error_view(Seq::empty(), text),
    }
}

/// The error for the request `action` that failed with `text`.
pub fn failure(action: &Action, text: &str) -> (e: Error)
    ensures
        e@ == failure_view(action@, text@),
{
    match action {
        Action::CloneRepo { url, dir } => clone_error(text),
        Action::MakeDir { dir } => create_dir_error(dir.as_str(), text),
        Action::Canonicalize { path } => abs_error(path.as_str(), text),
        Action::MoveDir { from, to, options } => move_dir_error(from.as_str(), to.as_str(), text),
        Action::MoveFile { from, to } => move_file_error(from.as_str(), to.as_str(), text),
        Action::Symlink { source, target } => {
            let mut message = joined("Unable to symlink config: ", target.as_str());
            message.append(" -> ");
            message.append(source.as_str());
            Error::new(ErrorKind::IOError(text.to_owned()), message)
        },
        Action::CountEntries { dir } => io_error(dir.as_str(), text),
        Action::ListDir { dir } => io_error(dir.as_str(), text),
        Action::RemoveDir { path } => io_error(path.as_str(), text),
        Action::RemoveFile { path } => io_error(path.as_str(), text),
        _ => {
            proof {
                reveal_strlit("");
                assert(""@ =~= Seq::<char>::empty());
            }
            io_error("", text)
        },
    }
}

} // verus!
