//! Directories and moves: where configurations go, how a request for a
//! move is phrased, and how a failed request is classified.

use vstd::prelude::*;
use vstd::string::*;
use crate::action::{Action, ActionView, Event, EventView, MoveOptions};
use crate::kerror::{Error, ErrorKind, ErrorView, KindTag, KindView};
use crate::kgit::{names_repo, repo_name, repo_name_spec};
use crate::kpath::{file_name, final_name, is_entry_name, join, join_path, lemma_join_injective};

verus! {

/// `a` followed by `b`.
pub fn joined(a: &str, b: &str) -> (text: String)
    ensures
        text@ == a@ + b@,
{
    let mut text = a.to_owned();
    text.append(b);
    text
}

/// An error as a mathematical value, from its parts.
pub open spec fn error_view(tag: KindTag, detail: Seq<char>, message: Seq<char>) -> ErrorView {
    ErrorView { kind: KindView { tag, detail }, message }
}

/// The error for an operation on `path` that failed with `text`.
pub open spec fn io_error_view(path: Seq<char>, text: Seq<char>) -> ErrorView {
    error_view(KindTag::IO, text, "Unable to access: "@ + path)
}

/// The error for an operation on `path` that failed with `text`.
pub fn io_error(path: &str, text: &str) -> (e: Error)
    ensures
        e@ == io_error_view(path@, text@),
{
    Error::new(ErrorKind::IOError(text.to_owned()), joined("Unable to access: ", path))
}

/// The error for an event that does not answer the request before it.
pub open spec fn protocol_error_view() -> ErrorView {
    error_view(
        KindTag::Other,
        "Unexpected event"@,
        "The event does not answer the pending request"@,
    )
}

/// The error for an event that does not answer the request before it.
pub fn protocol_error() -> (e: Error)
    ensures
        e@ == protocol_error_view(),
{
    Error::new(
        ErrorKind::Other("Unexpected event".to_owned()),
        "The event does not answer the pending request".to_owned(),
    )
}

/// The request for the absolute form of `dir`.
pub fn abs(dir: &str) -> (action: Action)
    ensures
        action@ == (ActionView::Canonicalize { path: dir@ }),
{
    Action::Canonicalize { path: dir.to_owned() }
}

/// The error for a `dir` that could not be made absolute.
pub open spec fn abs_error_view(dir: Seq<char>, text: Seq<char>) -> ErrorView {
    error_view(KindTag::IO, text, "Unable to canonicalize dir: "@ + dir)
}

/// The error for a `dir` that could not be made absolute.
pub fn abs_error(dir: &str, text: &str) -> (e: Error)
    ensures
        e@ == abs_error_view(dir@, text@),
{
    Error::new(ErrorKind::IOError(text.to_owned()), joined("Unable to canonicalize dir: ", dir))
}

/// The request to create `dir` with the directories above it.
pub fn create_dir_all(dir: &str) -> (action: Action)
    ensures
        action@ == (ActionView::MakeDir { dir: dir@ }),
{
    Action::MakeDir { dir: dir.to_owned() }
}

/// The error for a `dir` that could not be created.
pub open spec fn create_dir_error_view(dir: Seq<char>, text: Seq<char>) -> ErrorView {
    error_view(KindTag::IO, text, "Unable to create directory: "@ + dir)
}

/// The error for a `dir` that could not be created.
pub fn create_dir_error(dir: &str, text: &str) -> (e: Error)
    ensures
        e@ == create_dir_error_view(dir@, text@),
{
    Error::new(ErrorKind::IOError(text.to_owned()), joined("Unable to create directory: ", dir))
}

/// The request for the number of entries under `dir`.
pub fn dir_entries(dir: &str) -> (action: Action)
    ensures
        action@ == (ActionView::CountEntries { dir: dir@ }),
{
    Action::CountEntries { dir: dir.to_owned() }
}

/// The request to move the file `src` to the path `dst`.
pub fn move_file(src: &str, dst: &str) -> (action: Action)
    ensures
        action@ == (ActionView::MoveFile { from: src@, to: dst@ }),
{
    Action::MoveFile { from: src.to_owned(), to: dst.to_owned() }
}

/// The error for a file that could not be moved.
pub open spec fn move_file_error_view(src: Seq<char>, dst: Seq<char>, text: Seq<char>)
    -> ErrorView {
    error_view(KindTag::File, text, "Cannot move file from "@ + src + " to "@ + dst)
}

/// The error for a file that could not be moved.
pub fn move_file_error(src: &str, dst: &str, text: &str) -> (e: Error)
    ensures
        e@ == move_file_error_view(src@, dst@, text@),
{
    let mut message = joined("Cannot move file from ", src);
    message.append(" to ");
    message.append(dst);
    Error::new(ErrorKind::FileError(text.to_owned()), message)
}

/// The options of a move for which none were given: the directory may
/// become the destination, and nothing is replaced.
pub open spec fn default_move_options() -> MoveOptions {
    MoveOptions { copy_inside: true, overwrite: false }
}

/// The options of a move: those given, else the default ones.
pub open spec fn move_options(options: Option<MoveOptions>) -> MoveOptions {
    match options {
        Some(given) => given,
        None => default_move_options(),
    }
}

/// The request to move the directory `src` to `dst`.
pub fn move_dir(src: &str, dst: &str, options: Option<MoveOptions>) -> (action: Action)
    ensures
        action@ == (ActionView::MoveDir { from: src@, to: dst@, options: move_options(options) }),
{
    let options = match options {
        Some(given) => given,
        None => MoveOptions { copy_inside: true, overwrite: false },
    };
    Action::MoveDir { from: src.to_owned(), to: dst.to_owned(), options }
}

/// The message for a directory that could not be moved.
pub open spec fn move_dir_message(src: Seq<char>, dst: Seq<char>) -> Seq<char> {
    "Cannot move directory from "@ + src + " to "@ + dst
}

/// The error for a directory that could not be moved.
pub open spec fn move_dir_error_view(src: Seq<char>, dst: Seq<char>, text: Seq<char>) -> ErrorView {
    error_view(KindTag::Dir, text, move_dir_message(src, dst))
}

/// The error for a directory that could not be moved.
pub fn move_dir_error(src: &str, dst: &str, text: &str) -> (e: Error)
    ensures
        e@ == move_dir_error_view(src@, dst@, text@),
{
    let mut message = joined("Cannot move directory from ", src);
    message.append(" to ");
    message.append(dst);
    Error::new(ErrorKind::DirError(text.to_owned()), message)
}

/// Where stashed directories are kept, under the system's directory for
/// temporary files.
pub fn get_temp_dir(system_temp: &str) -> (dir: String)
    ensures
        dir@ == join(system_temp@, "kot/expired/"@),
{
    join_path(system_temp, "kot/expired/")
}

/// Where this program keeps its data, under the user's home directory.
pub fn get_data_dir(home: &str) -> (dir: String)
    ensures
        dir@ == join(home@, ".local/share/kot/"@),
{
    join_path(home, ".local/share/kot/")
}

/// Where the repository at `repo_url` is cloned by default.
pub open spec fn repo_path(home: Seq<char>, repo_url: Seq<char>) -> Seq<char> {
    join(
        join(home, ".local/share/kot/"@),
        "dotfiles/"@ + repo_name_spec(repo_url) + seq!['/'],
    )
}

/// Where the repository at `repo_url` is cloned by default.
pub fn get_repo_path(home: &str, repo_url: &str) -> (dir: String)
    requires
        names_repo(repo_url@),
    ensures
        dir@ == repo_path(home@, repo_url@),
{
    let data_dir = get_data_dir(home);
    let name = repo_name(repo_url);
    let mut below = joined("dotfiles/", name.as_str());
    proof {
        reveal_strlit("/");
        assert("/"@ =~= seq!['/']);
    }
    below.append("/");
    join_path(data_dir.as_str(), below.as_str())
}

/// The error for a path that has no final name to go by.
pub open spec fn unnamed_error_view(path: Seq<char>) -> ErrorView {
    error_view(KindTag::Config, path, "The path has no final name"@)
}

/// The error for a path that has no final name to go by.
pub fn unnamed_error(path: &str) -> (e: Error)
    ensures
        e@ == unnamed_error_view(path@),
{
    Error::new(ErrorKind::ConfigError(path.to_owned()), "The path has no final name".to_owned())
}

/// Where the contents of `dir` go when they are stashed: under the
/// directory for stashes, by the final name of `dir`.
pub open spec fn stash_path(dir: Seq<char>, system_temp: Seq<char>) -> Seq<char> {
    join(join(system_temp, "kot/expired/"@), final_name(dir).unwrap())
}

/// The requests that stash a directory which holds entries.
pub open spec fn stash_plan(dir: Seq<char>, system_temp: Seq<char>) -> Seq<ActionView> {
    seq![
        ActionView::MoveDir {
            from: dir,
            to: stash_path(dir, system_temp),
            options: MoveOptions { copy_inside: true, overwrite: true },
        },
        ActionView::MakeDir { dir },
    ]
}

/// The requests that set aside what `dir` holds, given that it holds
/// `count` entries: none for an empty directory; for any other the move of
/// `dir` to its place among the stashes and the request to create it anew,
/// or an error where `dir` has no final name.
pub open spec fn stash_requests(dir: Seq<char>, count: nat, system_temp: Seq<char>) -> Result<
    Seq<ActionView>,
    ErrorView,
> {
    if count == 0 {
        Ok(Seq::empty())
    } else if final_name(dir).is_none() {
        Err(unnamed_error_view(dir))
    } else {
        Ok(stash_plan(dir, system_temp))
    }
}

/// The views of a list of actions.
pub open spec fn action_views(actions: Seq<Action>) -> Seq<ActionView> {
    actions.map_values(|a: Action| a@)
}

/// The requests that set aside what `dir` holds, given that it holds
/// `count` entries.
///
/// An empty directory needs none. Otherwise `dir` is moved to its place
/// among the stashes, replacing what is there, and is then created anew.
/// A `dir` that holds entries and has no final name is refused: it has no
/// place among the stashes.
pub fn stash_dir(dir: &str, count: usize, system_temp: &str) -> (result: Result<Vec<Action>, Error>)
    ensures
        match stash_requests(dir@, count as nat, system_temp@) {
            Ok(plan) => result is Ok && action_views(result.unwrap()@) == plan
                && result.unwrap().len() == plan.len(),
            Err(e) => result is Err && result.unwrap_err()@ == e,
        },
{
    let mut plan: Vec<Action> = Vec::new();
    if count == 0 {
        assert(action_views(plan@) =~= Seq::<ActionView>::empty());
        return Ok(plan);
    }
    match file_name(dir) {
        Some(name) => {
            let root = get_temp_dir(system_temp);
            let place = join_path(root.as_str(), name.as_str());
            let options = MoveOptions { copy_inside: true, overwrite: true };
            plan.push(move_dir(dir, place.as_str(), Some(options)));
            plan.push(create_dir_all(dir));
            assert(action_views(plan@) =~= stash_plan(dir@, system_temp@));
            Ok(plan)
        },
        None => Err(unnamed_error(dir)),
    }
}

/// Where a directory that is moved from `from` to `to` comes to lie: inside
/// `to` under its own name, if `to` exists or nothing else is allowed; else
/// at `to` itself. A `from` without a final name lands nowhere.
pub open spec fn landing(from: Seq<char>, to: Seq<char>, to_exists: bool, copy_inside: bool)
    -> Option<Seq<char>> {
    if to_exists || !copy_inside {
        match final_name(from) {
            Some(name) => Some(join(to, name)),
            None => None,
        }
    } else {
        Some(to)
    }
}

/// Where a directory that is moved from `from` to `to` comes to lie, given
/// whether `to` exists.
pub fn landing_place(from: &str, to: &str, to_exists: bool, options: MoveOptions) -> (place:
    Option<String>)
    ensures
        place.is_some() == landing(from@, to@, to_exists, options.copy_inside).is_some(),
        place.is_some() ==> place.unwrap()@ == landing(
            from@,
            to@,
            to_exists,
            options.copy_inside,
        ).unwrap(),
{
    if to_exists || !options.copy_inside {
        match file_name(from) {
            Some(name) => Some(join_path(to, name.as_str())),
            None => None,
        }
    } else {
        Some(to.to_owned())
    }
}

/// One configuration: its name, where it lies, and where it is installed.
#[derive(Debug)]
pub struct ConfigEntry {
    pub name: String,
    pub source: String,
    pub target: String,
}

/// A [`ConfigEntry`] as a mathematical value.
pub struct EntryView {
    pub name: Seq<char>,
    pub source: Seq<char>,
    pub target: Seq<char>,
}

impl View for ConfigEntry {
    type V = EntryView;

    open spec fn view(&self) -> EntryView {
        EntryView { name: self.name@, source: self.source@, target: self.target@ }
    }
}

/// The configurations to install, each source at most once.
#[derive(Debug)]
pub struct ConfigMap {
    pub entries: Vec<ConfigEntry>,
}

impl View for ConfigMap {
    type V = Seq<EntryView>;

    open spec fn view(&self) -> Seq<EntryView> {
        self.entries@.map_values(|e: ConfigEntry| e@)
    }
}

/// The targets of the entries, in their order.
pub open spec fn targets(entries: Seq<EntryView>) -> Seq<Seq<char>> {
    entries.map_values(|e: EntryView| e.target)
}

impl ConfigMap {
    /// The targets of the configurations, in their order.
    pub fn targets(&self) -> (paths: Vec<String>)
        ensures
            paths.deep_view() == targets(self@),
    {
        let mut paths: Vec<String> = Vec::new();
        let mut i: usize = 0;
        while i < self.entries.len()
            invariant
                i <= self.entries.len(),
                paths.len() == i,
                forall|k: int| 0 <= k < i ==> (#[trigger] paths[k])@ == self@[k].target,
            decreases self.entries.len() - i,
        {
            paths.push(self.entries[i].target.clone());
            i = i + 1;
        }
        assert(paths.deep_view() =~= targets(self@));
        paths
    }

    /// Whether the mapping is one: no source occurs twice.
    pub open spec fn well_formed(&self) -> bool {
        sources_unique(self@)
    }

    /// The number of configurations.
    pub fn len(&self) -> (n: usize)
        ensures
            n == self@.len(),
    {
        self.entries.len()
    }
}

/// The entry for the configuration `name` of `source_dir`.
pub open spec fn entry_for(install_dir: Seq<char>, source_dir: Seq<char>, name: Seq<char>)
    -> EntryView {
    EntryView { name, source: join(source_dir, name), target: join(install_dir, name) }
}

/// Whether one of `entries` has the source `source`.
pub open spec fn has_source(entries: Seq<EntryView>, source: Seq<char>) -> bool {
    exists|i: int| 0 <= i < entries.len() && #[trigger] entries[i].source == source
}

/// No source occurs twice.
pub open spec fn sources_unique(entries: Seq<EntryView>) -> bool {
    forall|i: int, j: int|
        0 <= i < j < entries.len() ==> #[trigger] entries[i].source != #[trigger] entries[j].source
}

/// The entries for `names`, in their order; a name whose source is already
/// there is passed over.
pub open spec fn resolve(install_dir: Seq<char>, source_dir: Seq<char>, names: Seq<Seq<char>>)
    -> Seq<EntryView>
    decreases names.len(),
{
    if names.len() == 0 {
        Seq::empty()
    } else {
        let before = resolve(install_dir, source_dir, names.drop_last());
        let entry = entry_for(install_dir, source_dir, names.last());
        if has_source(before, entry.source) {
            before
        } else {
            before.push(entry)
        }
    }
}

/// The names are those of a directory listing: each is an entry name, and
/// none occurs twice.
pub open spec fn is_listing(names: Seq<Seq<char>>) -> bool {
    &&& forall|i: int| 0 <= i < names.len() ==> is_entry_name(#[trigger] names[i])
    &&& forall|i: int, j: int| 0 <= i < j < names.len() ==> names[i] != names[j]
}

/// Every entry of a resolution comes from one of the names, and no source
/// occurs twice in it.
pub proof fn lemma_resolve_sound(
    install_dir: Seq<char>,
    source_dir: Seq<char>,
    names: Seq<Seq<char>>,
)
    ensures
        resolve(install_dir, source_dir, names).len() <= names.len(),
        sources_unique(resolve(install_dir, source_dir, names)),
        forall|i: int|
            0 <= i < resolve(install_dir, source_dir, names).len() ==> exists|k: int|
                0 <= k < names.len() && #[trigger] resolve(install_dir, source_dir, names)[i]
                    == entry_for(install_dir, source_dir, names[k]),
    decreases names.len(),
{
    if names.len() > 0 {
        let shorter = names.drop_last();
        lemma_resolve_sound(install_dir, source_dir, shorter);
        let before = resolve(install_dir, source_dir, shorter);
        let all = resolve(install_dir, source_dir, names);
        assert forall|i: int| 0 <= i < all.len() implies exists|k: int|
            0 <= k < names.len() && #[trigger] all[i] == entry_for(
                install_dir,
                source_dir,
                names[k],
            ) by {
            if i < before.len() {
                let k = choose|k: int|
                    0 <= k < shorter.len() && before[i] == entry_for(
                        install_dir,
                        source_dir,
                        shorter[k],
                    );
                assert(names[k] == shorter[k]);
            } else {
                assert(all[i] == entry_for(install_dir, source_dir, names[names.len() - 1]));
            }
        }
    }
}

/// Law: a listing of N names resolves to exactly N pairs, the i-th of them
/// for the i-th name, its target the install directory joined with the
/// name.
pub proof fn lemma_resolve_listing(
    install_dir: Seq<char>,
    source_dir: Seq<char>,
    names: Seq<Seq<char>>,
)
    requires
        is_listing(names),
    ensures
        resolve(install_dir, source_dir, names).len() == names.len(),
        forall|i: int|
            0 <= i < names.len() ==> #[trigger] resolve(install_dir, source_dir, names)[i]
                == entry_for(install_dir, source_dir, names[i]),
        forall|i: int|
            0 <= i < names.len() ==> (#[trigger] resolve(install_dir, source_dir, names)[i]).target
                == join(install_dir, names[i]),
    decreases names.len(),
{
    if names.len() > 0 {
        let shorter = names.drop_last();
        assert(is_listing(shorter));
        lemma_resolve_listing(install_dir, source_dir, shorter);
        let before = resolve(install_dir, source_dir, shorter);
        let entry = entry_for(install_dir, source_dir, names.last());
        if has_source(before, entry.source) {
            let i = choose|i: int| 0 <= i < before.len() && #[trigger] before[i].source
                == entry.source;
            assert(before[i] == entry_for(install_dir, source_dir, shorter[i]));
            lemma_join_injective(source_dir, names[i], names.last());
        }
    }
}

/// Whether one of the entries has the source `source`.
fn contains_source(entries: &Vec<ConfigEntry>, source: &String) -> (found: bool)
    ensures
        found == has_source(entries@.map_values(|e: ConfigEntry| e@), source@),
{
    let ghost views = entries@.map_values(|e: ConfigEntry| e@);
    let mut i: usize = 0;
    while i < entries.len()
        invariant
            i <= entries.len(),
            views == entries@.map_values(|e: ConfigEntry| e@),
            forall|k: int| 0 <= k < i ==> (#[trigger] views[k]).source != source@,
        decreases entries.len() - i,
    {
        if entries[i].source == *source {
            assert(views[i as int].source == source@);
            return true;
        }
        i = i + 1;
    }
    false
}

/// The configurations of a source directory and where each is installed,
/// from what listing that directory gave.
///
/// A listing gives the mapping of its names; a failure to list gives an
/// I/O error with the text of the failure and the path of the directory;
/// any other event is refused.
pub fn get_target_paths(install_dir: &str, dotfiles: &str, listing: &Event) -> (result: Result<
    ConfigMap,
    Error,
>)
    ensures
        match listing@ {
            EventView::Listing(names) => result is Ok && result.unwrap().well_formed()
                && result.unwrap()@ == resolve(install_dir@, dotfiles@, names),
            EventView::Failed(text) => result is Err && result.unwrap_err()@ == io_error_view(
                dotfiles@,
                text,
            ),
            _ => result is Err && result.unwrap_err()@ == protocol_error_view(),
        },
{
    match listing {
        Event::Listing(names) => {
            let mut entries: Vec<ConfigEntry> = Vec::new();
            let mut i: usize = 0;
            let ghost all = names.deep_view();
            while i < names.len()
                invariant
                    i <= names.len(),
                    all == names.deep_view(),
                    entries@.map_values(|e: ConfigEntry| e@) == resolve(
                        install_dir@,
                        dotfiles@,
                        all.subrange(0, i as int),
                    ),
                decreases names.len() - i,
            {
                let name = names[i].clone();
                let source = join_path(dotfiles, name.as_str());
                let target = join_path(install_dir, name.as_str());
                let found = contains_source(&entries, &source);
                proof {
                    let upto = all.subrange(0, i + 1);
                    assert(upto.drop_last() =~= all.subrange(0, i as int));
                    assert(upto.last() == names[i as int]@);
                }
                let ghost before = entries@.map_values(|e: ConfigEntry| e@);
                if !found {
                    entries.push(ConfigEntry { name, source, target });
                    assert(entries@.map_values(|e: ConfigEntry| e@) =~= before.push(
                        entry_for(install_dir@, dotfiles@, names[i as int]@),
                    ));
                }
                i = i + 1;
            }
            proof {
                assert(all.subrange(0, names.len() as int) =~= all);
                lemma_resolve_sound(install_dir@, dotfiles@, all);
            }
            Ok(ConfigMap { entries })
        },
        Event::Failed(text) => Err(io_error(dotfiles, text.as_str())),
        _ => Err(protocol_error()),
    }
}

} // verus!
