//! The central law of the engine: a run that is rolled back, or reversed
//! after it went well, leaves the file system as it found it.

use vstd::prelude::*;
use crate::action::{ActionView, PathStatus};
use crate::kfs::{entry_for, is_listing, lemma_resolve_listing, resolve, targets, EntryView};
use crate::kpath::{is_entry_name, join, lemma_final_name_of_join, lemma_join_injective, sep};
use crate::laws::{detect, is_cleared, is_target, lemma_cleanup_effect, lemma_installed};
use crate::plan::{
    backup_of, backup_plan, cleanup_plan, lemma_conflicts_members, link_plan, paths_under,
    restore_of, restore_plan,
};
use crate::world::{apply_all, effect, entries_under, lists, observe, status_of, World};

verus! {

/// The directories of a run and the names that the source directory holds.
pub struct Scene {
    pub install_dir: Seq<char>,
    pub source_dir: Seq<char>,
    pub backup_dir: Seq<char>,
    pub names: Seq<Seq<char>>,
    pub force: bool,
}

impl Scene {
    /// The configurations of the scene.
    pub open spec fn entries(self) -> Seq<EntryView> {
        resolve(self.install_dir, self.source_dir, self.names)
    }

    /// The place of the `i`-th configuration in the install directory.
    pub open spec fn target(self, i: int) -> Seq<char> {
        join(self.install_dir, self.names[i])
    }

    /// The place of the `i`-th configuration in the backup directory.
    pub open spec fn place(self, i: int) -> Seq<char> {
        join(self.backup_dir, self.names[i])
    }

    /// Whether `path` is the place of one of the first `m` configurations
    /// in the install directory.
    pub open spec fn targeted(self, m: int, path: Seq<char>) -> bool {
        exists|i: int| 0 <= i < m && #[trigger] self.target(i) == path
    }

    /// Whether `path` is the place in the backup directory of one of the
    /// first `m` configurations whose target is occupied in `w`.
    pub open spec fn kept(self, w: World, m: int, path: Seq<char>) -> bool {
        exists|i: int| 0 <= i < m && w.contains_key(self.target(i)) && #[trigger] self.place(i)
            == path
    }

    /// Whether `name` is the name of a configuration whose target is
    /// occupied in `w`.
    pub open spec fn in_conflict(self, w: World, name: Seq<char>) -> bool {
        exists|j: int|
            0 <= j < self.names.len() && w.contains_key(self.target(j)) && #[trigger] self.names[j]
                == name
    }

    /// What the run may rely on: the source directory was listed; the
    /// install and backup directories exist, and the backup directory is
    /// empty; no configuration has its place in one directory where another
    /// has its place in the other, or where one of the directories lies.
    pub open spec fn settled(self, w: World) -> bool {
        &&& is_listing(self.names)
        &&& w.contains_key(self.install_dir)
        &&& w.contains_key(self.backup_dir)
        &&& entries_under(w, self.backup_dir) =~= Set::empty()
        &&& forall|i: int, j: int|
            0 <= i < self.names.len() && 0 <= j < self.names.len() ==> #[trigger] self.place(i)
                != #[trigger] self.target(j)
        &&& forall|i: int|
            0 <= i < self.names.len() ==> #[trigger] self.target(i) != self.backup_dir
        &&& forall|i: int|
            0 <= i < self.names.len() ==> #[trigger] self.place(i) != self.install_dir
    }
}

/// An entry placed under a directory lies at another path than the
/// directory.
pub proof fn lemma_join_differs(dir: Seq<char>, name: Seq<char>)
    requires
        is_entry_name(name),
    ensures
        join(dir, name) != dir,
{
    assert(name[0] != sep()) by {
        assert(name.contains(name[0]));
    }
    assert(join(dir, name).len() > dir.len());
}

/// The facts about the places of a settled scene that the proofs below go
/// by.
pub proof fn lemma_scene_places(scene: Scene, w: World)
    requires
        scene.settled(w),
    ensures
        scene.entries().len() == scene.names.len(),
        forall|i: int|
            0 <= i < scene.names.len() ==> #[trigger] scene.entries()[i] == entry_for(
                scene.install_dir,
                scene.source_dir,
                scene.names[i],
            ),
        forall|i: int, j: int|
            0 <= i < scene.names.len() && 0 <= j < scene.names.len() && i != j
                ==> #[trigger] scene.target(i) != #[trigger] scene.target(j),
        forall|i: int, j: int|
            0 <= i < scene.names.len() && 0 <= j < scene.names.len() && i != j
                ==> #[trigger] scene.place(i) != #[trigger] scene.place(j),
        forall|i: int|
            0 <= i < scene.names.len() ==> #[trigger] scene.target(i) != scene.install_dir,
        forall|i: int|
            0 <= i < scene.names.len() ==> #[trigger] scene.place(i) != scene.backup_dir,
        forall|i: int| 0 <= i < scene.names.len() ==> !w.contains_key(#[trigger] scene.place(i)),
{
    lemma_resolve_listing(scene.install_dir, scene.source_dir, scene.names);
    let n = scene.names.len();
    assert forall|i: int, j: int| 0 <= i < n && 0 <= j < n && i != j implies #[trigger] scene.target(
        i,
    ) != #[trigger] scene.target(j) by {
        if scene.target(i) == scene.target(j) {
            lemma_join_injective(scene.install_dir, scene.names[i], scene.names[j]);
        }
    }
    assert forall|i: int, j: int| 0 <= i < n && 0 <= j < n && i != j implies #[trigger] scene.place(
        i,
    ) != #[trigger] scene.place(j) by {
        if scene.place(i) == scene.place(j) {
            lemma_join_injective(scene.backup_dir, scene.names[i], scene.names[j]);
        }
    }
    assert forall|i: int| 0 <= i < scene.names.len() implies #[trigger] scene.target(i)
        != scene.install_dir by {
        lemma_join_differs(scene.install_dir, scene.names[i]);
    }
    assert forall|i: int| 0 <= i < scene.names.len() implies #[trigger] scene.place(i)
        != scene.backup_dir by {
        lemma_join_differs(scene.backup_dir, scene.names[i]);
    }
    assert forall|i: int| 0 <= i < scene.names.len() implies !w.contains_key(
        #[trigger] scene.place(i),
    ) by {
        assert(entries_under(w, scene.backup_dir).contains(scene.names[i]) == (is_entry_name(
            scene.names[i],
        ) && w.contains_key(join(scene.backup_dir, scene.names[i]))));
    }
}

/// The file system after the conflicts among the first `m` configurations
/// were backed up.
pub open spec fn backed_up(scene: Scene, w: World, m: int) -> World {
    apply_all(
        w,
        backup_plan(
            scene.entries().take(m),
            observe(w, targets(scene.entries())),
            scene.backup_dir,
            scene.force,
        ),
    )
}

/// The backup moves every occupied target to its place in the backup
/// directory and leaves everything else as it was.
pub proof fn lemma_backup_effect(scene: Scene, w: World, m: int)
    requires
        scene.settled(w),
        0 <= m <= scene.names.len(),
    ensures
        forall|p: Seq<char>| #[trigger]
            backed_up(scene, w, m).contains_key(p) <==> (w.contains_key(p) && !scene.targeted(
                m,
                p,
            )) || scene.kept(w, m, p),
        forall|i: int|
            0 <= i < m && w.contains_key(scene.target(i)) ==> backed_up(
                scene,
                w,
                m,
            )[#[trigger] scene.place(i)] == w[scene.target(i)],
        forall|p: Seq<char>|
            w.contains_key(p) && !scene.targeted(m, p) && !scene.kept(w, m, p)
                ==> #[trigger] backed_up(scene, w, m)[p] == w[p],
    decreases m,
{
    lemma_scene_places(scene, w);
    let entries = scene.entries();
    let found = observe(w, targets(entries));
    if m == 0 {
        assert(entries.take(0) =~= Seq::<EntryView>::empty());
    } else {
        let last = m - 1;
        lemma_backup_effect(scene, w, last);
        let before = backed_up(scene, w, last);
        let after = backed_up(scene, w, m);
        let upto = entries.take(m);
        assert(upto.drop_last() =~= entries.take(last));
        assert(upto[last] == entries[last]);
        let plan_before = backup_plan(entries.take(last), found, scene.backup_dir, scene.force);
        let plan = backup_plan(upto, found, scene.backup_dir, scene.force);
        assert(entries[last].target == scene.target(last));
        assert(targets(entries)[last] == scene.target(last));
        assert(found[last] == status_of(w, scene.target(last)));
        let from = scene.target(last);
        let to = scene.place(last);
        if w.contains_key(from) {
            assert(found[last].occupied());
            lemma_final_name_of_join(scene.install_dir, scene.names[last]);
            assert(!scene.targeted(last, from)) by {
                if scene.targeted(last, from) {
                    let i = choose|i: int| 0 <= i < last && #[trigger] scene.target(i) == from;
                    assert(scene.target(i) != scene.target(last));
                }
            }
            assert(!scene.kept(w, last, from)) by {
                if scene.kept(w, last, from) {
                    let i = choose|i: int|
                        0 <= i < last && w.contains_key(scene.target(i)) && #[trigger] scene.place(
                            i,
                        ) == from;
                    assert(scene.place(i) != scene.target(last));
                }
            }
            assert(before.contains_key(from));
            assert(before[from] == w[from]);
            assert(!scene.targeted(last, scene.backup_dir)) by {
                if scene.targeted(last, scene.backup_dir) {
                    let i = choose|i: int|
                        0 <= i < last && #[trigger] scene.target(i) == scene.backup_dir;
                    assert(scene.target(i) != scene.backup_dir);
                }
            }
            assert(before.contains_key(scene.backup_dir));
            let action = backup_of(entries[last], found[last], scene.backup_dir, scene.force);
            assert(effect(before, action) == before.remove(from).insert(to, w[from]));
            assert(plan == plan_before.push(action));
            assert(plan.drop_last() =~= plan_before);
            assert(after == before.remove(from).insert(to, w[from]));
        } else {
            assert(!found[last].occupied());
            assert(plan == plan_before);
            assert(after == before);
        }
        assert forall|p: Seq<char>|
            scene.targeted(m, p) <==> (scene.targeted(last, p) || p == from) by {
            if scene.targeted(m, p) {
                let i = choose|i: int| 0 <= i < m && #[trigger] scene.target(i) == p;
                if i < last {
                    assert(scene.targeted(last, p));
                }
            }
            if scene.targeted(last, p) {
                let i = choose|i: int| 0 <= i < last && #[trigger] scene.target(i) == p;
                assert(scene.target(i) == p);
            }
            if p == from {
                assert(scene.target(last) == p);
            }
        }
        assert forall|p: Seq<char>|
            scene.kept(w, m, p) <==> (scene.kept(w, last, p) || (w.contains_key(from) && p
                == to)) by {
            if scene.kept(w, m, p) {
                let i = choose|i: int|
                    0 <= i < m && w.contains_key(scene.target(i)) && #[trigger] scene.place(i)
                        == p;
                if i < last {
                    assert(scene.kept(w, last, p));
                }
            }
            if scene.kept(w, last, p) {
                let i = choose|i: int|
                    0 <= i < last && w.contains_key(scene.target(i)) && #[trigger] scene.place(i)
                        == p;
                assert(scene.place(i) == p);
            }
            if w.contains_key(from) && p == to {
                assert(scene.place(last) == p);
            }
        }
        assert forall|i: int|
            0 <= i < m && w.contains_key(scene.target(i)) implies after[#[trigger] scene.place(i)]
            == w[scene.target(i)] by {
            if i < last {
                assert(scene.place(i) != scene.place(last));
                assert(scene.place(i) != scene.target(last));
            }
        }
        assert forall|p: Seq<char>| #[trigger]
            after.contains_key(p) <==> (w.contains_key(p) && !scene.targeted(m, p)) || scene.kept(
                w,
                m,
                p,
            ) by {
            if p == to && w.contains_key(from) {
            } else if p == from {
                if scene.kept(w, last, p) {
                    let i = choose|i: int|
                        0 <= i < last && w.contains_key(scene.target(i)) && #[trigger] scene.place(
                            i,
                        ) == p;
                    assert(scene.place(i) != scene.target(last));
                }
            } else {
            }
        }
    }
}

/// What is needed to move the entries `held` of the backup directory
/// back.
pub struct Return {
    pub install_dir: Seq<char>,
    pub backup_dir: Seq<char>,
    pub held: Seq<Seq<char>>,
    pub force: bool,
}

impl Return {
    /// Where the `i`-th entry lies in the backup directory.
    pub open spec fn from(self, i: int) -> Seq<char> {
        join(self.backup_dir, self.held[i])
    }

    /// Where the `i`-th entry goes in the install directory.
    pub open spec fn to(self, i: int) -> Seq<char> {
        join(self.install_dir, self.held[i])
    }

    /// Whether `path` is where one of the first `m` entries lies.
    pub open spec fn taken(self, m: int, path: Seq<char>) -> bool {
        exists|i: int| 0 <= i < m && #[trigger] self.from(i) == path
    }

    /// Whether `path` is where one of the first `m` entries goes.
    pub open spec fn given(self, m: int, path: Seq<char>) -> bool {
        exists|i: int| 0 <= i < m && #[trigger] self.to(i) == path
    }

    /// The entries were listed and lie in the backup directory; the install
    /// directory exists; no entry goes where another lies, and none lies
    /// where the install directory is.
    pub open spec fn possible(self, w: World) -> bool {
        &&& is_listing(self.held)
        &&& w.contains_key(self.install_dir)
        &&& forall|i: int| 0 <= i < self.held.len() ==> w.contains_key(#[trigger] self.from(i))
        &&& forall|i: int, j: int|
            0 <= i < self.held.len() && 0 <= j < self.held.len() ==> #[trigger] self.from(i)
                != #[trigger] self.to(j)
        &&& forall|i: int| 0 <= i < self.held.len() ==> #[trigger] self.from(i) != self.install_dir
    }

    /// The file system after the first `m` entries were moved back.
    pub open spec fn restored(self, w: World, m: int) -> World {
        apply_all(
            w,
            restore_plan(
                self.held.take(m),
                observe(w, paths_under(self.backup_dir, self.held)),
                self.backup_dir,
                self.install_dir,
                self.force,
            ),
        )
    }
}

/// The restore moves every entry of the backup directory to its place in
/// the install directory and leaves everything else as it was.
pub proof fn lemma_restore_effect(r: Return, w: World, m: int)
    requires
        r.possible(w),
        0 <= m <= r.held.len(),
    ensures
        forall|p: Seq<char>| #[trigger]
            r.restored(w, m).contains_key(p) <==> (w.contains_key(p) && !r.taken(m, p)) || r.given(
                m,
                p,
            ),
        forall|i: int| 0 <= i < m ==> r.restored(w, m)[#[trigger] r.to(i)] == w[r.from(i)],
        forall|p: Seq<char>|
            w.contains_key(p) && !r.taken(m, p) && !r.given(m, p) ==> #[trigger] r.restored(w, m)[p]
                == w[p],
    decreases m,
{
    let found = observe(w, paths_under(r.backup_dir, r.held));
    if m == 0 {
        assert(restore_plan(r.held.take(0), found, r.backup_dir, r.install_dir, r.force)
            =~= Seq::<ActionView>::empty());
    } else {
        let last = m - 1;
        lemma_restore_effect(r, w, last);
        let before = r.restored(w, last);
        let after = r.restored(w, m);
        let plan_before = restore_plan(
            r.held.take(last),
            found,
            r.backup_dir,
            r.install_dir,
            r.force,
        );
        let plan = restore_plan(r.held.take(m), found, r.backup_dir, r.install_dir, r.force);
        let action = restore_of(r.held[last], found[last], r.backup_dir, r.install_dir, r.force);
        assert(plan.drop_last() =~= plan_before);
        assert(plan.last() == action);
        let from = r.from(last);
        let to = r.to(last);
        lemma_final_name_of_join(r.backup_dir, r.held[last]);
        assert(!r.taken(last, from)) by {
            if r.taken(last, from) {
                let i = choose|i: int| 0 <= i < last && #[trigger] r.from(i) == from;
                lemma_join_injective(r.backup_dir, r.held[i], r.held[last]);
            }
        }
        assert(!r.given(last, from)) by {
            if r.given(last, from) {
                let i = choose|i: int| 0 <= i < last && #[trigger] r.to(i) == from;
                assert(r.from(last) != r.to(i));
            }
        }
        assert(!r.taken(last, r.install_dir)) by {
            if r.taken(last, r.install_dir) {
                let i = choose|i: int| 0 <= i < last && #[trigger] r.from(i) == r.install_dir;
                assert(r.from(i) != r.install_dir);
            }
        }
        assert(before.contains_key(from) && before[from] == w[from]);
        assert(before.contains_key(r.install_dir));
        assert(effect(before, action) == before.remove(from).insert(to, w[from]));
        assert(after == before.remove(from).insert(to, w[from]));
        assert forall|p: Seq<char>| r.taken(m, p) <==> (r.taken(last, p) || p == from) by {
            if r.taken(m, p) {
                let i = choose|i: int| 0 <= i < m && #[trigger] r.from(i) == p;
                if i < last {
                    assert(r.taken(last, p));
                }
            }
            if r.taken(last, p) {
                let i = choose|i: int| 0 <= i < last && #[trigger] r.from(i) == p;
                assert(r.from(i) == p);
            }
            if p == from {
                assert(r.from(last) == p);
            }
        }
        assert forall|p: Seq<char>| r.given(m, p) <==> (r.given(last, p) || p == to) by {
            if r.given(m, p) {
                let i = choose|i: int| 0 <= i < m && #[trigger] r.to(i) == p;
                if i < last {
                    assert(r.given(last, p));
                }
            }
            if r.given(last, p) {
                let i = choose|i: int| 0 <= i < last && #[trigger] r.to(i) == p;
                assert(r.to(i) == p);
            }
            if p == to {
                assert(r.to(last) == p);
            }
        }
        assert forall|i: int| 0 <= i < m implies after[#[trigger] r.to(i)] == w[r.from(i)] by {
            if i < last {
                assert(r.from(last) != r.to(i));
                if r.to(i) == r.to(last) {
                    lemma_join_injective(r.install_dir, r.held[i], r.held[last]);
                }
            }
        }
        assert forall|p: Seq<char>| #[trigger]
            after.contains_key(p) <==> (w.contains_key(p) && !r.taken(m, p)) || r.given(m, p) by {
            if p == from {
                if r.given(last, p) {
                    let i = choose|i: int| 0 <= i < last && #[trigger] r.to(i) == p;
                    assert(r.from(last) != r.to(i));
                }
                assert(r.from(last) != r.to(last));
            }
        }
    }
}

/// The request that clears the target of a link that could not be
/// created.
pub open spec fn clearing(w: World, target: Seq<char>) -> ActionView {
    if status_of(w, target) == PathStatus::Directory {
        ActionView::RemoveDir { path: target }
    } else {
        ActionView::RemoveFile { path: target }
    }
}

/// The file system after the installation as far as it came: the
/// conflicts were backed up and the first `k` links were created; if that
/// were not all, the target of the next link was cleared for a second try,
/// which failed.
pub open spec fn installed_up_to(scene: Scene, w: World, k: int) -> World {
    let entries = scene.entries();
    let saved = apply_all(
        w,
        backup_plan(entries, observe(w, targets(entries)), scene.backup_dir, scene.force),
    );
    let linked = apply_all(saved, link_plan(entries.take(k)));
    if k < entries.len() {
        effect(linked, clearing(linked, entries[k].target))
    } else {
        linked
    }
}

/// The file system after the reversal of a run that began in `start` and
/// came to `now`, where the backup directory was found to hold `held`.
pub open spec fn reversed(scene: Scene, start: World, now: World, held: Seq<Seq<char>>) -> World {
    let restored = apply_all(
        now,
        restore_plan(
            held,
            observe(now, paths_under(scene.backup_dir, held)),
            scene.backup_dir,
            scene.install_dir,
            scene.force,
        ),
    );
    apply_all(
        restored,
        cleanup_plan(
            scene.names,
            observe(restored, paths_under(scene.install_dir, scene.names)),
            scene.install_dir,
            detect(start, scene.entries()),
        ),
    )
}

/// After the installation as far as it came, nothing lies at the target
/// of a link that was not created, every link that was created lies at its
/// target, every conflict lies in the backup directory, and everything
/// else is as it was.
proof fn lemma_installed_up_to(scene: Scene, w: World, k: int)
    requires
        scene.settled(w),
        0 <= k <= scene.names.len(),
    ensures
        forall|p: Seq<char>| #[trigger]
            installed_up_to(scene, w, k).contains_key(p) <==> (w.contains_key(p) && !scene.targeted(
                scene.names.len() as int,
                p,
            )) || scene.kept(w, scene.names.len() as int, p) || scene.targeted(k, p),
        forall|i: int|
            0 <= i < scene.names.len() && w.contains_key(scene.target(i)) ==> installed_up_to(
                scene,
                w,
                k,
            )[#[trigger] scene.place(i)] == w[scene.target(i)],
        forall|p: Seq<char>|
            w.contains_key(p) && !scene.targeted(scene.names.len() as int, p) && !scene.kept(
                w,
                scene.names.len() as int,
                p,
            ) ==> #[trigger] installed_up_to(scene, w, k)[p] == w[p],
{
    let n = scene.names.len() as int;
    let entries = scene.entries();
    lemma_scene_places(scene, w);
    lemma_backup_effect(scene, w, n);
    assert(entries.take(n) =~= entries);
    let saved = backed_up(scene, w, n);
    let made = entries.take(k);
    assert forall|i: int, j: int| 0 <= i < j < made.len() implies #[trigger] made[i].target
        != #[trigger] made[j].target by {
        assert(made[i].target == scene.target(i));
        assert(made[j].target == scene.target(j));
    }
    lemma_installed(saved, made);
    let linked = apply_all(saved, link_plan(made));
    assert forall|p: Seq<char>| is_target(made, p) <==> scene.targeted(k, p) by {
        if is_target(made, p) {
            let i = choose|i: int| 0 <= i < made.len() && #[trigger] made[i].target == p;
            assert(scene.target(i) == p);
        }
        if scene.targeted(k, p) {
            let i = choose|i: int| 0 <= i < k && #[trigger] scene.target(i) == p;
            assert(made[i].target == p);
        }
    }
    assert forall|p: Seq<char>| scene.targeted(k, p) implies scene.targeted(n, p) && !scene.kept(
        w,
        n,
        p,
    ) by {
        let i = choose|i: int| 0 <= i < k && #[trigger] scene.target(i) == p;
        assert(scene.target(i) == p);
        if scene.kept(w, n, p) {
            let j = choose|j: int|
                0 <= j < n && w.contains_key(scene.target(j)) && #[trigger] scene.place(j) == p;
            assert(scene.place(j) != scene.target(i));
        }
    }
    assert forall|p: Seq<char>| scene.kept(w, n, p) implies !scene.targeted(n, p) by {
        let j = choose|j: int|
            0 <= j < n && w.contains_key(scene.target(j)) && #[trigger] scene.place(j) == p;
        if scene.targeted(n, p) {
            let i = choose|i: int| 0 <= i < n && #[trigger] scene.target(i) == p;
            assert(scene.place(j) != scene.target(i));
        }
    }
    let now = installed_up_to(scene, w, k);
    if k < n {
        let target = entries[k].target;
        assert(target == scene.target(k));
        assert(scene.targeted(n, target));
        assert(!scene.targeted(k, target)) by {
            if scene.targeted(k, target) {
                let i = choose|i: int| 0 <= i < k && #[trigger] scene.target(i) == target;
                assert(scene.target(i) != scene.target(k));
            }
        }
        assert(!scene.kept(w, n, target)) by {
            if scene.kept(w, n, target) {
                let j = choose|j: int|
                    0 <= j < n && w.contains_key(scene.target(j)) && #[trigger] scene.place(j)
                        == target;
                assert(scene.place(j) != scene.target(k));
            }
        }
        assert(!linked.contains_key(target));
        assert(now =~= linked);
    }
    assert(now == linked);
    assert forall|i: int|
        0 <= i < n && w.contains_key(scene.target(i)) implies now[#[trigger] scene.place(i)]
        == w[scene.target(i)] by {
        let p = scene.place(i);
        assert(scene.kept(w, n, p));
        assert(!scene.targeted(k, p));
        assert(linked.contains_key(p) == saved.contains_key(p));
    }
    assert forall|p: Seq<char>|
        w.contains_key(p) && !scene.targeted(n, p) && !scene.kept(w, n, p) implies #[trigger] now[p]
        == w[p] by {
        assert(!scene.targeted(k, p));
        assert(linked.contains_key(p) == saved.contains_key(p));
    }
    assert forall|p: Seq<char>| #[trigger]
        now.contains_key(p) <==> (w.contains_key(p) && !scene.targeted(n, p)) || scene.kept(
            w,
            n,
            p,
        ) || scene.targeted(k, p) by {
        if scene.targeted(k, p) {
            let i = choose|i: int| 0 <= i < k && #[trigger] scene.target(i) == p;
            assert(made[i].target == p);
            assert(linked.contains_key(made[i].target));
        } else {
            assert(linked.contains_key(p) == saved.contains_key(p));
        }
    }
}

/// The central law: a run that is reversed leaves the file system as it
/// found it. The run may have failed at any link, or have gone well; the
/// reversal is given the listing of the backup directory and the names of
/// the source directory, and moves back and removes what the engine asks
/// for.
pub proof fn lemma_rollback_restores(scene: Scene, w: World, k: int, held: Seq<Seq<char>>)
    requires
        scene.settled(w),
        0 <= k <= scene.names.len(),
        lists(held, installed_up_to(scene, w, k), scene.backup_dir),
    ensures
        reversed(scene, w, installed_up_to(scene, w, k), held) == w,
{
    let n = scene.names.len() as int;
    let entries = scene.entries();
    let now = installed_up_to(scene, w, k);
    lemma_scene_places(scene, w);
    lemma_installed_up_to(scene, w, k);
    // What the backup directory holds are the names of the conflicts.
    assert forall|i: int| 0 <= i < held.len() implies scene.in_conflict(w, #[trigger] held[i]) by {
        let name = held[i];
        assert(held.contains(name));
        assert(entries_under(now, scene.backup_dir).contains(name));
        let p = join(scene.backup_dir, name);
        assert(!entries_under(w, scene.backup_dir).contains(name));
        if scene.targeted(k, p) {
            let j = choose|j: int| 0 <= j < k && #[trigger] scene.target(j) == p;
            lemma_final_name_of_join(scene.backup_dir, name);
            lemma_final_name_of_join(scene.install_dir, scene.names[j]);
            assert(scene.place(j) == p);
        }
        assert(scene.kept(w, n, p));
        let j = choose|j: int|
            0 <= j < n && w.contains_key(scene.target(j)) && #[trigger] scene.place(j) == p;
        lemma_join_injective(scene.backup_dir, scene.names[j], name);
        assert(scene.names[j] == held[i]);
    }
    assert forall|j: int| 0 <= j < n && w.contains_key(scene.target(j)) implies held.contains(
        #[trigger] scene.names[j],
    ) by {
        assert(scene.kept(w, n, scene.place(j)));
        assert(now.contains_key(scene.place(j)));
        assert(entries_under(now, scene.backup_dir).contains(scene.names[j]));
    }
    let r = Return {
        install_dir: scene.install_dir,
        backup_dir: scene.backup_dir,
        held,
        force: scene.force,
    };
    assert(r.possible(now)) by {
        assert(!scene.targeted(n, scene.install_dir)) by {
            if scene.targeted(n, scene.install_dir) {
                let i = choose|i: int|
                    0 <= i < n && #[trigger] scene.target(i) == scene.install_dir;
                assert(scene.target(i) != scene.install_dir);
            }
        }
        assert(now.contains_key(scene.install_dir));
        assert forall|i: int| 0 <= i < held.len() implies now.contains_key(
            #[trigger] r.from(i),
        ) by {
            let j = choose|j: int|
                0 <= j < n && w.contains_key(scene.target(j)) && #[trigger] scene.names[j]
                    == held[i];
            assert(scene.kept(w, n, scene.place(j)));
        }
        assert forall|i: int, j: int|
            0 <= i < held.len() && 0 <= j < held.len() implies #[trigger] r.from(i)
            != #[trigger] r.to(j) by {
            let a = choose|a: int|
                0 <= a < n && w.contains_key(scene.target(a)) && #[trigger] scene.names[a]
                    == held[i];
            let b = choose|b: int|
                0 <= b < n && w.contains_key(scene.target(b)) && #[trigger] scene.names[b]
                    == held[j];
            assert(scene.place(a) != scene.target(b));
        }
        assert forall|i: int| 0 <= i < held.len() implies #[trigger] r.from(i)
            != r.install_dir by {
            let a = choose|a: int|
                0 <= a < n && w.contains_key(scene.target(a)) && #[trigger] scene.names[a]
                    == held[i];
            assert(scene.place(a) != scene.install_dir);
        }
    }
    let all = held.len() as int;
    lemma_restore_effect(r, now, all);
    assert(held.take(all) =~= held);
    let restored = r.restored(now, all);
    let found = observe(restored, paths_under(scene.install_dir, scene.names));
    let original = detect(w, entries);
    lemma_cleanup_effect(restored, scene.names, found, scene.install_dir, original);
    let last = reversed(scene, w, now, held);
    assert(last == apply_all(
        restored,
        cleanup_plan(scene.names, found, scene.install_dir, original),
    ));
    let seen = observe(w, targets(entries));
    // A place in the install directory was a conflict exactly if it was
    // occupied at the start.
    assert forall|j: int| 0 <= j < n implies (original.contains(#[trigger] scene.target(j))
        <==> w.contains_key(scene.target(j))) by {
        lemma_conflicts_members(entries, seen, scene.target(j));
        assert(entries[j].target == scene.target(j));
        assert(targets(entries)[j] == scene.target(j));
        assert(seen[j] == status_of(w, scene.target(j)));
        if original.contains(scene.target(j)) {
            let i = choose|i: int|
                0 <= i < entries.len() && i < seen.len() && seen[i].occupied()
                    && #[trigger] entries[i].target == scene.target(j);
            assert(entries[i].target == scene.target(i));
            assert(targets(entries)[i] == scene.target(i));
            assert(i == j);
        }
    }
    assert forall|p: Seq<char>|
        #![trigger last.contains_key(p)]
        #![trigger w.contains_key(p)]
        last.contains_key(p) == w.contains_key(p) && (w.contains_key(p) ==> last[p] == w[p]) by {
        if scene.targeted(n, p) {
            let j = choose|j: int| 0 <= j < n && #[trigger] scene.target(j) == p;
            assert(scene.target(j) == p);
            assert(paths_under(scene.install_dir, scene.names)[j] == p);
            assert(found[j] == status_of(restored, p));
            assert(!r.taken(all, p)) by {
                if r.taken(all, p) {
                    let i = choose|i: int| 0 <= i < all && #[trigger] r.from(i) == p;
                    let a = choose|a: int|
                        0 <= a < n && w.contains_key(scene.target(a)) && #[trigger] scene.names[a]
                            == held[i];
                    assert(scene.place(a) != scene.target(j));
                }
            }
            if w.contains_key(p) {
                assert(held.contains(scene.names[j]));
                let i = choose|i: int| 0 <= i < held.len() && held[i] == scene.names[j];
                assert(r.to(i) == p);
                assert(r.from(i) == scene.place(j));
                assert(restored[r.to(i)] == now[r.from(i)]);
                assert(now[scene.place(j)] == w[scene.target(j)]);
                assert(r.given(all, p));
                assert(restored.contains_key(p));
                assert(!is_cleared(scene.names, found, scene.install_dir, original, p)) by {
                    if is_cleared(scene.names, found, scene.install_dir, original, p) {
                        let c = choose|c: int|
                            0 <= c < scene.names.len() && c < found.len() && found[c].occupied()
                                && crate::plan::is_fresh(
                                scene.install_dir,
                                scene.names[c],
                                original,
                            ) && #[trigger] join(scene.install_dir, scene.names[c]) == p;
                        assert(scene.target(c) == p);
                        assert(c == j);
                    }
                }
            } else {
                if restored.contains_key(p) {
                    assert(found[j].occupied());
                    assert(!original.contains(scene.target(j)));
                    assert(join(scene.install_dir, scene.names[j]) == p);
                    assert(is_cleared(scene.names, found, scene.install_dir, original, p));
                }
            }
        } else {
            assert(!is_cleared(scene.names, found, scene.install_dir, original, p)) by {
                if is_cleared(scene.names, found, scene.install_dir, original, p) {
                    let c = choose|c: int|
                        0 <= c < scene.names.len() && c < found.len() && found[c].occupied()
                            && crate::plan::is_fresh(
                            scene.install_dir,
                            scene.names[c],
                            original,
                        ) && #[trigger] join(scene.install_dir, scene.names[c]) == p;
                    assert(scene.target(c) == p);
                }
            }
            assert(!scene.targeted(k, p)) by {
                if scene.targeted(k, p) {
                    let i = choose|i: int| 0 <= i < k && #[trigger] scene.target(i) == p;
                    assert(scene.target(i) == p);
                }
            }
            assert(!r.given(all, p)) by {
                if r.given(all, p) {
                    let i = choose|i: int| 0 <= i < all && #[trigger] r.to(i) == p;
                    let a = choose|a: int|
                        0 <= a < n && w.contains_key(scene.target(a)) && #[trigger] scene.names[a]
                            == held[i];
                    assert(scene.target(a) == p);
                }
            }
            if scene.kept(w, n, p) {
                let j = choose|j: int|
                    0 <= j < n && w.contains_key(scene.target(j)) && #[trigger] scene.place(j)
                        == p;
                assert(held.contains(scene.names[j]));
                let i = choose|i: int| 0 <= i < held.len() && held[i] == scene.names[j];
                assert(r.from(i) == p);
                assert(r.taken(all, p));
                assert(!w.contains_key(scene.place(j)));
            } else {
                assert(!r.taken(all, p)) by {
                    if r.taken(all, p) {
                        let i = choose|i: int| 0 <= i < all && #[trigger] r.from(i) == p;
                        let a = choose|a: int|
                            0 <= a < n && w.contains_key(scene.target(a))
                                && #[trigger] scene.names[a] == held[i];
                        assert(scene.place(a) == p);
                    }
                }
            }
        }
    }
    assert(last =~= w);
}

} // verus!
