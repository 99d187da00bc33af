//! A model of the directory tree, to say what unpacking leaves behind.
//!
//! The model keeps what is written and where: a directory or a file with its
//! bytes at each path. The directories that are made on the way to a path
//! are not kept.

use crate::paths::relative_to;
use crate::sisyphus::{cleared, ChoreView};
use crate::ziper::{lemma_unpacked_under, step_path, unpacked, ExtractionView, RawEntryView};
use vstd::prelude::*;

verus! {

/// What lies at each path: `None` for a directory, the bytes of a file.
pub type Disk = Map<Seq<char>, Option<Seq<u8>>>;

/// `path` is `root` or lies below it.
pub open spec fn under(path: Seq<char>, root: Seq<char>) -> bool {
    relative_to(path, root) is Some
}

/// `disk` without `root` and all below it.
pub open spec fn wiped(disk: Disk, root: Seq<char>) -> Disk {
    Map::new(|p: Seq<char>| disk.dom().contains(p) && !under(p, root), |p: Seq<char>| disk[p])
}

/// `disk` after one chore.
pub open spec fn after_chore(disk: Disk, chore: ChoreView) -> Disk {
    match chore {
        ChoreView::RemoveTree { path } => wiped(disk, path),
        ChoreView::CreateTree { path } => disk.insert(path, None),
    }
}

/// `disk` after the chores, one after the other.
pub open spec fn after_chores(disk: Disk, chores: Seq<ChoreView>) -> Disk
    decreases chores.len(),
{
    if chores.len() == 0 {
        disk
    } else {
        after_chore(after_chores(disk, chores.drop_last()), chores.last())
    }
}

/// `disk` after one step of an unpacking.
pub open spec fn after_step(disk: Disk, step: ExtractionView) -> Disk {
    match step {
        ExtractionView::Directory { path } => disk.insert(path, None),
        ExtractionView::File { path, content, .. } => disk.insert(path, Some(content)),
    }
}

/// `disk` after the steps, one after the other.
pub open spec fn after_steps(disk: Disk, steps: Seq<ExtractionView>) -> Disk
    decreases steps.len(),
{
    if steps.len() == 0 {
        disk
    } else {
        after_step(after_steps(disk, steps.drop_last()), steps.last())
    }
}

/// `disk` after the entries of an archive were unpacked to `folder`: the
/// folder is cleared, then the steps are taken.
pub open spec fn after_unzip(disk: Disk, folder: Seq<char>, entries: Seq<Option<RawEntryView>>) -> Disk {
    after_steps(after_chores(disk, cleared(folder)), unpacked(folder, entries).0)
}

/// What is written under a root is gone once the root is wiped.
pub proof fn lemma_wiped_steps(disk: Disk, root: Seq<char>, steps: Seq<ExtractionView>)
    requires
        forall|k: int| 0 <= k < steps.len() ==> under(step_path(#[trigger] steps[k]), root),
    ensures
        wiped(after_steps(disk, steps), root) == wiped(disk, root),
    decreases steps.len(),
{
    if steps.len() > 0 {
        let before = after_steps(disk, steps.drop_last());
        assert forall|k: int| 0 <= k < steps.drop_last().len() implies under(
            step_path(#[trigger] steps.drop_last()[k]),
            root,
        ) by {
            assert(steps.drop_last()[k] == steps[k]);
        }
        lemma_wiped_steps(disk, root, steps.drop_last());
        assert(under(step_path(steps.last()), root));
        assert(wiped(after_step(before, steps.last()), root) =~= wiped(before, root));
    }
}

/// Unpacking an archive twice to the same folder leaves what unpacking it
/// once leaves: the folder is cleared before anything is written, and
/// nothing is written outside it.
pub proof fn lemma_unzip_idempotent(
    disk: Disk,
    folder: Seq<char>,
    entries: Seq<Option<RawEntryView>>,
)
    ensures
        after_unzip(after_unzip(disk, folder, entries), folder, entries) == after_unzip(
            disk,
            folder,
            entries,
        ),
{
    let steps = unpacked(folder, entries).0;
    let chores = cleared(folder);
    assert(chores.drop_last() =~= seq![ChoreView::RemoveTree { path: folder }]);
    assert(chores.drop_last().drop_last() =~= Seq::<ChoreView>::empty());
    assert forall|d: Disk| #[trigger] after_chores(d, chores) == wiped(d, folder).insert(folder, None) by {
        assert(after_chores(d, chores.drop_last().drop_last()) == d);
        assert(after_chores(d, chores.drop_last()) == wiped(d, folder));
    }
    let ground = after_chores(disk, chores);
    let once = after_steps(ground, steps);
    lemma_unpacked_under(folder, entries);
    lemma_wiped_steps(ground, folder, steps);
    assert(relative_to(folder, folder) is Some);
    assert(wiped(ground, folder) =~= wiped(disk, folder));
    assert(after_chores(once, chores) == ground);
}

} // verus!
