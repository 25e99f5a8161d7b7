//! The state of the program: the settings, the fences, and what is being kept an eye on.

use crate::config::{opt_view, vault_dir, vault_of, Config, FenceCfg, FenceKind};
use crate::desktop::avoidance::{clear_history, restore_autoarrange, History};
use crate::fence::grid::{config_snapshot, snapshot_of};
use crate::command::WM_APP_DISPATCH;
use crate::fence::message::{WM_DESTROY, WM_TIMER};
use crate::fence::Fence;
use crate::tray::{click_of, tray_click, TrayClick, WM_APP_TRAY};
use vstd::prelude::*;

verus! {

/// Whom a watcher of a folder serves.
#[derive(Clone, Copy, Debug, PartialEq, Eq, Structural)]
pub enum WatcherOwner {
    /// The program, as long as it runs.
    Process,
    /// The fence with this number.
    Fence(u32),
}

/// A watcher of a folder, with whom it serves.
#[derive(Clone, Copy, Debug, PartialEq, Eq, Structural)]
pub struct ManagedWatcher {
    pub owner: WatcherOwner,
    /// By which the watcher is found.
    pub watcher: u64,
}

impl ManagedWatcher {
    /// A watcher for the program.
    pub fn process(watcher: u64) -> (w: ManagedWatcher)
        ensures
            w == (ManagedWatcher { owner: WatcherOwner::Process, watcher }),
    {
        ManagedWatcher { owner: WatcherOwner::Process, watcher }
    }

    /// A watcher for the fence `id`.
    pub fn fence(id: u32, watcher: u64) -> (w: ManagedWatcher)
        ensures
            w == (ManagedWatcher { owner: WatcherOwner::Fence(id), watcher }),
    {
        ManagedWatcher { owner: WatcherOwner::Fence(id), watcher }
    }
}

/// The state of the program.
pub struct Global {
    pub config: Config,
    /// The number of the next new fence.
    pub next_id: u32,
    pub fences: Vec<Fence>,
    /// Whether all fences are hidden.
    pub zen: bool,
    pub watchers: Vec<ManagedWatcher>,
}

/// The settings with the fences as they stand.
pub open spec fn is_synced(before: Config, after: Config, fences: Seq<Fence>) -> bool {
    &&& after == Config { fences: after.fences, ..before }
    &&& after.fences@.len() == fences.len()
    &&& forall|i: int| 0 <= i < fences.len() ==> snapshot_of(fences[i], #[trigger] after.fences@[i])
}

/// Brings the settings up to how the fences stand.
pub fn sync_config(g: &mut Global)
    ensures
        is_synced(old(g).config, final(g).config, old(g).fences@),
        *final(g) == (Global { config: final(g).config, ..*old(g) }),
{
    g.config.fences = config_snapshot(&g.fences);
}

/// The first fence with a window and the number `id`.
pub open spec fn is_fence_with_id(fences: Seq<Fence>, id: u32, at: Option<usize>) -> bool {
    match at {
        Some(i) => i < fences.len() && fences[i as int].valid && fences[i as int].cfg.id == id
            && forall|j: int|
            0 <= j < i ==> !((#[trigger] fences[j]).valid && fences[j].cfg.id == id),
        None => forall|j: int|
            0 <= j < fences.len() ==> !((#[trigger] fences[j]).valid && fences[j].cfg.id == id),
    }
}

/// The fence with a number is the first, at `k`, that has a window and that number; where there is none,
/// none is found.
pub proof fn the_fence_with_an_id_is_found(fences: Seq<Fence>, id: u32, at: Option<usize>, k: int)
    requires
        is_fence_with_id(fences, id, at),
        0 <= k <= fences.len() <= usize::MAX,
        forall|j: int| 0 <= j < k ==> (#[trigger] fences[j]).cfg.id != id || !fences[j].valid,
        k < fences.len() ==> fences[k].cfg.id == id && fences[k].valid,
    ensures
        at == if k < fences.len() {
            Some(k as usize)
        } else {
            None
        },
{
    if k < fences.len() {
        assert(fences[k].valid && fences[k].cfg.id == id);
    }
    if at is Some && at->0 < k {
        assert(fences[at->0 as int].cfg.id != id || !fences[at->0 as int].valid);
    }
}

/// See [`is_fence_with_id`].
pub fn fence_with_id(fences: &Vec<Fence>, id: u32) -> (at: Option<usize>)
    ensures
        is_fence_with_id(fences@, id, at),
{
    for i in 0..fences.len()
        invariant
            forall|j: int|
                0 <= j < i ==> !((#[trigger] fences@[j]).valid && fences@[j].cfg.id == id),
    {
        if fences[i].valid && fences[i].cfg.id == id {
            return Some(i);
        }
    }
    None
}

// ---------- numbers of fences ----------

/// The greatest number in `fences`, 0 where there is none.
pub open spec fn greatest_id(fences: Seq<FenceCfg>) -> u32
    decreases fences.len(),
{
    if fences.len() == 0 {
        0
    } else {
        let before = greatest_id(fences.drop_last());
        if fences.last().id > before {
            fences.last().id
        } else {
            before
        }
    }
}

/// No fence has a number above the greatest, and one has it, where there is one with a number.
pub proof fn the_greatest_number_is_the_greatest(fences: Seq<FenceCfg>, i: int)
    requires
        0 <= i < fences.len(),
    ensures
        fences[i].id <= greatest_id(fences),
        greatest_id(fences) == 0 || exists|k: int|
            0 <= k < fences.len() && (#[trigger] fences[k]).id == greatest_id(fences),
    decreases fences.len(),
{
    let t = fences.drop_last();
    let n = fences.len() - 1;
    if t.len() > 0 {
        the_greatest_number_is_the_greatest(t, if i < n {
            i
        } else {
            0
        });
        if greatest_id(t) != 0 {
            let k = choose|k: int| 0 <= k < t.len() && (#[trigger] t[k]).id == greatest_id(t);
            assert(fences[k].id == greatest_id(t));
        }
        if i < n {
            assert(t[i] == fences[i]);
        }
    } else {
        assert(greatest_id(t) == 0);
    }
    assert(fences[n] == fences.last());
}

/// The number of the next new fence, where `fences` are the ones there are: one more than any has.
pub fn first_free_id(fences: &Vec<FenceCfg>) -> (id: u32)
    requires
        greatest_id(fences@) < u32::MAX,
    ensures
        id == greatest_id(fences@) + 1,
        id > 0,
        forall|i: int| 0 <= i < fences@.len() ==> (#[trigger] fences@[i]).id < id,
{
    let mut greatest: u32 = 0;
    for i in 0..fences.len()
        invariant
            greatest == greatest_id(fences@.take(i as int)),
    {
        assert(fences@.take(i + 1).drop_last() =~= fences@.take(i as int));
        if fences[i].id > greatest {
            greatest = fences[i].id;
        }
    }
    assert(fences@.take(fences@.len() as int) =~= fences@);
    proof {
        assert forall|i: int| 0 <= i < fences@.len() implies (#[trigger] fences@[i]).id
            <= greatest by {
            the_greatest_number_is_the_greatest(fences@, i);
        }
    }
    greatest + 1
}

/// The numbers that `fences` have.
pub open spec fn ids_of(fences: Seq<FenceCfg>) -> Seq<u32> {
    fences.map_values(|c: FenceCfg| c.id)
}

/// Whether the fence at `i` keeps its number: it has one, and no fence before it has the same.
pub open spec fn keeps_id(ids: Seq<u32>, i: int) -> bool {
    ids[i] != 0 && forall|j: int| 0 <= j < i ==> #[trigger] ids[j] != ids[i]
}

/// How many of the first `n` fences get a new number.
pub open spec fn count_new(ids: Seq<u32>, n: int) -> int
    decreases n,
{
    if n <= 0 {
        0
    } else {
        count_new(ids, n - 1) + if keeps_id(ids, n - 1) {
            0int
        } else {
            1
        }
    }
}

/// The number of the fence at `i` when none is missing and none stands twice: the next free one,
/// from `next` on, in place of one that is.
pub open spec fn own_id(ids: Seq<u32>, i: int, next: int) -> int {
    if keeps_id(ids, i) {
        ids[i] as int
    } else {
        next + count_new(ids, i)
    }
}

/// Gives each fence a number of its own, and takes `next_id` on.
pub fn assign_ids(fences: &mut Vec<FenceCfg>, next_id: &mut u32)
    requires
        *old(next_id) + old(fences)@.len() <= u32::MAX,
    ensures
        final(fences)@.len() == old(fences)@.len(),
        forall|i: int|
            0 <= i < old(fences)@.len() ==> #[trigger] final(fences)@[i] == (FenceCfg {
                id: own_id(ids_of(old(fences)@), i, *old(next_id) as int) as u32,
                ..old(fences)@[i]
            }),
        *final(next_id) == *old(next_id) + count_new(
            ids_of(old(fences)@),
            old(fences)@.len() as int,
        ),
{
    let ghost all = fences@;
    let ghost ids = ids_of(all);
    let ghost first = *next_id as int;
    let mut seen: Vec<u32> = Vec::new();
    let n: usize = fences.len();
    for i in 0..n
        invariant
            n == all.len(),
            ids == ids_of(all),
            first + n <= u32::MAX,
            fences@.len() == n,
            seen@ == ids.take(i as int),
            *next_id == first + count_new(ids, i as int),
            0 <= count_new(ids, i as int) <= i,
            forall|j: int|
                0 <= j < i ==> #[trigger] fences@[j] == (FenceCfg {
                    id: own_id(ids, j, first) as u32,
                    ..all[j]
                }),
            forall|j: int| i <= j < n ==> #[trigger] fences@[j] == all[j],
    {
        let id: u32 = fences[i].id;
        let mut new: bool = id != 0;
        for k in 0..i
            invariant
                seen@ == ids.take(i as int),
                i < ids.len(),
                id == ids[i as int],
                new == (id != 0 && forall|j: int| 0 <= j < k ==> #[trigger] ids[j] != id),
        {
            assert(seen@[k as int] == ids[k as int]);
            if seen[k] == id {
                new = false;
            }
        }
        assert(new == keeps_id(ids, i as int));
        seen.push(id);
        assert(seen@ =~= ids.take(i + 1));
        if !new {
            let c = &mut fences[i];
            c.id = *next_id;
            *next_id = *next_id + 1;
        }
    }
}

proof fn lemma_count_new(ids: Seq<u32>, i: int, j: int)
    requires
        0 <= i < j,
        !keeps_id(ids, i),
    ensures
        count_new(ids, i) < count_new(ids, j),
        count_new(ids, i) >= 0,
    decreases j,
{
    lemma_count_bounds(ids, i);
    if j > i + 1 {
        lemma_count_new(ids, i, j - 1);
    }
}

proof fn lemma_count_bounds(ids: Seq<u32>, n: int)
    requires
        n >= 0,
    ensures
        0 <= count_new(ids, n) <= n,
    decreases n,
{
    if n > 0 {
        lemma_count_bounds(ids, n - 1);
    }
}

/// Where new numbers begin behind all old ones, no two fences have the same number, and none is
/// without one.
pub proof fn every_fence_has_its_own_number(ids: Seq<u32>, next: int, i: int, j: int)
    requires
        forall|k: int| 0 <= k < ids.len() ==> #[trigger] ids[k] < next,
        0 < next,
        0 <= i < j < ids.len(),
    ensures
        own_id(ids, i, next) != own_id(ids, j, next),
        own_id(ids, i, next) != 0,
        own_id(ids, j, next) != 0,
{
    lemma_count_bounds(ids, i);
    lemma_count_bounds(ids, j);
    if keeps_id(ids, i) {
        assert(ids[i] < next);
        if keeps_id(ids, j) {
            assert(ids[i] != ids[j]);
        }
    } else if keeps_id(ids, j) {
        assert(ids[j] < next);
    } else {
        lemma_count_new(ids, i, j);
    }
}

// ---------- watchers ----------

/// The watchers that serve `owner`.
pub open spec fn serving(watchers: Seq<ManagedWatcher>, owner: WatcherOwner) -> Seq<ManagedWatcher> {
    watchers.filter(|w: ManagedWatcher| w.owner == owner)
}

/// The watchers that serve someone else than `owner`.
pub open spec fn not_serving(watchers: Seq<ManagedWatcher>, owner: WatcherOwner) -> Seq<
    ManagedWatcher,
> {
    watchers.filter(|w: ManagedWatcher| w.owner != owner)
}

/// Each watcher serves `owner` or someone else: it is kept or stopped, and never both, nor lost.
pub proof fn each_watcher_is_kept_or_stopped(
    watchers: Seq<ManagedWatcher>,
    owner: WatcherOwner,
    w: ManagedWatcher,
)
    ensures
        watchers.contains(w) && w.owner == owner ==> serving(watchers, owner).contains(w)
            && !not_serving(watchers, owner).contains(w),
        watchers.contains(w) && w.owner != owner ==> not_serving(watchers, owner).contains(w)
            && !serving(watchers, owner).contains(w),
        serving(watchers, owner).len() + not_serving(watchers, owner).len() == watchers.len(),
    decreases watchers.len(),
{
    let mine = |x: ManagedWatcher| x.owner == owner;
    let theirs = |x: ManagedWatcher| x.owner != owner;
    let (a, b) = (watchers.filter(mine), watchers.filter(theirs));
    if watchers.contains(w) {
        let i = choose|i: int| 0 <= i < watchers.len() && watchers[i] == w;
        if w.owner == owner {
            watchers.lemma_filter_contains(mine, i);
        } else {
            watchers.lemma_filter_contains(theirs, i);
        }
    }
    if a.contains(w) {
        let i = choose|i: int| 0 <= i < a.len() && a[i] == w;
        watchers.lemma_filter_pred(mine, i);
    }
    if b.contains(w) {
        let i = choose|i: int| 0 <= i < b.len() && b[i] == w;
        watchers.lemma_filter_pred(theirs, i);
    }
    reveal(Seq::filter);
    if watchers.len() > 0 {
        each_watcher_is_kept_or_stopped(watchers.drop_last(), owner, w);
    }
}

/// Takes out the watchers that serve `owner` (or, with `others`, all but them), to be stopped.
fn split_watchers(watchers: &mut Vec<ManagedWatcher>, owner: WatcherOwner, others: bool) -> (out: Vec<
    ManagedWatcher,
>)
    ensures
        others ==> final(watchers)@ == serving(old(watchers)@, owner) && out@ == not_serving(
            old(watchers)@,
            owner,
        ),
        !others ==> final(watchers)@ == not_serving(old(watchers)@, owner) && out@ == serving(
            old(watchers)@,
            owner,
        ),
{
    let ghost all = watchers@;
    let ghost mine = |w: ManagedWatcher| w.owner == owner;
    let ghost theirs = |w: ManagedWatcher| w.owner != owner;
    let mut serving_it: Vec<ManagedWatcher> = Vec::new();
    let mut rest: Vec<ManagedWatcher> = Vec::new();
    proof {
        reveal(Seq::filter);
    }
    for i in 0..watchers.len()
        invariant
            watchers@ == all,
            mine == (|w: ManagedWatcher| w.owner == owner),
            theirs == (|w: ManagedWatcher| w.owner != owner),
            serving_it@ == all.take(i as int).filter(mine),
            rest@ == all.take(i as int).filter(theirs),
    {
        proof {
            reveal(Seq::filter);
            assert(all.take(i + 1).drop_last() =~= all.take(i as int));
        }
        if watchers[i].owner == owner {
            serving_it.push(watchers[i]);
        } else {
            rest.push(watchers[i]);
        }
    }
    assert(all.take(all.len() as int) =~= all);
    if others {
        *watchers = serving_it;
        rest
    } else {
        *watchers = rest;
        serving_it
    }
}

/// Takes out the watchers of all fences, to be stopped; the program's own go on.
pub fn take_fence_watchers(g: &mut Global) -> (stopped: Vec<ManagedWatcher>)
    ensures
        final(g).watchers@ == serving(old(g).watchers@, WatcherOwner::Process),
        stopped@ == not_serving(old(g).watchers@, WatcherOwner::Process),
        *final(g) == (Global { watchers: final(g).watchers, ..*old(g) }),
{
    split_watchers(&mut g.watchers, WatcherOwner::Process, true)
}

/// A fence that was taken out, and the watchers that served it.
pub struct Removed {
    pub fence: Fence,
    pub watchers: Vec<ManagedWatcher>,
}

/// Takes out the fence at `idx`, with its watchers, and keeps the settings without it. Its window is
/// closed after that, so that the window's end is not taken for a loss.
pub fn delete_fence(g: &mut Global, idx: usize) -> (removed: Option<Removed>)
    ensures
        match removed {
            Some(r) => {
                &&& idx < old(g).fences@.len()
                &&& r.fence == old(g).fences@[idx as int]
                &&& final(g).fences@ == old(g).fences@.remove(idx as int)
                &&& r.watchers@ == serving(
                    old(g).watchers@,
                    WatcherOwner::Fence(r.fence.cfg.id),
                )
                &&& final(g).watchers@ == not_serving(
                    old(g).watchers@,
                    WatcherOwner::Fence(r.fence.cfg.id),
                )
                &&& is_synced(old(g).config, final(g).config, final(g).fences@)
                &&& final(g).next_id == old(g).next_id
                &&& final(g).zen == old(g).zen
            },
            None => idx >= old(g).fences@.len() && *final(g) == *old(g),
        },
{
    if idx >= g.fences.len() {
        return None;
    }
    let fence = g.fences.remove(idx);
    let watchers = split_watchers(&mut g.watchers, WatcherOwner::Fence(fence.cfg.id), false);
    sync_config(g);
    Some(Removed { fence, watchers })
}

// ---------- boxes ----------

/// A box and its folder.
pub struct CollectionDir {
    pub id: u32,
    pub dir: String,
}

/// The fences that are boxes, and have a window.
pub open spec fn boxes(fences: Seq<Fence>) -> Seq<Fence> {
    fences.filter(|f: Fence| f.valid && f.cfg.kind == FenceKind::Collection)
}

/// A shortcut is never collected into a view of a folder, nor into the box for downloads, nor into a fence
/// that has no window; each other box can take it.
pub proof fn only_boxes_take_shortcuts(fences: Seq<Fence>, i: int)
    requires
        0 <= i < fences.len(),
    ensures
        fences[i].valid && fences[i].cfg.kind != FenceKind::Portal && fences[i].cfg.kind
            != FenceKind::Download && fences[i].cfg.kind != FenceKind::Legacy ==> boxes(
            fences,
        ).contains(fences[i]),
        !fences[i].valid || fences[i].cfg.kind == FenceKind::Portal || fences[i].cfg.kind
            == FenceKind::Download ==> !boxes(fences).contains(fences[i]),
{
    let p = |f: Fence| f.valid && f.cfg.kind == FenceKind::Collection;
    if p(fences[i]) {
        fences.lemma_filter_contains(p, i);
    }
    if boxes(fences).contains(fences[i]) {
        let k = choose|k: int| 0 <= k < boxes(fences).len() && boxes(fences)[k] == fences[i];
        fences.lemma_filter_pred(p, k);
    }
}

/// Whether `d` is the folder of the box `f`: its own, or the vault.
pub open spec fn is_box_dir(d: CollectionDir, f: Fence, vault: Seq<char>) -> bool {
    d.id == f.cfg.id && d.dir@ == (match opt_view(f.cfg.folder) {
        Some(dir) => dir,
        None => vault,
    })
}

/// A box that has a folder collects into that, and one without into the vault; under its own number.
pub proof fn a_box_collects_into_its_folder(d: CollectionDir, f: Fence, vault: Seq<char>)
    requires
        is_box_dir(d, f, vault),
    ensures
        d.id == f.cfg.id,
        f.cfg.folder is Some ==> d.dir@ == f.cfg.folder->0@,
        f.cfg.folder is None ==> d.dir@ == vault,
{
}

/// The boxes that can take shortcuts, with their folders.
pub fn collection_dirs(g: &Global, config_dir: &str) -> (dirs: Vec<CollectionDir>)
    ensures
        dirs@.len() == boxes(g.fences@).len(),
        forall|i: int|
            0 <= i < dirs@.len() ==> is_box_dir(
                #[trigger] dirs@[i],
                boxes(g.fences@)[i],
                vault_of(opt_view(g.config.vault_dir), config_dir@),
            ),
{
    let vault = vault_dir(&g.config, config_dir);
    let mut dirs: Vec<CollectionDir> = Vec::new();
    proof {
        reveal(Seq::filter);
    }
    for i in 0..g.fences.len()
        invariant
            vault@ == vault_of(opt_view(g.config.vault_dir), config_dir@),
            dirs@.len() == boxes(g.fences@.take(i as int)).len(),
            forall|j: int|
                0 <= j < dirs@.len() ==> is_box_dir(
                    #[trigger] dirs@[j],
                    boxes(g.fences@.take(i as int))[j],
                    vault@,
                ),
    {
        proof {
            reveal(Seq::filter);
            assert(g.fences@.take(i + 1).drop_last() =~= g.fences@.take(i as int));
        }
        let f = &g.fences[i];
        if f.valid && f.cfg.kind == FenceKind::Collection {
            let dir = match &f.cfg.folder {
                Some(dir) => dir.clone(),
                None => vault.clone(),
            };
            dirs.push(CollectionDir { id: f.cfg.id, dir });
        }
    }
    assert(g.fences@.take(g.fences@.len() as int) =~= g.fences@);
    dirs
}

// ---------- switches ----------

/// The windows of the fences that have one.
pub open spec fn windows_of(fences: Seq<Fence>) -> Seq<isize>
    decreases fences.len(),
{
    if fences.len() == 0 {
        Seq::empty()
    } else if fences.last().valid {
        windows_of(fences.drop_last()).push(fences.last().hwnd)
    } else {
        windows_of(fences.drop_last())
    }
}

/// Switches whether fences fade while the pointer is elsewhere; the windows to draw anew.
pub fn toggle_ghost(g: &mut Global) -> (hwnds: Vec<isize>)
    ensures
        *final(g) == (Global {
            config: Config { ghost_mode: !old(g).config.ghost_mode, ..old(g).config },
            ..*old(g)
        }),
        hwnds@ == windows_of(old(g).fences@),
{
    g.config.ghost_mode = !g.config.ghost_mode;
    let mut hwnds: Vec<isize> = Vec::new();
    for i in 0..g.fences.len()
        invariant
            g.fences == old(g).fences,
            *g == (Global {
                config: Config { ghost_mode: !old(g).config.ghost_mode, ..old(g).config },
                ..*old(g)
            }),
            hwnds@ == windows_of(g.fences@.take(i as int)),
    {
        assert(g.fences@.take(i + 1).drop_last() =~= g.fences@.take(i as int));
        if g.fences[i].valid {
            hwnds.push(g.fences[i].hwnd);
        }
    }
    assert(g.fences@.take(g.fences@.len() as int) =~= g.fences@);
    hwnds
}

/// Switches whether the program starts with Windows; whether it does now.
pub fn toggle_autostart(g: &mut Global) -> (on: bool)
    ensures
        on == !old(g).config.autostart,
        *final(g) == (Global { config: Config { autostart: on, ..old(g).config }, ..*old(g) }),
{
    g.config.autostart = !g.config.autostart;
    g.config.autostart
}

/// What switching the making of room for fences comes to.
#[derive(Clone, Copy, Debug, PartialEq, Eq, Structural)]
pub enum Avoidance {
    /// Icons make room from now on.
    On,
    /// They stay where they are; whether Explorer's own arranging has to be switched on again.
    Off { switch_on: bool },
}

/// Switches whether desktop icons make room for fences, where Explorer's own arranging is on or not.
/// Where they no longer do, what was moved stays and is forgotten.
pub fn toggle_avoidance(g: &mut Global, h: &mut History, arranging_is_on: bool) -> (a: Avoidance)
    ensures
        *final(g) == (Global {
            config: Config { desktop_avoid: !old(g).config.desktop_avoid, ..old(g).config },
            ..*old(g)
        }),
        match a {
            Avoidance::On => !old(g).config.desktop_avoid && *final(h) == *old(h),
            Avoidance::Off { switch_on } => {
                &&& old(g).config.desktop_avoid
                &&& switch_on == (old(h).autoarrange_was_on && !arranging_is_on)
                &&& !final(h).autoarrange_was_on
                &&& final(h).icons@.len() == 0
                &&& final(h).fences@.len() == 0
            },
        },
{
    g.config.desktop_avoid = !g.config.desktop_avoid;
    if g.config.desktop_avoid {
        Avoidance::On
    } else {
        let switch_on: bool = restore_autoarrange(h, arranging_is_on);
        clear_history(h);
        Avoidance::Off { switch_on }
    }
}

/// What was taken out to load the settings anew.
pub struct Reloaded {
    pub fences: Vec<Fence>,
    pub watchers: Vec<ManagedWatcher>,
}

/// Takes the settings `config` in place of the present ones: all fences are taken out, with their
/// watchers, to be closed; the program's own watchers go on.
pub fn begin_reload(g: &mut Global, config: Config) -> (out: Reloaded)
    ensures
        final(g).config == config,
        final(g).fences@.len() == 0,
        final(g).watchers@ == serving(old(g).watchers@, WatcherOwner::Process),
        final(g).next_id == old(g).next_id,
        final(g).zen == old(g).zen,
        out.fences@ == old(g).fences@,
        out.watchers@ == not_serving(old(g).watchers@, WatcherOwner::Process),
{
    g.config = config;
    let watchers = take_fence_watchers(g);
    let mut fences: Vec<Fence> = Vec::new();
    std::mem::swap(&mut fences, &mut g.fences);
    Reloaded { fences, watchers }
}

// ---------- timers ----------

/// The timer by which lost windows are found.
pub const TID_WATCHDOG: usize = 1;

/// The timer by which failed moves are tried again.
pub const TID_SWEEP_RETRY: usize = 3;

/// The timer by which waiting downloads and shortcuts are looked at.
pub const TID_DOWNLOADS: usize = 4;

/// The timer by which fences are kept right above the desktop.
pub const TID_DESKTOP_LAYER: usize = 5;

/// What a timer is for.
#[derive(Clone, Copy, Debug, PartialEq, Eq, Structural)]
pub enum TimerTask {
    Watchdog,
    SweepRetry,
    /// Downloads, then shortcuts.
    NewFiles,
    DesktopLayer,
    Nothing,
}

/// The message of a hotkey that was pressed.
pub const WM_HOTKEY: u32 = 0x0312;

/// What a message to the window of the program says.
#[derive(Clone, Copy, Debug, PartialEq, Eq, Structural)]
pub enum ProgramEvent {
    Tray(TrayClick),
    /// The fences hide, or come back.
    Hotkey,
    Timer(TimerTask),
    /// Commands wait.
    Commands,
    /// The program ends.
    Destroyed,
    /// For the system to handle.
    Other,
}

/// What a timer is for.
pub open spec fn task_of(id: int) -> TimerTask {
    if id == TID_WATCHDOG {
        TimerTask::Watchdog
    } else if id == TID_SWEEP_RETRY {
        TimerTask::SweepRetry
    } else if id == TID_DOWNLOADS {
        TimerTask::NewFiles
    } else if id == TID_DESKTOP_LAYER {
        TimerTask::DesktopLayer
    } else {
        TimerTask::Nothing
    }
}

/// See [`task_of`].
pub fn timer_task(id: usize) -> (task: TimerTask)
    ensures
        task == task_of(id as int),
{
    match id {
        1 => TimerTask::Watchdog,
        3 => TimerTask::SweepRetry,
        4 => TimerTask::NewFiles,
        5 => TimerTask::DesktopLayer,
        _ => TimerTask::Nothing,
    }
}

/// See [`ProgramEvent`].
pub fn program_event(msg: u32, wparam: usize, lparam: usize) -> (event: ProgramEvent)
    ensures
        event == (if msg == WM_APP_TRAY {
            ProgramEvent::Tray(click_of(lparam as int))
        } else if msg == WM_HOTKEY {
            ProgramEvent::Hotkey
        } else if msg == WM_TIMER {
            ProgramEvent::Timer(task_of(wparam as int))
        } else if msg == WM_APP_DISPATCH {
            ProgramEvent::Commands
        } else if msg == WM_DESTROY {
            ProgramEvent::Destroyed
        } else {
            ProgramEvent::Other
        }),
{
    if msg == WM_APP_TRAY {
        ProgramEvent::Tray(tray_click((lparam % 0x1_0000) as u32))
    } else if msg == WM_HOTKEY {
        ProgramEvent::Hotkey
    } else if msg == WM_TIMER {
        ProgramEvent::Timer(timer_task(wparam))
    } else if msg == WM_APP_DISPATCH {
        ProgramEvent::Commands
    } else if msg == WM_DESTROY {
        ProgramEvent::Destroyed
    } else {
        ProgramEvent::Other
    }
}

} // verus!
