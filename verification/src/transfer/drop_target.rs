//! Dropping files into a fence: what is offered back, and where the paths come from.

use super::drag_source::{DROPEFFECT_COPY, DROPEFFECT_MOVE, DROPEFFECT_NONE};
use crate::watcher::le32;
use vstd::prelude::*;

verus! {

/// Whether `effect` allows a copy.
pub open spec fn allows_copy(effect: u32) -> bool {
    effect % 2 == 1
}

/// Whether `effect` allows a move.
pub open spec fn allows_move(effect: u32) -> bool {
    effect / 2 % 2 == 1
}

/// Whether Control is down.
pub open spec fn has_control(keys: u32) -> bool {
    keys / 8 % 2 == 1
}

/// The one effect of those allowed that a fence takes: with Control a copy, else a move; what is not
/// allowed gives way to what is.
pub open spec fn picked(allowed: u32, keys: u32) -> u32 {
    if allows_copy(allowed) && (has_control(keys) || !allows_move(allowed)) {
        DROPEFFECT_COPY
    } else if allows_move(allowed) {
        DROPEFFECT_MOVE
    } else {
        DROPEFFECT_NONE
    }
}

/// See [`picked`].
pub fn pick_effect(allowed: u32, keys: u32) -> (effect: u32)
    ensures
        effect == picked(allowed, keys),
{
    if keys / 8 % 2 == 1 && allowed % 2 == 1 {
        DROPEFFECT_COPY
    } else if allowed / 2 % 2 == 1 {
        DROPEFFECT_MOVE
    } else if allowed % 2 == 1 {
        DROPEFFECT_COPY
    } else {
        DROPEFFECT_NONE
    }
}

/// The effect is never one that the source does not allow, and there is one wherever the source
/// allows a copy or a move.
pub proof fn the_effect_is_allowed(allowed: u32, keys: u32)
    ensures
        picked(allowed, keys) == DROPEFFECT_COPY ==> allows_copy(allowed),
        picked(allowed, keys) == DROPEFFECT_MOVE ==> allows_move(allowed),
        picked(allowed, keys) == DROPEFFECT_NONE <==> !allows_copy(allowed) && !allows_move(allowed),
{
}

/// Where the source allows both, files are moved (2), and copied (1) while Control, the fourth of the
/// keys' bits, is down; where it allows only one of them that is what is done, whatever the keys.
pub proof fn files_are_moved_unless_control_is_down(
    copy: u32,
    mv: u32,
    other: u32,
    control: u32,
    low: u32,
    high: u32,
)
    requires
        copy <= 1,
        mv <= 1,
        other <= 0x3fff_ffff,
        control <= 1,
        low < 8,
        high <= 0xfff_ffff,
    ensures
        ({
            let allowed = (copy + 2 * mv + 4 * other) as u32;
            let keys = (low + 8 * control + 16 * high) as u32;
            picked(allowed, keys) == if copy == 1 && mv == 1 {
                if control == 1 {
                    1u32
                } else {
                    2
                }
            } else if mv == 1 {
                2
            } else if copy == 1 {
                1
            } else {
                0
            }
        }),
{
    let allowed = (copy + 2 * mv + 4 * other) as u32;
    let keys = (low + 8 * control + 16 * high) as u32;
    assert(allowed % 2 == copy && allowed / 2 % 2 == mv);
    assert(keys / 8 == control + 2 * high);
}

/// The fence as a target of drops.
#[derive(Clone, Copy, Debug, PartialEq, Eq, Structural)]
pub struct FenceDropTarget {
    /// Whether what is over it has paths.
    pub accepts: bool,
}

/// The effect over a fence.
pub open spec fn effect_over(accepts: bool, allowed: u32, keys: u32) -> u32 {
    if accepts {
        picked(allowed, keys)
    } else {
        DROPEFFECT_NONE
    }
}

impl FenceDropTarget {
    /// Nothing is over it.
    pub fn new() -> (t: FenceDropTarget)
        ensures
            !t.accepts,
    {
        FenceDropTarget { accepts: false }
    }

    /// Something comes over it, with paths or without; the effect to show.
    pub fn drag_enter(&mut self, has_paths: bool, allowed: u32, keys: u32) -> (effect: u32)
        ensures
            final(self).accepts == has_paths,
            effect == effect_over(has_paths, allowed, keys),
    {
        self.accepts = has_paths;
        if has_paths {
            pick_effect(allowed, keys)
        } else {
            DROPEFFECT_NONE
        }
    }

    /// Something moves over it; the effect to show.
    pub fn drag_over(&self, allowed: u32, keys: u32) -> (effect: u32)
        ensures
            effect == effect_over(self.accepts, allowed, keys),
    {
        if self.accepts {
            pick_effect(allowed, keys)
        } else {
            DROPEFFECT_NONE
        }
    }

    /// What was over it leaves.
    pub fn drag_leave(&mut self)
        ensures
            !final(self).accepts,
    {
        self.accepts = false;
    }

    /// Something is dropped on it: the effect to go by, none where it has no paths.
    pub fn drop_effect(&mut self, path_count: usize, allowed: u32, keys: u32) -> (effect: u32)
        ensures
            !final(self).accepts,
            effect == effect_over(path_count > 0, allowed, keys),
    {
        self.accepts = false;
        if path_count == 0 {
            DROPEFFECT_NONE
        } else {
            pick_effect(allowed, keys)
        }
    }
}

/// The effect to report behind a drop: the one gone by if the files were taken, else none.
pub fn reported_effect(selected: u32, taken: bool) -> (effect: u32)
    ensures
        effect == (if taken {
            selected
        } else {
            DROPEFFECT_NONE
        }),
{
    if taken {
        selected
    } else {
        DROPEFFECT_NONE
    }
}

/// Where the paths of a drop are taken from next.
#[derive(Clone, Copy, Debug, PartialEq, Eq, Structural)]
pub enum PathSource {
    /// The list of files.
    FileList,
    /// The shell's list of items.
    ItemList,
    Nowhere,
}

/// The first place for the paths of a drop: the list of files, where it is offered; else the shell's
/// list of items, where that is.
pub fn first_path_source(file_list: bool, item_list: bool) -> (source: PathSource)
    ensures
        source == (if file_list {
            PathSource::FileList
        } else if item_list {
            PathSource::ItemList
        } else {
            PathSource::Nowhere
        }),
{
    if file_list {
        PathSource::FileList
    } else if item_list {
        PathSource::ItemList
    } else {
        PathSource::Nowhere
    }
}

/// Where to look behind `source`, which gave `found` paths: an empty list of files leaves the shell's
/// list of items.
pub fn next_path_source(source: PathSource, found: usize, item_list: bool) -> (next: PathSource)
    ensures
        next == (if source == PathSource::FileList && found == 0 && item_list {
            PathSource::ItemList
        } else {
            PathSource::Nowhere
        }),
{
    if source == PathSource::FileList && found == 0 && item_list {
        PathSource::ItemList
    } else {
        PathSource::Nowhere
    }
}

/// The places within a block of the shell's item identifiers: that of their folder, and that of each.
pub struct ItemOffsets {
    pub parent: u32,
    pub children: Vec<u32>,
}

/// Reads the places out of a block (`CIDA`): a count, the place of the folder, and as many places of
/// items. None where the block is too short for them.
pub fn item_offsets(block: &[u8]) -> (offsets: Option<ItemOffsets>)
    ensures
        match offsets {
            Some(o) => {
                &&& block@.len() >= 4
                &&& block@.len() >= 8 + 4 * le32(block@, 0)
                &&& o.parent == le32(block@, 4)
                &&& o.children@.len() == le32(block@, 0)
                &&& forall|i: int|
                    0 <= i < o.children@.len() ==> #[trigger] o.children@[i] == le32(
                        block@,
                        8 + 4 * i,
                    )
            },
            None => block@.len() < 4 || block@.len() < 8 + 4 * le32(block@, 0),
        },
{
    if block.len() < 8 {
        return None;
    }
    let n: u32 = word_at(block, 0);
    if (block.len() as u64 - 8) / 4 < n as u64 {
        return None;
    }
    let mut children: Vec<u32> = Vec::new();
    let mut at: usize = 8;
    for i in 0..n
        invariant
            n == le32(block@, 0),
            block@.len() >= 8 + 4 * n,
            block@.len() <= usize::MAX,
            at == 8 + 4 * i,
            children@.len() == i,
            forall|j: int| 0 <= j < i ==> #[trigger] children@[j] == le32(block@, 8 + 4 * j),
    {
        children.push(word_at(block, at));
        at += 4;
    }
    Some(ItemOffsets { parent: word_at(block, 4), children })
}

fn word_at(b: &[u8], at: usize) -> (n: u32)
    requires
        at + 4 <= b@.len(),
    ensures
        n == le32(b@, at as int),
{
    b[at] as u32 + 256 * (b[at + 1] as u32) + 65536 * (b[at + 2] as u32) + 16777216 * (b[at
        + 3] as u32)
}

} // verus!
