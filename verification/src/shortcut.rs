//! New shortcuts on the desktop: which box takes them, and which of them a drag just put there.

use crate::text::{
    all_digits, ascii_lower, ascii_lowercase, chars_of, eq_ignore_ascii_case, is_digit, lowercase, owned,
    to_lowercase, views,
};
use crate::tracking::{
    fresh, lists, places, set_of, with_path, FileCandidate, PathSet, Pending, Waiting, READY_TICKS,
};
use crate::winpath::{
    a_name_splits_at_its_last_dot, extension, extension_of, file_stem, file_stem_of, is_local,
    is_plain, is_verbatim, join, name_end, parent, parent_of, place, prefix_len, same_place,
    takes_names, the_parent_of_a_joined_name_reads_like_the_folder, Place,
};
use vstd::prelude::*;
use vstd::string::*;

verus! {

/// The extension of `path` in small letters, with its dot; nothing where it has none.
pub open spec fn dotted_extension(path: Seq<char>) -> Seq<char> {
    match extension(path) {
        Some(ext) => "."@ + lowercase(ext),
        None => Seq::empty(),
    }
}

/// See [`dotted_extension`].
pub fn ext_of(path: &str) -> (ext: String)
    ensures
        ext@ == dotted_extension(path@),
{
    match extension_of(path) {
        Some(ext) => {
            let low = to_lowercase(ext.as_str());
            owned(".").concat(low.as_str())
        },
        None => String::new(),
    }
}

/// Whether `path` names a shortcut: its extension is `lnk`, in any case.
pub open spec fn names_shortcut(path: Seq<char>) -> bool {
    extension(path) is Some && ascii_lowercase(extension(path)->0) == ascii_lowercase("lnk"@)
}

/// See [`names_shortcut`].
pub fn is_shortcut(path: &str) -> (yes: bool)
    ensures
        yes == names_shortcut(path@),
{
    match extension_of(path) {
        Some(ext) => eq_ignore_ascii_case(ext.as_str(), "lnk"),
        None => false,
    }
}

/// The file `stem.ext` in a folder is a shortcut if and only if `ext` is l, n, k, each large or small.
pub proof fn a_shortcut_ends_in_lnk(d: Seq<char>, stem: Seq<char>, ext: Seq<char>)
    requires
        takes_names(d),
        is_plain(stem + seq!['.'] + ext),
        stem.len() > 0,
        !ext.contains('.'),
    ensures
        names_shortcut(join(d, stem + seq!['.'] + ext)) <==> ext.len() == 3 && (ext[0] == 'l'
            || ext[0] == 'L') && (ext[1] == 'n' || ext[1] == 'N') && (ext[2] == 'k' || ext[2]
            == 'K'),
{
    a_name_splits_at_its_last_dot(d, stem, ext);
    reveal_strlit("lnk");
    let (a, b) = (ascii_lowercase(ext), ascii_lowercase("lnk"@));
    if ext.len() == 3 {
        assert(a.len() == 3 && b.len() == 3);
        assert(a[0] == ascii_lower(ext[0]) && a[1] == ascii_lower(ext[1]) && a[2] == ascii_lower(
            ext[2],
        ));
        assert(b[0] == 'l' && b[1] == 'n' && b[2] == 'k');
        assert(a == b <==> a[0] == b[0] && a[1] == b[1] && a[2] == b[2]) by {
            if a[0] == b[0] && a[1] == b[1] && a[2] == b[2] {
                assert(a =~= b);
            }
        }
        only_its_capital_becomes_a_letter(ext[0], 'l', 'L');
        only_its_capital_becomes_a_letter(ext[1], 'n', 'N');
        only_its_capital_becomes_a_letter(ext[2], 'k', 'K');
    } else {
        assert(a.len() != b.len());
    }
}

proof fn only_its_capital_becomes_a_letter(c: char, small: char, capital: char)
    requires
        'a' <= small && small <= 'z',
        capital as u32 + 32 == small as u32,
    ensures
        ascii_lower(c) == small <==> c == small || c == capital,
{
    if 'A' <= c && c <= 'Z' {
        let n = (c as u32 + 32) as u32;
        assert(n < 0xd800);
        assert(n as char as u32 == n);
        if n as char == small {
            assert(c as u32 == capital as u32);
            assert(c == capital);
        }
        if c == capital {
            assert(n == small as u32);
        }
    }
}

/// What a box holds.
#[derive(Clone, Copy, Debug, PartialEq, Eq, Structural)]
pub struct CollectionStats {
    pub id: u32,
    pub shortcuts: u64,
    pub files: u64,
}

/// One thing in a folder.
pub struct Listed {
    pub path: String,
    pub is_file: bool,
}

/// How many of `entries` are files that are shortcuts (or files that are not).
pub open spec fn count_files(entries: Seq<Listed>, shortcuts: bool) -> nat
    decreases entries.len(),
{
    if entries.len() == 0 {
        0
    } else {
        let e = entries.last();
        count_files(entries.drop_last(), shortcuts) + if e.is_file && names_shortcut(e.path@)
            == shortcuts {
            1nat
        } else {
            0nat
        }
    }
}

proof fn count_is_bounded(entries: Seq<Listed>, shortcuts: bool)
    ensures
        count_files(entries, shortcuts) <= entries.len(),
    decreases entries.len(),
{
    if entries.len() > 0 {
        count_is_bounded(entries.drop_last(), shortcuts);
    }
}

/// Each file counts once, as a shortcut or as another file, and a folder does not count: one entry
/// more adds one to the number it belongs to, and nothing to the other.
pub proof fn each_file_counts_once(entries: Seq<Listed>, more: Listed)
    ensures
        count_files(entries.push(more), true) + count_files(entries.push(more), false)
            == count_files(entries, true) + count_files(entries, false) + if more.is_file {
            1nat
        } else {
            0
        },
        count_files(entries.push(more), true) > count_files(entries, true) <==> more.is_file
            && extension(more.path@) is Some && ascii_lowercase(extension(more.path@)->0)
            == ascii_lowercase("lnk"@),
        count_files(Seq::empty(), true) == 0 && count_files(Seq::empty(), false) == 0,
{
    assert(entries.push(more).drop_last() =~= entries);
}

/// Counts the files of box `id`: shortcuts and others. Folders count as neither. None where the
/// folder could not be listed.
pub fn scan_collection(id: u32, entries: &Option<Vec<Listed>>) -> (stats: Option<CollectionStats>)
    ensures
        match stats {
            Some(stats) => entries is Some && stats.id == id && stats.shortcuts == count_files(
                entries->0@,
                true,
            ) && stats.files == count_files(entries->0@, false),
            None => entries is None,
        },
{
    match entries {
        Some(entries) => {
            let mut shortcuts: u64 = 0;
            let mut files: u64 = 0;
            for i in 0..entries.len()
                invariant
                    shortcuts == count_files(entries@.take(i as int), true),
                    files == count_files(entries@.take(i as int), false),
            {
                let ghost next = entries@.take(i + 1);
                proof {
                    assert(next.drop_last() =~= entries@.take(i as int));
                    count_is_bounded(next, true);
                    count_is_bounded(next, false);
                }
                if entries[i].is_file {
                    if is_shortcut(entries[i].path.as_str()) {
                        shortcuts = shortcuts + 1;
                    } else {
                        files = files + 1;
                    }
                }
            }
            assert(entries@.take(entries@.len() as int) =~= entries@);
            Some(CollectionStats { id, shortcuts, files })
        },
        None => None,
    }
}

/// How many files a box holds, at least 1.
pub open spec fn total_files(s: CollectionStats) -> int {
    if s.shortcuts + s.files > u64::MAX {
        u64::MAX as int
    } else if s.shortcuts + s.files == 0 {
        1
    } else {
        s.shortcuts + s.files
    }
}

/// Whether `a` is the better box for a shortcut: a larger share of shortcuts; with equal shares,
/// more of them; with equal numbers, the lower id.
pub open spec fn beats(a: CollectionStats, b: CollectionStats) -> bool {
    let left = a.shortcuts * total_files(b);
    let right = b.shortcuts * total_files(a);
    ||| left > right
    ||| left == right && a.shortcuts > b.shortcuts
    ||| left == right && a.shortcuts == b.shortcuts && a.id < b.id
}

/// Whether no box has a shortcut.
pub open spec fn no_shortcuts(stats: Seq<CollectionStats>) -> bool {
    forall|i: int| 0 <= i < stats.len() ==> (#[trigger] stats[i]).shortcuts == 0
}

/// Whether some box has no file.
pub open spec fn some_empty(stats: Seq<CollectionStats>) -> bool {
    exists|i: int| 0 <= i < stats.len() && (#[trigger] stats[i]).files == 0
}

/// Whether box `i` is the one to take a shortcut. While no box has one: the empty box with the
/// lowest id, or where none is empty the box with the lowest id. Else a box that no other beats.
pub open spec fn is_choice(stats: Seq<CollectionStats>, i: int) -> bool {
    &&& 0 <= i < stats.len()
    &&& if no_shortcuts(stats) {
        if some_empty(stats) {
            stats[i].files == 0 && forall|j: int|
                0 <= j < stats.len() && (#[trigger] stats[j]).files == 0 ==> stats[i].id
                    <= stats[j].id
        } else {
            forall|j: int| 0 <= j < stats.len() ==> stats[i].id <= (#[trigger] stats[j]).id
        }
    } else {
        forall|j: int| 0 <= j < stats.len() ==> !beats(#[trigger] stats[j], stats[i])
    }
}

proof fn ratio_is_transitive(a: int, x: int, b: int, y: int, c: int, z: int)
    by (nonlinear_arith)
    requires
        x > 0,
        y > 0,
        z > 0,
        a * y >= b * x,
        b * z >= c * y,
    ensures
        a * z >= c * x,
        a * z == c * x ==> a * y == b * x && b * z == c * y,
{
    assert((a * y) * z >= (b * x) * z);
    assert((b * z) * x >= (c * y) * x);
    assert((a * z) * y >= (c * x) * y) by {
        assert((a * z) * y == (a * y) * z);
        assert((b * x) * z == (b * z) * x);
        assert((c * y) * x == (c * x) * y);
    }
}

proof fn beating_is_transitive(a: CollectionStats, b: CollectionStats, c: CollectionStats)
    requires
        beats(a, b),
        !beats(c, b),
    ensures
        !beats(c, a),
        beats(a, c) || (a.shortcuts * total_files(c) == c.shortcuts * total_files(a) && a.shortcuts
            == c.shortcuts && a.id == c.id),
{
    ratio_is_transitive(
        a.shortcuts as int,
        total_files(a),
        b.shortcuts as int,
        total_files(b),
        c.shortcuts as int,
        total_files(c),
    );
}

fn total_of(s: CollectionStats) -> (n: u128)
    ensures
        n == total_files(s),
        0 < n <= u64::MAX,
{
    let sum: u128 = s.shortcuts as u128 + s.files as u128;
    if sum > u64::MAX as u128 {
        u64::MAX as u128
    } else if sum == 0 {
        1
    } else {
        sum
    }
}

fn is_better(a: CollectionStats, b: CollectionStats) -> (yes: bool)
    ensures
        yes == beats(a, b),
{
    let ta: u128 = total_of(a);
    let tb: u128 = total_of(b);
    proof {
        assert(a.shortcuts * tb <= 0xffff_ffff_ffff_ffff * 0xffff_ffff_ffff_ffff)
            by (nonlinear_arith)
            requires
                0 <= a.shortcuts <= 0xffff_ffff_ffff_ffff,
                0 <= tb <= 0xffff_ffff_ffff_ffff,
        ;
        assert(b.shortcuts * ta <= 0xffff_ffff_ffff_ffff * 0xffff_ffff_ffff_ffff)
            by (nonlinear_arith)
            requires
                0 <= b.shortcuts <= 0xffff_ffff_ffff_ffff,
                0 <= ta <= 0xffff_ffff_ffff_ffff,
        ;
    }
    let left: u128 = (a.shortcuts as u128) * tb;
    let right: u128 = (b.shortcuts as u128) * ta;
    left > right || (left == right && (a.shortcuts > b.shortcuts || (a.shortcuts == b.shortcuts
        && a.id < b.id)))
}

/// The box that a new shortcut goes to; see [`is_choice`].
pub fn choose_collection(stats: &[CollectionStats]) -> (id: Option<u32>)
    ensures
        match id {
            Some(id) => exists|i: int| #[trigger] is_choice(stats@, i) && stats@[i].id == id,
            None => stats@.len() == 0,
        },
{
    if stats.len() == 0 {
        return None;
    }
    let mut bare: bool = true;
    let mut empty: bool = false;
    for i in 0..stats.len()
        invariant
            bare == (forall|j: int| 0 <= j < i ==> (#[trigger] stats@[j]).shortcuts == 0),
            empty == (exists|j: int| 0 <= j < i && (#[trigger] stats@[j]).files == 0),
    {
        if stats[i].shortcuts != 0 {
            bare = false;
        }
        if stats[i].files == 0 {
            empty = true;
        }
    }
    let mut best: usize = 0;
    if bare && empty {
        let mut found: bool = false;
        for i in 0..stats.len()
            invariant
                found == (exists|j: int| 0 <= j < i && (#[trigger] stats@[j]).files == 0),
                found ==> best < stats@.len() && stats@[best as int].files == 0,
                found ==> forall|j: int|
                    0 <= j < i && (#[trigger] stats@[j]).files == 0 ==> stats@[best as int].id
                        <= stats@[j].id,
        {
            if stats[i].files == 0 && (!found || stats[i].id < stats[best].id) {
                best = i;
                found = true;
            }
        }
    } else if bare {
        for i in 0..stats.len()
            invariant
                best < stats@.len(),
                forall|j: int| 0 <= j < i ==> stats@[best as int].id <= (#[trigger] stats@[j]).id,
        {
            if stats[i].id < stats[best].id {
                best = i;
            }
        }
    } else {
        for i in 0..stats.len()
            invariant
                best < stats@.len(),
                forall|j: int| 0 <= j < i ==> !beats(#[trigger] stats@[j], stats@[best as int]),
        {
            if is_better(stats[i], stats[best]) {
                assert forall|j: int| 0 <= j < i implies !beats(
                    #[trigger] stats@[j],
                    stats@[i as int],
                ) by {
                    beating_is_transitive(stats@[i as int], stats@[best as int], stats@[j]);
                }
                best = i;
            }
        }
    }
    assert(is_choice(stats@, best as int));
    Some(stats[best].id)
}

/// The choice is one box: any two that could be chosen have the same id.
pub proof fn the_choice_is_unique(stats: Seq<CollectionStats>, i: int, j: int)
    requires
        is_choice(stats, i),
        is_choice(stats, j),
    ensures
        stats[i].id == stats[j].id,
{
    if !no_shortcuts(stats) {
        assert(!beats(stats[i], stats[j]) && !beats(stats[j], stats[i]));
    }
}

/// Once box `k` has a shortcut, the chosen box `c` has the largest share of shortcuts among all that it
/// holds: no box `b` has a larger one. Of equal shares it is the one with more shortcuts, of equal
/// numbers the lowest id. So a box of nothing but shortcuts is never passed over for one that holds
/// another file.
pub proof fn the_choice_has_the_largest_share(
    stats: Seq<CollectionStats>,
    c: int,
    b: int,
    k: int,
)
    requires
        is_choice(stats, c),
        0 <= b < stats.len(),
        0 <= k < stats.len(),
        stats[k].shortcuts > 0,
        forall|i: int|
            0 <= i < stats.len() ==> (#[trigger] stats[i]).shortcuts + stats[i].files <= u64::MAX,
    ensures
        stats[c].shortcuts > 0,
        stats[c].shortcuts * (stats[b].shortcuts + stats[b].files) >= stats[b].shortcuts * (
        stats[c].shortcuts + stats[c].files),
        stats[c].shortcuts * (stats[b].shortcuts + stats[b].files) == stats[b].shortcuts * (
        stats[c].shortcuts + stats[c].files) && stats[b].shortcuts > 0 ==> stats[c].shortcuts
            > stats[b].shortcuts || (stats[c].shortcuts == stats[b].shortcuts && stats[c].id
            <= stats[b].id),
        stats[b].shortcuts > 0 && stats[b].files == 0 ==> stats[c].files == 0,
{
    assert(!no_shortcuts(stats));
    let (x, y, z) = (stats[c], stats[b], stats[k]);
    assert(!beats(y, x) && !beats(z, x));
    assert(x.shortcuts > 0) by {
        if x.shortcuts == 0 {
            assert(x.shortcuts * total_files(z) == 0) by (nonlinear_arith)
                requires
                    x.shortcuts == 0,
            ;
            assert(z.shortcuts * total_files(x) > 0) by (nonlinear_arith)
                requires
                    z.shortcuts > 0,
                    total_files(x) > 0,
            ;
        }
    }
    if y.shortcuts + y.files == 0 {
        assert(x.shortcuts * (y.shortcuts + y.files) == 0 && y.shortcuts * (x.shortcuts + x.files)
            == 0) by (nonlinear_arith)
            requires
                y.shortcuts == 0,
                y.files == 0,
        ;
    } else {
        assert(total_files(y) == y.shortcuts + y.files);
        assert(total_files(x) == x.shortcuts + x.files);
    }
    if y.shortcuts > 0 && y.files == 0 && x.files > 0 {
        assert(x.shortcuts * (y.shortcuts + y.files) < y.shortcuts * (x.shortcuts + x.files))
            by (nonlinear_arith)
            requires
                y.shortcuts > 0,
                y.files == 0,
                x.files > 0,
        ;
    }
}

/// While no box has a shortcut, the chosen box `c` is the one with the lowest id of those without a
/// file, or of all where each has one.
pub proof fn the_first_choice_is_an_empty_box(stats: Seq<CollectionStats>, c: int, b: int)
    requires
        is_choice(stats, c),
        0 <= b < stats.len(),
        forall|i: int| 0 <= i < stats.len() ==> (#[trigger] stats[i]).shortcuts == 0,
    ensures
        stats[b].files == 0 ==> stats[c].files == 0 && stats[c].id <= stats[b].id,
        stats[c].files > 0 ==> stats[c].id <= stats[b].id,
{
}

/// A box that is chosen is chosen again after it took a shortcut.
pub proof fn a_chosen_box_stays_chosen(
    before: Seq<CollectionStats>,
    after: Seq<CollectionStats>,
    c: int,
)
    requires
        is_choice(before, c),
        forall|i: int|
            0 <= i < before.len() ==> (#[trigger] before[i]).shortcuts + before[i].files
                < u64::MAX,
        after == before.update(
            c,
            CollectionStats { shortcuts: (before[c].shortcuts + 1) as u64, ..before[c] },
        ),
    ensures
        is_choice(after, c),
{
    assert(after[c].shortcuts > 0);
    assert(!no_shortcuts(after));
    assert forall|j: int| 0 <= j < after.len() implies !beats(#[trigger] after[j], after[c]) by {
        if j != c {
            let (x, y) = (before[c], before[j]);
            let n = x.shortcuts as int;
            let (tx, ty) = (total_files(x), total_files(y));
            let ux = total_files(after[c]);
            assert(after[j] == y);
            assert(ux == n + 1 + x.files);
            if y.shortcuts == 0 {
                assert(y.shortcuts * ux == 0) by (nonlinear_arith)
                    requires
                        y.shortcuts == 0,
                ;
                assert((n + 1) * ty > 0) by (nonlinear_arith)
                    requires
                        n >= 0,
                        ty > 0,
                ;
            } else {
                assert(!no_shortcuts(before));
                assert(!beats(y, x));
                assert(n > 0) by {
                    if n == 0 {
                        assert(n * ty == 0) by (nonlinear_arith)
                            requires
                                n == 0,
                        ;
                        assert(y.shortcuts * tx > 0) by (nonlinear_arith)
                            requires
                                y.shortcuts > 0,
                                tx > 0,
                        ;
                    }
                }
                assert(tx == n + x.files && ty == y.shortcuts + y.files);
                assert((n + 1) * ty >= y.shortcuts * ux) by (nonlinear_arith)
                    requires
                        n * ty >= y.shortcuts * tx,
                        ux == tx + 1,
                        ty >= y.shortcuts,
                ;
                assert((n + 1) * ty == y.shortcuts * ux ==> n * ty == y.shortcuts * tx)
                    by (nonlinear_arith)
                    requires
                        n * ty >= y.shortcuts * tx,
                        ux == tx + 1,
                        ty >= y.shortcuts,
                ;
            }
        } else {
            assert(!beats(after[c], after[c]));
        }
    }
}

/// A box, where its things are, and what it holds.
pub struct CollectionBox {
    pub stats: CollectionStats,
    pub dir: String,
}

/// What the boxes hold, in order.
pub open spec fn stats_of(boxes: Seq<CollectionBox>) -> Seq<CollectionStats> {
    boxes.map_values(|b: CollectionBox| b.stats)
}

/// The box that a new shortcut goes to, with its folder: the folder of the first box with the chosen
/// id.
pub fn choose_collection_target(boxes: &Vec<CollectionBox>) -> (target: Option<(u32, String)>)
    ensures
        match target {
            Some((id, dir)) => exists|i: int, k: int|
                #![trigger is_choice(stats_of(boxes@), i), boxes@[k]]
                is_choice(stats_of(boxes@), i) && boxes@[i].stats.id == id && 0 <= k
                    < boxes@.len() && boxes@[k].stats.id == id && boxes@[k].dir@ == dir@ && (
                forall|j: int| 0 <= j < k ==> (#[trigger] boxes@[j]).stats.id != id),
            None => boxes@.len() == 0,
        },
{
    let mut stats: Vec<CollectionStats> = Vec::new();
    for i in 0..boxes.len()
        invariant
            stats@ == stats_of(boxes@).take(i as int),
    {
        let ghost before = stats@;
        stats.push(boxes[i].stats);
        assert(stats@ =~= stats_of(boxes@).take(i + 1));
    }
    assert(stats@ =~= stats_of(boxes@));
    match choose_collection(stats.as_slice()) {
        Some(id) => {
            let ghost pick = choose|i: int|
                #[trigger] is_choice(stats_of(boxes@), i) && stats_of(boxes@)[i].id == id;
            assert(boxes@[pick].stats.id == id);
            for k in 0..boxes.len()
                invariant
                    is_choice(stats_of(boxes@), pick),
                    boxes@[pick].stats.id == id,
                    forall|j: int| 0 <= j < k ==> (#[trigger] boxes@[j]).stats.id != id,
            {
                if boxes[k].stats.id == id {
                    assert(is_choice(stats_of(boxes@), pick) && boxes@[k as int].stats.id == id);
                    return Some((id, boxes[k].dir.clone()));
                }
            }
            None
        },
        None => None,
    }
}

/// What the look at a waiting file found.
#[derive(Clone, Copy, Debug, PartialEq, Eq, Structural)]
pub struct FileFacts {
    pub is_file: bool,
    pub len: u64,
    /// Nanoseconds from the Unix epoch, where the system tells the time.
    pub modified: Option<i128>,
}

/// What becomes of a waiting file after a look at it.
#[derive(Clone, Copy, Debug, PartialEq, Eq, Structural)]
pub enum Verdict {
    /// It is not there any more, or is nothing to take: it waits no longer.
    Gone,
    /// It goes on waiting.
    Wait,
    /// It has stayed the same long enough to be moved.
    Ready,
}

/// The verdict on a waiting file `path` of which `known` was known, after a look.
pub open spec fn verdict(
    known: Option<FileCandidate>,
    acceptable: bool,
    facts: Option<FileFacts>,
) -> Verdict {
    match facts {
        Some(facts) if facts.is_file && acceptable => if known is Some && known->0.looked(
            facts.len,
            facts.modified,
        ).stable_ticks >= READY_TICKS {
            Verdict::Ready
        } else {
            Verdict::Wait
        },
        _ => Verdict::Gone,
    }
}

/// What is known of the waiting files after a look at `path`.
pub open spec fn after_look(
    pending: Map<Place, Waiting>,
    path: Seq<char>,
    acceptable: bool,
    facts: Option<FileFacts>,
) -> Map<Place, Waiting> {
    let at = place(path);
    match facts {
        Some(facts) if facts.is_file && acceptable && pending.contains_key(at) => pending.insert(
            at,
            Waiting {
                state: pending[at].state.looked(facts.len, facts.modified),
                ..pending[at]
            },
        ),
        _ => pending,
    }
}

/// What is known of `path`.
pub open spec fn known(pending: Map<Place, Waiting>, path: Seq<char>) -> Option<FileCandidate> {
    if pending.contains_key(place(path)) {
        Some(pending[place(path)].state)
    } else {
        None
    }
}

/// Takes in a look at the waiting file `path`, which may be moved at all only where it is
/// `acceptable`.
pub fn examine(
    pending: &mut Pending,
    path: &str,
    acceptable: bool,
    facts: Option<FileFacts>,
) -> (v: Verdict)
    requires
        old(pending).wf(),
    ensures
        final(pending).wf(),
        final(pending)@ == after_look(old(pending)@, path@, acceptable, facts),
        v == verdict(known(old(pending)@, path@), acceptable, facts),
{
    match facts {
        Some(facts) => if facts.is_file && acceptable {
            if pending.look(path, facts.len, facts.modified) {
                Verdict::Ready
            } else {
                Verdict::Wait
            }
        } else {
            Verdict::Gone
        },
        None => Verdict::Gone,
    }
}

/// What became of a file that waited.
#[derive(Clone, Copy, Debug, PartialEq, Eq, Structural)]
pub enum Fate {
    Waiting,
    /// It is no longer there, or is not such a file.
    Gone,
    /// It went into the fence with this number.
    Moved(u32),
    /// It could not be moved, and waits on.
    Failed,
    /// No fence takes it.
    Unwanted,
}

/// Whether a file waits no longer.
pub open spec fn is_settled(f: Fate) -> bool {
    f is Gone || f is Moved || f is Unwanted
}

/// The files that wait no longer.
pub open spec fn settled_paths(paths: Seq<Seq<char>>, fates: Seq<Fate>) -> Seq<Seq<char>>
    decreases paths.len(),
{
    if paths.len() == 0 {
        Seq::empty()
    } else {
        let before = settled_paths(paths.drop_last(), fates.drop_last());
        if is_settled(fates.last()) {
            before.push(paths.last())
        } else {
            before
        }
    }
}

/// A file waits no longer exactly where it was moved, is gone, or no fence takes it; one that could not be
/// moved waits on.
pub proof fn only_settled_files_wait_no_longer(paths: Seq<Seq<char>>, fates: Seq<Fate>, p: Seq<char>)
    requires
        paths.len() == fates.len(),
    ensures
        settled_paths(paths, fates).contains(p) <==> exists|i: int|
            0 <= i < paths.len() && #[trigger] paths[i] == p && fates[i] != Fate::Waiting
                && fates[i] != Fate::Failed,
    decreases paths.len(),
{
    if paths.len() > 0 {
        let n = paths.len() - 1;
        let (ps, fs) = (paths.drop_last(), fates.drop_last());
        only_settled_files_wait_no_longer(ps, fs, p);
        let before = settled_paths(ps, fs);
        let now = settled_paths(paths, fates);
        if before.contains(p) {
            let k = choose|k: int| 0 <= k < before.len() && before[k] == p;
            assert(now[k] == p);
            let i = choose|i: int|
                0 <= i < ps.len() && #[trigger] ps[i] == p && fs[i] != Fate::Waiting && fs[i]
                    != Fate::Failed;
            assert(paths[i] == p && fates[i] == fs[i]);
        }
        if now.contains(p) && !before.contains(p) {
            let k = choose|k: int| 0 <= k < now.len() && now[k] == p;
            assert(k == before.len()) by {
                if k < before.len() {
                    assert(before[k] == p);
                }
            }
            assert(paths[n] == p);
        }
        if exists|i: int|
            0 <= i < paths.len() && #[trigger] paths[i] == p && fates[i] != Fate::Waiting
                && fates[i] != Fate::Failed {
            let i = choose|i: int|
                0 <= i < paths.len() && #[trigger] paths[i] == p && fates[i] != Fate::Waiting
                    && fates[i] != Fate::Failed;
            if i == n {
                assert(now.last() == p);
                assert(now.contains(p));
            } else {
                assert(ps[i] == p && fs[i] == fates[i]);
            }
        }
    }
}

/// A new file is left alone at the first look and at the second, and taken at the third, where all three
/// found the same; a look that found another length or time begins anew.
pub proof fn a_file_is_taken_at_the_third_look(
    pending: Map<Place, Waiting>,
    path: Seq<char>,
    facts: FileFacts,
    other: FileFacts,
)
    requires
        pending.contains_key(place(path)),
        pending[place(path)].state == FileCandidate::spec_new(),
        facts.is_file,
        other.is_file,
        facts.len != u64::MAX,
        other.len != facts.len || other.modified != facts.modified,
    ensures
        ({
            let one = after_look(pending, path, true, Some(facts));
            let two = after_look(one, path, true, Some(facts));
            let off = after_look(two, path, true, Some(other));
            &&& verdict(known(pending, path), true, Some(facts)) == Verdict::Wait
            &&& verdict(known(one, path), true, Some(facts)) == Verdict::Wait
            &&& verdict(known(two, path), true, Some(facts)) == Verdict::Ready
            &&& verdict(known(two, path), true, Some(other)) == Verdict::Wait
            &&& verdict(known(off, path), true, Some(facts)) == Verdict::Wait
            &&& verdict(known(off, path), true, None) == Verdict::Gone
        }),
{
}

/// See [`settled_paths`].
pub fn settled_of(paths: &Vec<String>, fates: &Vec<Fate>) -> (done: Vec<String>)
    requires
        paths@.len() == fates@.len(),
    ensures
        views(done@) == settled_paths(views(paths@), fates@),
{
    let mut done: Vec<String> = Vec::new();
    let ghost all = views(paths@);
    assert(views(done@) =~= settled_paths(all.take(0), fates@.take(0)));
    for i in 0..paths.len()
        invariant
            paths@.len() == fates@.len(),
            all == views(paths@),
            views(done@) == settled_paths(all.take(i as int), fates@.take(i as int)),
    {
        proof {
            assert(all.take(i + 1).drop_last() =~= all.take(i as int));
            assert(fates@.take(i + 1).drop_last() =~= fates@.take(i as int));
        }
        let ghost before = done@;
        let settled: bool = match fates[i] {
            Fate::Gone | Fate::Moved(_) | Fate::Unwanted => true,
            Fate::Waiting | Fate::Failed => false,
        };
        if settled {
            done.push(owned(paths[i].as_str()));
            assert(views(done@) =~= views(before).push(all[i as int]));
        }
    }
    proof {
        assert(all.take(all.len() as int) =~= all);
        assert(fates@.take(fates@.len() as int) =~= fates@);
    }
    done
}

/// Whether a file went into the fence `id`.
pub open spec fn went_to(fates: Seq<Fate>, id: u32) -> bool {
    exists|i: int| 0 <= i < fates.len() && #[trigger] fates[i] == Fate::Moved(id)
}

fn is_among(ids: &Vec<u32>, id: u32) -> (yes: bool)
    ensures
        yes == ids@.contains(id),
{
    for k in 0..ids.len()
        invariant
            forall|n: int| 0 <= n < k ==> #[trigger] ids@[n] != id,
    {
        if ids[k] == id {
            assert(ids@.contains(ids@[k as int]));
            return true;
        }
    }
    false
}

/// The fences that files went into, each once.
pub fn fences_filled(fates: &Vec<Fate>) -> (ids: Vec<u32>)
    ensures
        ids@.no_duplicates(),
        forall|id: u32| #[trigger] ids@.contains(id) <==> went_to(fates@, id),
{
    let mut ids: Vec<u32> = Vec::new();
    for i in 0..fates.len()
        invariant
            ids@.no_duplicates(),
            forall|id: u32| #[trigger] ids@.contains(id) <==> went_to(fates@.take(i as int), id),
    {
        let ghost before = ids@;
        let ghost seen = fates@.take(i as int);
        let ghost now = fates@.take(i + 1);
        proof {
            assert(now =~= seen.push(fates@[i as int]));
            assert forall|id: u32|
                went_to(now, id) == (went_to(seen, id) || fates@[i as int] == Fate::Moved(id)) by {
                if went_to(seen, id) {
                    let k = choose|k: int|
                        0 <= k < seen.len() && #[trigger] seen[k] == Fate::Moved(id);
                    assert(now[k] == Fate::Moved(id));
                }
                if fates@[i as int] == Fate::Moved(id) {
                    assert(now[i as int] == Fate::Moved(id));
                }
                if went_to(now, id) {
                    let k = choose|k: int|
                        0 <= k < now.len() && #[trigger] now[k] == Fate::Moved(id);
                    if k < i {
                        assert(seen[k] == Fate::Moved(id));
                    }
                }
            }
        }
        match fates[i] {
            Fate::Moved(id) => {
                if !is_among(&ids, id) {
                    ids.push(id);
                }
                assert forall|x: u32| #[trigger]
                    ids@.contains(x) == (before.contains(x) || x == id) by {
                    if before.contains(x) {
                        let n = choose|n: int| 0 <= n < before.len() && before[n] == x;
                        assert(ids@[n] == x);
                    }
                    if x == id && !before.contains(id) {
                        assert(ids@[before.len() as int] == id);
                    }
                }
            },
            _ => {},
        }
        assert forall|x: u32| #[trigger] ids@.contains(x) == went_to(now, x) by {
            assert(before.contains(x) == went_to(seen, x));
        }
    }
    assert(fates@.take(fates@.len() as int) =~= fates@);
    ids
}

/// Lets the file `path` wait if it is a shortcut.
pub fn queue_shortcut_candidate(pending: &mut Pending, path: &str)
    requires
        old(pending).wf(),
    ensures
        final(pending).wf(),
        final(pending)@ == if names_shortcut(path@) && !old(pending)@.contains_key(place(path@)) {
            old(pending)@.insert(place(path@), fresh(path@))
        } else {
            old(pending)@
        },
{
    if is_shortcut(path) {
        pending.or_insert(path);
    }
}

/// Whether a notification of `path` makes it wait.
pub open spec fn is_news(seen: Map<Place, Seq<char>>, path: Seq<char>) -> bool {
    names_shortcut(path) && !seen.contains_key(place(path))
}

/// Lets the file `path` wait if it is a shortcut that was not seen before. So any number of
/// notifications of one file make one candidate.
pub fn queue_new_shortcut_candidate(seen: &mut PathSet, pending: &mut Pending, path: &str)
    requires
        old(seen).wf(),
        old(pending).wf(),
    ensures
        final(seen).wf(),
        final(pending).wf(),
        final(seen)@ == if names_shortcut(path@) {
            with_path(old(seen)@, path@)
        } else {
            old(seen)@
        },
        final(pending)@ == if is_news(old(seen)@, path@) && !old(pending)@.contains_key(
            place(path@),
        ) {
            old(pending)@.insert(place(path@), fresh(path@))
        } else {
            old(pending)@
        },
{
    if is_shortcut(path) {
        if seen.insert(path) {
            queue_shortcut_candidate(pending, path);
        }
    }
}

/// How long behind a drag its own shortcut is still expected on the desktop, in milliseconds.
pub const DRAGOUT_EVENT_TAIL: u64 = 5000;

/// What is kept while a shortcut is dragged out of a fence, and for a while after. Notifications of
/// the desktop arrive while the drag runs; they are held, and sorted when it ends.
pub struct ShortcutDragoutState {
    pub active: bool,
    /// The stem of the dragged file, in small letters.
    pub source_stem: String,
    pub desktop_dirs: Vec<String>,
    pub held: PathSet,
    /// Up to when its own shortcut is still expected, in milliseconds.
    pub ignore_until: Option<u64>,
}

/// [`ShortcutDragoutState`] in mathematical terms.
#[verifier::ext_equal]
pub struct Dragout {
    pub active: bool,
    pub source_stem: Seq<char>,
    pub desktop_dirs: Seq<Seq<char>>,
    pub held: Map<Place, Seq<char>>,
    pub ignore_until: Option<u64>,
}

impl View for ShortcutDragoutState {
    type V = Dragout;

    open spec fn view(&self) -> Dragout {
        Dragout {
            active: self.active,
            source_stem: self.source_stem@,
            desktop_dirs: views(self.desktop_dirs@),
            held: self.held@,
            ignore_until: self.ignore_until,
        }
    }
}

/// Whether two paths are the same but for case.
pub open spec fn same_but_case(a: Seq<char>, b: Seq<char>) -> bool {
    lowercase(a) == lowercase(b)
}

/// See [`same_but_case`].
pub fn same_path(left: &str, right: &str) -> (same: bool)
    ensures
        same == same_but_case(left@, right@),
{
    let a = to_lowercase(left);
    let b = to_lowercase(right);
    a == b
}

/// Whether `stem` is `base` with a number in brackets behind it, as the shell makes it where the
/// name is taken.
pub open spec fn is_numbered(stem: Seq<char>, base: Seq<char>) -> bool {
    exists|digits: Seq<char>| #[trigger]
        numbered(base, digits) == stem && digits.len() > 0 && all_digits(digits)
}

/// `base` with `digits` in brackets behind it.
pub open spec fn numbered(base: Seq<char>, digits: Seq<char>) -> Seq<char> {
    base + " ("@ + digits + ")"@
}

/// See [`is_numbered`].
pub fn is_numbered_name(stem: &str, base: &str) -> (yes: bool)
    ensures
        yes == is_numbered(stem@, base@),
{
    proof {
        reveal_strlit(" (");
        reveal_strlit(")");
    }
    let s = chars_of(stem);
    let b = chars_of(base);
    let ghost n = stem@.len() as int;
    let ghost m = base@.len() as int;
    proof {
        if is_numbered(stem@, base@) {
            let d = choose|digits: Seq<char>| #[trigger]
                numbered(base@, digits) == stem@ && digits.len() > 0 && all_digits(digits);
            assert(n == m + 3 + d.len());
            assert(stem@.subrange(0, m) =~= base@);
            assert(stem@[m] == ' ' && stem@[m + 1] == '(' && stem@[n - 1] == ')');
            assert forall|i: int| m + 2 <= i < n - 1 implies is_digit(#[trigger] stem@[i]) by {
                assert(stem@[i] == d[i - m - 2]);
            }
        }
    }
    if s.len() < 4 || s.len() - 4 < b.len() {
        return false;
    }
    for i in 0..b.len()
        invariant
            b@.len() + 4 <= s@.len(),
            b@ == base@,
            s@ == stem@,
            m == base@.len(),
            is_numbered(stem@, base@) ==> stem@.subrange(0, m) == base@,
            stem@.subrange(0, i as int) == base@.subrange(0, i as int),
    {
        if s[i] != b[i] {
            assert(stem@.subrange(0, m)[i as int] == stem@[i as int]);
            return false;
        }
        assert(stem@.subrange(0, i + 1) =~= stem@.subrange(0, i as int).push(stem@[i as int]));
        assert(base@.subrange(0, i + 1) =~= base@.subrange(0, i as int).push(base@[i as int]));
    }
    assert(base@.subrange(0, m) =~= base@);
    let from: usize = b.len() + 2;
    let to: usize = s.len() - 1;
    if s[b.len()] != ' ' || s[b.len() + 1] != '(' || s[to] != ')' {
        return false;
    }
    for i in from..to
        invariant
            s@ == stem@,
            from == m + 2,
            to == n - 1,
            n == stem@.len(),
            is_numbered(stem@, base@) ==> forall|j: int|
                m + 2 <= j < n - 1 ==> is_digit(#[trigger] stem@[j]),
            forall|j: int| from <= j < i ==> is_digit(#[trigger] stem@[j]),
    {
        if !('0' <= s[i] && s[i] <= '9') {
            assert(!is_digit(stem@[i as int]));
            return false;
        }
    }
    proof {
        let d = stem@.subrange(m + 2, n - 1);
        assert(numbered(base@, d) =~= stem@) by {
            assert(stem@.subrange(0, m) == base@);
            assert forall|i: int| 0 <= i < m implies stem@[i] == base@[i] by {
                assert(stem@.subrange(0, m)[i] == stem@[i]);
            }
        }
        assert(all_digits(d));
    }
    true
}

impl Dragout {
    /// Whether `path` stands directly on one of the desktops.
    pub open spec fn on_desktop(self, path: Seq<char>) -> bool {
        parent(path) is Some && exists|i: int|
            0 <= i < self.desktop_dirs.len() && same_but_case(
                parent(path)->0,
                #[trigger] self.desktop_dirs[i],
            )
    }

    /// Whether `path` has a name that the drag can have given its shortcut.
    pub open spec fn has_dragged_name(self, path: Seq<char>) -> bool {
        file_stem(path) is Some && (lowercase(file_stem(path)->0) == self.source_stem
            || is_numbered(lowercase(file_stem(path)->0), self.source_stem))
    }

    /// Whether `path` is taken to be the dragged shortcut itself.
    pub open spec fn is_own(self, path: Seq<char>) -> bool {
        self.on_desktop(path) && self.has_dragged_name(path)
    }

    /// Whether a notification of `path` at `now` is ignored behind the drag.
    pub open spec fn suppresses(self, path: Seq<char>, now: u64) -> bool {
        self.is_own(path) && names_shortcut(path) && self.ignore_until is Some && now
            <= self.ignore_until->0
    }
}

impl ShortcutDragoutState {
    /// Begins a drag of `source`, where that is a shortcut.
    pub fn begin(source: &str, desktop_dirs: Vec<String>) -> (state: Option<Self>)
        ensures
            match state {
                Some(state) => names_shortcut(source@) && state.held.wf() && state@ == (Dragout {
                    active: true,
                    source_stem: lowercase(file_stem(source@)->0),
                    desktop_dirs: views(desktop_dirs@),
                    held: Map::empty(),
                    ignore_until: None,
                }),
                None => !names_shortcut(source@),
            },
    {
        if !is_shortcut(source) {
            return None;
        }
        match file_stem_of(source) {
            Some(stem) => Some(
                ShortcutDragoutState {
                    active: true,
                    source_stem: to_lowercase(stem.as_str()),
                    desktop_dirs,
                    held: PathSet::new(),
                    ignore_until: None,
                },
            ),
            None => None,
        }
    }

    /// See [`Dragout::on_desktop`].
    pub fn is_desktop_path(&self, path: &str) -> (yes: bool)
        ensures
            yes == self@.on_desktop(path@),
    {
        match parent_of(path) {
            Some(dir) => {
                for i in 0..self.desktop_dirs.len()
                    invariant
                        parent(path@) == Some(dir@),
                        forall|j: int|
                            0 <= j < i ==> !same_but_case(
                                dir@,
                                #[trigger] self@.desktop_dirs[j],
                            ),
                {
                    assert(self@.desktop_dirs[i as int] == self.desktop_dirs@[i as int]@);
                    if same_path(dir.as_str(), self.desktop_dirs[i].as_str()) {
                        return true;
                    }
                }
                false
            },
            None => false,
        }
    }

    /// See [`Dragout::has_dragged_name`].
    pub fn is_dragged_name(&self, path: &str) -> (yes: bool)
        ensures
            yes == self@.has_dragged_name(path@),
    {
        match file_stem_of(path) {
            Some(stem) => {
                let low = to_lowercase(stem.as_str());
                low == self.source_stem || is_numbered_name(
                    low.as_str(),
                    self.source_stem.as_str(),
                )
            },
            None => false,
        }
    }

    /// See [`Dragout::suppresses`].
    pub fn should_suppress(&self, path: &str, now: u64) -> (yes: bool)
        ensures
            yes == self@.suppresses(path@, now),
    {
        self.is_desktop_path(path) && is_shortcut(path) && self.is_dragged_name(path)
            && match self.ignore_until {
            Some(until) => now <= until,
            None => false,
        }
    }

    /// Holds a notification until the drag ends, where it is about a shortcut.
    pub fn hold(&mut self, path: &str)
        requires
            old(self).held.wf(),
        ensures
            final(self).held.wf(),
            final(self)@ == (Dragout {
                held: if names_shortcut(path@) {
                    with_path(old(self)@.held, path@)
                } else {
                    old(self)@.held
                },
                ..old(self)@
            }),
    {
        if is_shortcut(path) {
            self.held.insert(path);
        }
    }

    /// Ends the drag at `now`: what was held comes back, and the drag's own shortcut is expected for
    /// a while longer.
    pub fn finish(&mut self, now: u64) -> (held: Vec<String>)
        requires
            old(self).held.wf(),
            now + DRAGOUT_EVENT_TAIL <= u64::MAX,
        ensures
            final(self).held.wf(),
            final(self)@ == (Dragout {
                active: false,
                held: Map::empty(),
                ignore_until: Some((now + DRAGOUT_EVENT_TAIL) as u64),
                ..old(self)@
            }),
            lists(views(held@), old(self)@.held),
    {
        self.active = false;
        self.ignore_until = Some(now + DRAGOUT_EVENT_TAIL);
        let held = self.held.paths();
        self.held.clear();
        held
    }
}

/// The shortcuts that were seen, those that wait, and the drag that runs or just ended.
pub struct ShortcutTracker {
    pub seen: PathSet,
    pub pending: Pending,
    pub dragout: Option<ShortcutDragoutState>,
}

/// [`ShortcutTracker`] in mathematical terms.
#[verifier::ext_equal]
pub struct Shortcuts {
    pub seen: Map<Place, Seq<char>>,
    pub pending: Map<Place, Waiting>,
    pub dragout: Option<Dragout>,
}

impl View for ShortcutTracker {
    type V = Shortcuts;

    open spec fn view(&self) -> Shortcuts {
        Shortcuts {
            seen: self.seen@,
            pending: self.pending@,
            dragout: match self.dragout {
                Some(d) => Some(d@),
                None => None,
            },
        }
    }
}

impl Shortcuts {
    /// A notification of `path` that nothing keeps back.
    pub open spec fn noticed(self, path: Seq<char>) -> Shortcuts {
        Shortcuts {
            seen: if names_shortcut(path) {
                with_path(self.seen, path)
            } else {
                self.seen
            },
            pending: if is_news(self.seen, path) && !self.pending.contains_key(place(path)) {
                self.pending.insert(place(path), fresh(path))
            } else {
                self.pending
            },
            ..self
        }
    }

    /// A notification of the drag's own shortcut: it counts as seen and does not wait.
    pub open spec fn own(self, path: Seq<char>) -> Shortcuts {
        Shortcuts {
            seen: with_path(self.seen, path),
            pending: self.pending.remove(place(path)),
            ..self
        }
    }

    /// A notification of `path` at `now`.
    pub open spec fn told(self, path: Seq<char>, now: u64) -> Shortcuts {
        match self.dragout {
            Some(d) => if d.active {
                Shortcuts {
                    dragout: Some(
                        Dragout {
                            held: if names_shortcut(path) {
                                with_path(d.held, path)
                            } else {
                                d.held
                            },
                            ..d
                        },
                    ),
                    ..self
                }
            } else if d.suppresses(path, now) {
                self.own(path)
            } else {
                self.noticed(path)
            },
            None => self.noticed(path),
        }
    }

    /// The notifications of `paths`, one by one.
    pub open spec fn told_all(self, paths: Seq<Seq<char>>, now: u64) -> Shortcuts
        decreases paths.len(),
    {
        if paths.len() == 0 {
            self
        } else {
            self.told_all(paths.drop_last(), now).told(paths.last(), now)
        }
    }

    /// An ended drag is forgotten once its time is over.
    pub open spec fn without_expired(self, now: u64) -> Shortcuts {
        match self.dragout {
            Some(d) if !d.active && d.ignore_until is Some && now > d.ignore_until->0 => Shortcuts {
                dragout: None,
                ..self
            },
            _ => self,
        }
    }

    /// The seen files after the held notifications `held` of the drag `d` were sorted.
    pub open spec fn seen_after(self, d: Dragout, held: Map<Place, Seq<char>>) -> Map<
        Place,
        Seq<char>,
    > {
        Map::new(
            |k: Place|
                self.seen.contains_key(k) || (held.contains_key(k) && (d.is_own(held[k])
                    || names_shortcut(held[k]))),
            |k: Place|
                if self.seen.contains_key(k) {
                    self.seen[k]
                } else {
                    held[k]
                },
        )
    }

    /// Whether the file at `k` waits after the held notifications `held` of the drag `d` were sorted.
    pub open spec fn waits_after(self, d: Dragout, held: Map<Place, Seq<char>>, k: Place) -> bool {
        if held.contains_key(k) && d.is_own(held[k]) {
            false
        } else {
            self.pending.contains_key(k) || (held.contains_key(k) && names_shortcut(held[k])
                && !self.seen.contains_key(k))
        }
    }

    /// What waits after the held notifications `held` of the drag `d` were sorted: the drag's own
    /// shortcut does not; the others do as if they had just been told of.
    pub open spec fn pending_after(self, d: Dragout, held: Map<Place, Seq<char>>) -> Map<
        Place,
        Waiting,
    > {
        Map::new(
            |k: Place| self.waits_after(d, held, k),
            |k: Place|
                if self.pending.contains_key(k) {
                    self.pending[k]
                } else {
                    fresh(held[k])
                },
        )
    }
}

proof fn sorting_one(s: Shortcuts, d: Dragout, done: Map<Place, Seq<char>>, path: Seq<char>)
    requires
        !done.contains_key(place(path)),
    ensures
        ({
            let before = Shortcuts {
                seen: s.seen_after(d, done),
                pending: s.pending_after(d, done),
                dragout: s.dragout,
            };
            let after = if d.is_own(path) {
                before.own(path)
            } else {
                before.noticed(path)
            };
            after.seen == s.seen_after(d, done.insert(place(path), path)) && after.pending == s.pending_after(
                d,
                done.insert(place(path), path),
            )
        }),
{
    let before = Shortcuts {
        seen: s.seen_after(d, done),
        pending: s.pending_after(d, done),
        dragout: s.dragout,
    };
    let after = if d.is_own(path) {
        before.own(path)
    } else {
        before.noticed(path)
    };
    assert(after.seen =~= s.seen_after(d, done.insert(place(path), path)));
    assert(after.pending =~= s.pending_after(d, done.insert(place(path), path)));
}

impl ShortcutTracker {
    /// What the parts of the tracker keep.
    pub open spec fn wf(&self) -> bool {
        &&& self.seen.wf()
        &&& self.pending.wf()
        &&& self.dragout matches Some(d) ==> d.held.wf()
    }

    /// Nothing seen but `seen`, nothing waiting, no drag.
    pub fn new(seen: PathSet) -> (tracker: ShortcutTracker)
        requires
            seen.wf(),
        ensures
            tracker.wf(),
            tracker@ == (Shortcuts { seen: seen@, pending: Map::empty(), dragout: None }),
    {
        ShortcutTracker { seen, pending: Pending::new(), dragout: None }
    }

    /// Begins a drag of `source`; whether that is a shortcut.
    pub fn begin_shortcut_dragout(&mut self, source: &str, desktop_dirs: Vec<String>) -> (begun: bool)
        requires
            old(self).wf(),
        ensures
            final(self).wf(),
            begun == names_shortcut(source@),
            !begun ==> final(self)@ == old(self)@,
            begun ==> final(self)@ == (Shortcuts {
                dragout: Some(
                    Dragout {
                        active: true,
                        source_stem: lowercase(file_stem(source@)->0),
                        desktop_dirs: views(desktop_dirs@),
                        held: Map::empty(),
                        ignore_until: None,
                    },
                ),
                ..old(self)@
            }),
    {
        match ShortcutDragoutState::begin(source, desktop_dirs) {
            Some(state) => {
                self.dragout = Some(state);
                true
            },
            None => false,
        }
    }

    /// Ends the drag at `now` and sorts what was held; see [`Shortcuts::seen_after`] and
    /// [`Shortcuts::pending_after`].
    pub fn finish_shortcut_dragout(&mut self, now: u64)
        requires
            old(self).wf(),
            now + DRAGOUT_EVENT_TAIL <= u64::MAX,
        ensures
            final(self).wf(),
            match old(self)@.dragout {
                Some(d) => final(self)@ == (Shortcuts {
                    seen: old(self)@.seen_after(d, d.held),
                    pending: old(self)@.pending_after(d, d.held),
                    dragout: Some(
                        Dragout {
                            active: false,
                            held: Map::empty(),
                            ignore_until: Some((now + DRAGOUT_EVENT_TAIL) as u64),
                            ..d
                        },
                    ),
                }),
                None => final(self)@ == old(self)@,
            },
    {
        let ghost start = self@;
        let taken = self.dragout.take();
        match taken {
            Some(state) => {
                let mut state = state;
                let ghost d = state@;
                let held = state.finish(now);
                let ghost ended = state@;
                let ghost all = views(held@);
                proof {
                    assert(start.seen_after(d, set_of(all.take(0))) =~= start.seen);
                    assert(start.pending_after(d, set_of(all.take(0))) =~= start.pending);
                }
                for i in 0..held.len()
                    invariant
                        self.seen.wf(),
                        self.pending.wf(),
                        self.dragout is None,
                        state@ == ended,
                        ended.source_stem == d.source_stem,
                        ended.desktop_dirs == d.desktop_dirs,
                        all == views(held@),
                        lists(all, d.held),
                        self.seen@ == start.seen_after(d, set_of(all.take(i as int))),
                        self.pending@ == start.pending_after(d, set_of(all.take(i as int))),
                {
                    let path = held[i].as_str();
                    proof {
                        let done = all.take(i as int);
                        assert(all.take(i + 1).drop_last() =~= done);
                        assert(all.take(i + 1).last() == path@);
                        listed_once(all, d.held, i as int);
                        sorting_one(start, d, set_of(done), path@);
                        assert(ended.is_own(path@) == d.is_own(path@));
                    }
                    if state.is_desktop_path(path) && state.is_dragged_name(path) {
                        self.pending.remove(path);
                        self.seen.insert(path);
                    } else {
                        queue_new_shortcut_candidate(&mut self.seen, &mut self.pending, path);
                    }
                }
                proof {
                    assert(all.take(all.len() as int) =~= all);
                    listed_is_all(all, d.held);
                }
                self.dragout = Some(state);
            },
            None => {},
        }
    }

    /// Takes in the notifications of `paths` that arrived up to `now`.
    pub fn ingest_shortcut_events(&mut self, paths: &Vec<String>, now: u64)
        requires
            old(self).wf(),
        ensures
            final(self).wf(),
            final(self)@ == old(self)@.told_all(views(paths@), now).without_expired(now),
    {
        let ghost start = self@;
        let ghost all = views(paths@);
        for i in 0..paths.len()
            invariant
                self.wf(),
                all == views(paths@),
                self@ == start.told_all(all.take(i as int), now),
        {
            let path = paths[i].as_str();
            proof {
                assert(all.take(i + 1).drop_last() =~= all.take(i as int));
                assert(all.take(i + 1).last() == path@);
            }
            self.tell(path, now);
        }
        assert(all.take(all.len() as int) =~= all);
        let expired: bool = match &self.dragout {
            Some(state) => !state.active && match state.ignore_until {
                Some(until) => now > until,
                None => false,
            },
            None => false,
        };
        if expired {
            self.dragout = None;
        }
    }

    fn tell(&mut self, path: &str, now: u64)
        requires
            old(self).wf(),
        ensures
            final(self).wf(),
            final(self)@ == old(self)@.told(path@, now),
    {
        let taken = self.dragout.take();
        match taken {
            Some(state) => {
                let mut state = state;
                if state.active {
                    state.hold(path);
                } else if state.should_suppress(path, now) {
                    self.pending.remove(path);
                    self.seen.insert(path);
                } else {
                    queue_new_shortcut_candidate(&mut self.seen, &mut self.pending, path);
                }
                self.dragout = Some(state);
            },
            None => {
                queue_new_shortcut_candidate(&mut self.seen, &mut self.pending, path);
            },
        }
    }

    /// Ends a round of looks: `fates` tells what became of the files at `paths`. The fences to read
    /// again.
    pub fn finish_round(&mut self, paths: &Vec<String>, fates: &Vec<Fate>, exists: &PathSet) -> (ids:
        Vec<u32>)
        requires
            old(self).wf(),
            exists.wf(),
            paths@.len() == fates@.len(),
        ensures
            final(self).wf(),
            final(self)@ == (Shortcuts {
                seen: old(self)@.seen.restrict(exists@.dom()),
                pending: old(self)@.pending.remove_keys(
                    places(settled_paths(views(paths@), fates@)).to_set(),
                ),
                ..old(self)@
            }),
            ids@.no_duplicates(),
            forall|id: u32| #[trigger] ids@.contains(id) <==> went_to(fates@, id),
    {
        let done = settled_of(paths, fates);
        self.settle(&done, exists);
        fences_filled(fates)
    }

    /// Lets the files `done` wait no longer, and forgets the files that `exists` does not hold, so
    /// that they are news when they come again.
    pub fn settle(&mut self, done: &Vec<String>, exists: &PathSet)
        requires
            old(self).wf(),
            exists.wf(),
        ensures
            final(self).wf(),
            final(self)@ == (Shortcuts {
                seen: old(self)@.seen.restrict(exists@.dom()),
                pending: old(self)@.pending.remove_keys(places(views(done@)).to_set()),
                ..old(self)@
            }),
    {
        remove_all(&mut self.pending, done);
        keep_only(&mut self.seen, exists);
    }
}

/// Lets none of `done` wait any longer.
pub fn remove_all(pending: &mut Pending, done: &Vec<String>)
    requires
        old(pending).wf(),
    ensures
        final(pending).wf(),
        final(pending)@ == old(pending)@.remove_keys(places(views(done@)).to_set()),
{
    let ghost start = pending@;
    let ghost all = places(views(done@));
    assert(start.remove_keys(all.take(0).to_set()) =~= start);
    for i in 0..done.len()
        invariant
            pending.wf(),
            all == places(views(done@)),
            pending@ == start.remove_keys(all.take(i as int).to_set()),
    {
        proof {
            one_place_more(all, i as int);
            let before = all.take(i as int).to_set();
            assert(start.remove_keys(before).remove(all[i as int]) =~= start.remove_keys(
                before.insert(all[i as int]),
            ));
        }
        pending.remove(done[i].as_str());
    }
    assert(all.take(all.len() as int) =~= all);
}

/// Takes each of `done` away.
pub fn take_all(seen: &mut PathSet, done: &Vec<String>)
    requires
        old(seen).wf(),
    ensures
        final(seen).wf(),
        final(seen)@ == old(seen)@.remove_keys(places(views(done@)).to_set()),
{
    let ghost start = seen@;
    let ghost all = places(views(done@));
    assert(start.remove_keys(all.take(0).to_set()) =~= start);
    for i in 0..done.len()
        invariant
            seen.wf(),
            all == places(views(done@)),
            seen@ == start.remove_keys(all.take(i as int).to_set()),
    {
        proof {
            one_place_more(all, i as int);
            let before = all.take(i as int).to_set();
            assert(start.remove_keys(before).remove(all[i as int]) =~= start.remove_keys(
                before.insert(all[i as int]),
            ));
        }
        seen.remove(done[i].as_str());
    }
    assert(all.take(all.len() as int) =~= all);
}

proof fn one_place_more(all: Seq<Place>, i: int)
    requires
        0 <= i < all.len(),
    ensures
        all.take(i + 1).to_set() == all.take(i).to_set().insert(all[i]),
{
    let (before, next) = (all.take(i), all.take(i + 1));
    assert forall|k: Place| next.to_set().contains(k) == before.to_set().insert(all[i]).contains(
        k,
    ) by {
        if before.contains(k) {
            let n = choose|n: int| 0 <= n < before.len() && before[n] == k;
            assert(next[n] == k);
        }
        if k == all[i] {
            assert(next[i] == k);
        }
        if next.contains(k) {
            let n = choose|n: int| 0 <= n < next.len() && next[n] == k;
            if n < i {
                assert(before[n] == k);
            }
        }
    }
    assert(next.to_set() =~= before.to_set().insert(all[i]));
}

/// The paths of a set, taken in one after the other, are new each time.
proof fn listed_once(paths: Seq<Seq<char>>, set: Map<Place, Seq<char>>, i: int)
    requires
        lists(paths, set),
        0 <= i < paths.len(),
    ensures
        !set_of(paths.take(i)).contains_key(place(paths[i])),
{
    set_of_some(paths, set, i);
    if set_of(paths.take(i)).contains_key(place(paths[i])) {
        assert(places(paths).take(i).to_set().contains(place(paths[i])));
        assert(places(paths).take(i).contains(place(paths[i])));
        let n = choose|n: int|
            0 <= n < i && places(paths).take(i)[n] == place(paths[i]);
        assert(places(paths)[n] == places(paths)[i]);
        assert(false);
    }
}

/// What the first `n` of the paths of a set are.
proof fn set_of_some(paths: Seq<Seq<char>>, set: Map<Place, Seq<char>>, n: int)
    requires
        lists(paths, set),
        0 <= n <= paths.len(),
    ensures
        set_of(paths.take(n)).dom() == places(paths).take(n).to_set(),
        forall|k: Place| #[trigger]
            set_of(paths.take(n)).contains_key(k) ==> set_of(paths.take(n))[k] == set[k],
    decreases n,
{
    let all = places(paths);
    if n == 0 {
        assert(set_of(paths.take(0)).dom() =~= all.take(0).to_set());
    } else {
        set_of_some(paths, set, n - 1);
        assert(paths.take(n).drop_last() =~= paths.take(n - 1));
        assert(paths.take(n).last() == paths[n - 1]);
        one_place_more(all, n - 1);
        assert(all[n - 1] == place(paths[n - 1]));
        assert(set_of(paths.take(n)).dom() =~= all.take(n).to_set());
    }
}

/// The paths of a set are the set.
proof fn listed_is_all(paths: Seq<Seq<char>>, set: Map<Place, Seq<char>>)
    requires
        lists(paths, set),
    ensures
        set_of(paths) == set,
{
    let n = paths.len() as int;
    set_of_some(paths, set, n);
    assert(paths.take(n) =~= paths);
    assert(places(paths).take(n) =~= places(paths));
    assert(set_of(paths) =~= set);
}

/// Forgets the paths that `exists` does not hold.
pub fn keep_only(seen: &mut PathSet, exists: &PathSet)
    requires
        old(seen).wf(),
        exists.wf(),
    ensures
        final(seen).wf(),
        final(seen)@ == old(seen)@.restrict(exists@.dom()),
{
    let ghost start = seen@;
    let paths = seen.paths();
    let ghost all = places(views(paths@));
    let ghost kept = exists@.dom();
    assert(start.remove_keys(all.take(0).to_set().difference(kept)) =~= start);
    for i in 0..paths.len()
        invariant
            seen.wf(),
            all == places(views(paths@)),
            kept == exists@.dom(),
            seen@ == start.remove_keys(all.take(i as int).to_set().difference(kept)),
    {
        let path = paths[i].as_str();
        proof {
            one_place_more(all, i as int);
            let before = all.take(i as int).to_set();
            let at = all[i as int];
            let next = before.insert(at).difference(kept);
            if kept.contains(at) {
                assert(next =~= before.difference(kept));
            } else {
                assert(start.remove_keys(before.difference(kept)).remove(at)
                    =~= start.remove_keys(next));
            }
        }
        if !exists.contains(path) {
            seen.remove(path);
        }
    }
    assert(all.take(all.len() as int) =~= all);
    assert(seen@ =~= start.restrict(kept)) by {
        assert forall|k: Place| start.contains_key(k) implies all.to_set().contains(k) by {
            assert(start.dom().contains(k));
        }
    }
}

/// While a drag runs, no notification makes a file wait or counts as seen.
pub proof fn a_running_drag_holds_everything(s: Shortcuts, paths: Seq<Seq<char>>, now: u64)
    requires
        s.dragout is Some,
        s.dragout->0.active,
    ensures
        s.told_all(paths, now).seen == s.seen,
        s.told_all(paths, now).pending == s.pending,
        s.told_all(paths, now).dragout is Some,
        s.told_all(paths, now).dragout->0.active,
    decreases paths.len(),
{
    if paths.len() > 0 {
        a_running_drag_holds_everything(s, paths.drop_last(), now);
    }
}

/// However often one new shortcut is told of, and however it is written, it waits once, as a fresh
/// candidate.
pub proof fn repeated_news_is_no_news(s: Shortcuts, path: Seq<char>, now: u64)
    requires
        s.dragout is None,
        is_news(s.seen, path),
        !s.pending.contains_key(place(path)),
    ensures
        s.told(path, now).pending == s.pending.insert(place(path), fresh(path)),
        forall|again: Seq<char>| #[trigger]
            same_place(again, path) && names_shortcut(again) ==> s.told(path, now).told(again, now)
                == s.told(path, now),
{
    assert forall|again: Seq<char>| #[trigger]
        same_place(again, path) && names_shortcut(again) implies s.told(path, now).told(again, now)
        == s.told(path, now) by {
        assert(s.told(path, now).told(again, now) =~= s.told(path, now));
    }
}

/// Behind its time, an ended drag keeps back no shortcut.
pub proof fn an_expired_drag_keeps_nothing_back(s: Shortcuts, path: Seq<char>, now: u64)
    requires
        s.dragout is Some,
        !s.dragout->0.active,
        s.dragout->0.ignore_until is Some,
        now > s.dragout->0.ignore_until->0,
    ensures
        s.told(path, now) == s.noticed(path),
        s.without_expired(now).dragout is None,
{
}

/// A shortcut that is dragged to a desktop comes to stand there under its own name, or with a number in
/// brackets behind it. When the drag ends, or up to five seconds later, it counts as seen and does not
/// wait to be collected again.
#[verifier::rlimit(40)]
pub proof fn a_dragged_shortcut_is_not_collected_again(
    s: Shortcuts,
    d: Dragout,
    desktop: Seq<char>,
    stem: Seq<char>,
    ext: Seq<char>,
    k: int,
    now: u64,
    later: u64,
)
    requires
        takes_names(desktop),
        !is_verbatim(desktop),
        prefix_len(desktop) < desktop.len() || is_local(desktop),
        name_end(desktop, desktop.len() as int) == desktop.len(),
        is_plain(stem + seq!['.'] + ext),
        stem.len() > 0,
        !ext.contains('.'),
        ascii_lowercase(ext) == ascii_lowercase("lnk"@),
        0 <= k < d.desktop_dirs.len(),
        d.desktop_dirs[k] == desktop,
        lowercase(stem) == d.source_stem || (exists|digits: Seq<char>|
            digits.len() > 0 && #[trigger] all_digits(digits) && lowercase(stem) == d.source_stem
                + seq![' ', '('] + digits + seq![')']),
        now + 5000 <= u64::MAX,
        later <= now + 5000,
    ensures
        ({
            let path = join(desktop, stem + seq!['.'] + ext);
            let held = with_path(Map::empty(), path);
            let ended = Shortcuts {
                dragout: Some(
                    Dragout {
                        active: false,
                        held: Map::empty(),
                        ignore_until: Some((now + DRAGOUT_EVENT_TAIL) as u64),
                        ..d
                    },
                ),
                ..s
            };
            &&& s.seen_after(d, held).contains_key(place(path))
            &&& !s.pending_after(d, held).contains_key(place(path))
            &&& ended.told(path, later).seen.contains_key(place(path))
            &&& !ended.told(path, later).pending.contains_key(place(path))
        }),
{
    let n = stem + seq!['.'] + ext;
    let path = join(desktop, n);
    a_name_splits_at_its_last_dot(desktop, stem, ext);
    the_parent_of_a_joined_name_reads_like_the_folder(desktop, n);
    reveal_strlit(" (");
    reveal_strlit(")");
    if lowercase(stem) != d.source_stem {
        let digits = choose|digits: Seq<char>|
            digits.len() > 0 && #[trigger] all_digits(digits) && lowercase(stem) == d.source_stem
                + seq![' ', '('] + digits + seq![')'];
        assert(" ("@ =~= seq![' ', '(']);
        assert(")"@ =~= seq![')']);
        assert(numbered(d.source_stem, digits) == lowercase(stem));
    }
    assert(same_but_case(desktop, d.desktop_dirs[k]));
    assert(d.is_own(path));
    let ended = Dragout {
        active: false,
        held: Map::empty(),
        ignore_until: Some((now + DRAGOUT_EVENT_TAIL) as u64),
        ..d
    };
    assert(same_but_case(desktop, ended.desktop_dirs[k]));
    assert(ended.is_own(path));
}

/// Any other shortcut that came up during a drag waits to be collected when the drag ends, as if it had
/// come just then: one of another name, or in another folder.
#[verifier::rlimit(40)]
pub proof fn a_drag_keeps_no_other_shortcut_back(
    s: Shortcuts,
    d: Dragout,
    dir: Seq<char>,
    stem: Seq<char>,
    ext: Seq<char>,
)
    requires
        takes_names(dir),
        is_plain(stem + seq!['.'] + ext),
        stem.len() > 0,
        !ext.contains('.'),
        ascii_lowercase(ext) == ascii_lowercase("lnk"@),
        lowercase(stem).take(d.source_stem.len() as int) != d.source_stem
            || lowercase(stem).len() < d.source_stem.len(),
        !s.seen.contains_key(place(join(dir, stem + seq!['.'] + ext))),
        !s.pending.contains_key(place(join(dir, stem + seq!['.'] + ext))),
    ensures
        ({
            let path = join(dir, stem + seq!['.'] + ext);
            let held = with_path(Map::empty(), path);
            &&& s.pending_after(d, held) == s.pending.insert(place(path), fresh(path))
            &&& s.seen_after(d, held) == s.seen.insert(place(path), path)
        }),
{
    let path = join(dir, stem + seq!['.'] + ext);
    let held = with_path(Map::empty(), path);
    let low = lowercase(stem);
    a_name_splits_at_its_last_dot(dir, stem, ext);
    reveal_strlit(" (");
    reveal_strlit(")");
    if low == d.source_stem {
        assert(low.take(d.source_stem.len() as int) =~= d.source_stem);
    }
    if is_numbered(low, d.source_stem) {
        let digits = choose|digits: Seq<char>| #[trigger]
            numbered(d.source_stem, digits) == low && digits.len() > 0 && all_digits(digits);
        assert(low.take(d.source_stem.len() as int) =~= d.source_stem);
    }
    assert(!d.is_own(path));
    assert(s.pending_after(d, held) =~= s.pending.insert(place(path), fresh(path)));
    assert(s.seen_after(d, held) =~= s.seen.insert(place(path), path));
}

/// A shortcut in a folder that is none of the desktops waits to be collected when a drag ends, even if it has
/// the name of the one that was dragged.
#[verifier::rlimit(40)]
pub proof fn a_drag_is_about_the_desktops_alone(
    s: Shortcuts,
    d: Dragout,
    dir: Seq<char>,
    stem: Seq<char>,
    ext: Seq<char>,
    now: u64,
)
    requires
        takes_names(dir),
        !is_verbatim(dir),
        prefix_len(dir) < dir.len() || is_local(dir),
        name_end(dir, dir.len() as int) == dir.len(),
        is_plain(stem + seq!['.'] + ext),
        stem.len() > 0,
        !ext.contains('.'),
        ascii_lowercase(ext) == ascii_lowercase("lnk"@),
        forall|k: int|
            0 <= k < d.desktop_dirs.len() ==> lowercase(dir) != lowercase(
                #[trigger] d.desktop_dirs[k],
            ),
        !s.seen.contains_key(place(join(dir, stem + seq!['.'] + ext))),
        !s.pending.contains_key(place(join(dir, stem + seq!['.'] + ext))),
    ensures
        ({
            let path = join(dir, stem + seq!['.'] + ext);
            let held = with_path(Map::empty(), path);
            let ended = Shortcuts { dragout: Some(Dragout { active: false, ..d }), ..s };
            &&& s.pending_after(d, held).contains_key(place(path))
            &&& ended.told(path, now).pending.contains_key(place(path))
        }),
{
    let n = stem + seq!['.'] + ext;
    a_name_splits_at_its_last_dot(dir, stem, ext);
    the_parent_of_a_joined_name_reads_like_the_folder(dir, n);
    assert(!d.on_desktop(join(dir, n)));
    let ended = Dragout { active: false, ..d };
    assert(!ended.on_desktop(join(dir, n)));
}

/// The fences to read again are those that files went into: each of them once, and no others.
pub proof fn a_fence_that_took_a_file_is_read_again(fates: Seq<Fate>, id: u32, k: int)
    requires
        0 <= k < fates.len(),
    ensures
        fates[k] == Fate::Moved(id) ==> went_to(fates, id),
        went_to(fates, id) ==> exists|i: int|
            0 <= i < fates.len() && #[trigger] fates[i] == Fate::Moved(id),
        (forall|i: int| 0 <= i < fates.len() ==> #[trigger] fates[i] != Fate::Moved(id))
            ==> !went_to(fates, id),
{
}

} // verus!
