//! Reading a fence's folder again: folders first, then by name, with the selection and the page kept.

use super::grid::{pages_of, synced, sync_page, Metrics};
use super::interaction::FenceInteraction;
use super::model::{Entry, FenceModel};
use super::Fence;
use crate::text::{chars_of, lowercase, to_lowercase};
use crate::winpath::{is_same_place, same_place};
use vstd::prelude::*;

verus! {

/// Whether `a` comes before `b` in the order of their characters.
pub open spec fn text_before(a: Seq<char>, b: Seq<char>) -> bool
    decreases a.len(),
{
    if b.len() == 0 {
        false
    } else if a.len() == 0 {
        true
    } else if a[0] == b[0] {
        text_before(a.skip(1), b.skip(1))
    } else {
        a[0] < b[0]
    }
}

/// See [`text_before`].
pub fn is_text_before(a: &[char], b: &[char]) -> (yes: bool)
    ensures
        yes == text_before(a@, b@),
{
    let mut i: usize = 0;
    assert(a@.skip(0) =~= a@);
    assert(b@.skip(0) =~= b@);
    loop
        invariant
            i <= a@.len(),
            i <= b@.len(),
            text_before(a@, b@) == text_before(a@.skip(i as int), b@.skip(i as int)),
        decreases a@.len() - i,
    {
        if i >= b.len() {
            return false;
        }
        if i >= a.len() {
            return true;
        }
        if a[i] != b[i] {
            return a[i] < b[i];
        }
        assert(a@.skip(i as int).skip(1) =~= a@.skip(i + 1));
        assert(b@.skip(i as int).skip(1) =~= b@.skip(i + 1));
        i += 1;
    }
}

/// No text comes before itself, of two different ones one comes first, and the order is transitive.
pub proof fn text_order_is_total(a: Seq<char>, b: Seq<char>, c: Seq<char>)
    ensures
        !text_before(a, a),
        a != b ==> text_before(a, b) || text_before(b, a),
        !(text_before(a, b) && text_before(b, a)),
        text_before(a, b) && text_before(b, c) ==> text_before(a, c),
    decreases a.len() + b.len() + c.len(),
{
    if a.len() > 0 && b.len() > 0 && c.len() > 0 {
        text_order_is_total(a.skip(1), b.skip(1), c.skip(1));
    } else if a.len() > 0 && b.len() > 0 {
        text_order_is_total(a.skip(1), b.skip(1), c);
    } else if a.len() > 0 {
        text_order_is_total(a.skip(1), b, c);
    }
    if a.len() > 0 && b.len() > 0 && a[0] == b[0] && a.skip(1) == b.skip(1) {
        assert(a =~= seq![a[0]] + a.skip(1));
        assert(b =~= seq![b[0]] + b.skip(1));
    }
    if a.len() == 0 && b.len() == 0 {
        assert(a =~= b);
    }
}

/// Whether `a` is listed before `b`: folders first, then by name in small letters.
pub open spec fn listed_before(a: Entry, b: Entry) -> bool {
    ||| a.is_dir && !b.is_dir
    ||| a.is_dir == b.is_dir && text_before(lowercase(a.name@), lowercase(b.name@))
}

/// `s` with `e` put before the first entry that it does not have to follow.
pub open spec fn placed(s: Seq<Entry>, e: Entry) -> Seq<Entry>
    decreases s.len(),
{
    if s.len() == 0 || !listed_before(s[0], e) {
        seq![e] + s
    } else {
        seq![s[0]] + placed(s.skip(1), e)
    }
}

/// `s` in the order of listing; entries that are alike in it stay in their order.
pub open spec fn listed(s: Seq<Entry>) -> Seq<Entry>
    decreases s.len(),
{
    if s.len() == 0 {
        s
    } else {
        placed(listed(s.skip(1)), s[0])
    }
}

proof fn placed_is_insert(s: Seq<Entry>, e: Entry, k: int)
    requires
        0 <= k <= s.len(),
        forall|i: int| 0 <= i < k ==> listed_before(#[trigger] s[i], e),
        k == s.len() || !listed_before(s[k], e),
    ensures
        placed(s, e) == s.insert(k, e),
    decreases s.len(),
{
    if k == 0 {
        assert(seq![e] + s =~= s.insert(0, e));
    } else {
        let t = s.skip(1);
        assert forall|i: int| 0 <= i < k - 1 implies listed_before(#[trigger] t[i], e) by {
            assert(t[i] == s[i + 1]);
        }
        placed_is_insert(t, e, k - 1);
        assert(seq![s[0]] + t.insert(k - 1, e) =~= s.insert(k, e));
    }
}

/// Whether `s` is in the order of listing.
pub open spec fn in_order(s: Seq<Entry>) -> bool {
    forall|i: int, j: int| 0 <= i < j < s.len() ==> !listed_before(#[trigger] s[j], #[trigger] s[i])
}

proof fn listing_order(a: Entry, b: Entry, c: Entry)
    ensures
        !listed_before(a, a),
        !(listed_before(a, b) && listed_before(b, a)),
        listed_before(a, b) && listed_before(b, c) ==> listed_before(a, c),
        listed_before(a, b) && !listed_before(c, b) ==> listed_before(a, c),
        !listed_before(b, a) && !listed_before(c, b) ==> !listed_before(c, a),
{
    let (x, y, z) = (lowercase(a.name@), lowercase(b.name@), lowercase(c.name@));
    text_order_is_total(x, y, z);
    text_order_is_total(x, z, y);
    text_order_is_total(y, x, z);
    text_order_is_total(y, z, x);
    text_order_is_total(z, x, y);
    text_order_is_total(z, y, x);
}

proof fn front_multiset(e: Entry, s: Seq<Entry>)
    ensures
        (seq![e] + s).to_multiset() == s.to_multiset().insert(e),
{
    broadcast use vstd::seq_lib::group_to_multiset_ensures;
    broadcast use vstd::multiset::group_multiset_axioms;

    vstd::seq_lib::lemma_multiset_commutative(seq![e], s);
    assert(seq![e] =~= Seq::<Entry>::empty().push(e));
    assert(Seq::<Entry>::empty().to_multiset() =~= vstd::multiset::Multiset::<Entry>::empty());
    assert((seq![e] + s).to_multiset() =~= s.to_multiset().insert(e));
}

proof fn placed_keeps_order(s: Seq<Entry>, e: Entry)
    requires
        in_order(s),
    ensures
        in_order(placed(s, e)),
        placed(s, e).to_multiset() == s.to_multiset().insert(e),
        placed(s, e).len() == s.len() + 1,
        forall|x: Entry| !listed_before(x, e) && (forall|i: int| 0 <= i < s.len() ==> !listed_before(
            x,
            #[trigger] s[i],
        )) ==> forall|i: int| 0 <= i < placed(s, e).len() ==> !listed_before(
            x,
            #[trigger] placed(s, e)[i],
        ),
    decreases s.len(),
{
    let p = placed(s, e);
    if s.len() == 0 || !listed_before(s[0], e) {
        assert(p =~= s.insert(0, e));
        assert forall|i: int, j: int| 0 <= i < j < p.len() implies !listed_before(
            #[trigger] p[j],
            #[trigger] p[i],
        ) by {
            if i == 0 {
                assert(p[j] == s[j - 1]);
                if j > 1 {
                    assert(!listed_before(s[j - 1], s[0]));
                }
                listing_order(e, s[0], s[j - 1]);
            } else {
                assert(p[i] == s[i - 1] && p[j] == s[j - 1]);
            }
        }
        front_multiset(e, s);
    } else {
        let t = s.skip(1);
        assert forall|i: int, j: int| 0 <= i < j < t.len() implies !listed_before(
            #[trigger] t[j],
            #[trigger] t[i],
        ) by {
            assert(t[i] == s[i + 1] && t[j] == s[j + 1]);
        }
        placed_keeps_order(t, e);
        let q = placed(t, e);
        assert(p =~= q.insert(0, s[0]));
        front_multiset(s[0], q);
        assert(s =~= seq![s[0]] + t);
        front_multiset(s[0], t);
        assert(t.to_multiset().insert(e).insert(s[0]) =~= t.to_multiset().insert(s[0]).insert(e)) by {
            broadcast use vstd::multiset::group_multiset_axioms;

        }
        assert forall|i: int| 0 <= i < t.len() implies !listed_before(#[trigger] t[i], s[0]) by {
            assert(t[i] == s[i + 1]);
        }
        assert forall|i: int| 0 <= i < q.len() implies !listed_before(#[trigger] q[i], s[0]) by {
            if listed_before(q[i], s[0]) {
                not_before_all(t, e, s[0], i);
            }
        }
        assert forall|i: int, j: int| 0 <= i < j < p.len() implies !listed_before(
            #[trigger] p[j],
            #[trigger] p[i],
        ) by {
            assert(p[j] == q[j - 1]);
            if i > 0 {
                assert(p[i] == q[i - 1]);
            }
        }
        assert forall|x: Entry|
            !listed_before(x, e) && (forall|i: int|
                0 <= i < s.len() ==> !listed_before(x, #[trigger] s[i])) implies forall|i: int|
            0 <= i < p.len() ==> !listed_before(x, #[trigger] p[i]) by {
            assert forall|i: int| 0 <= i < t.len() implies !listed_before(x, #[trigger] t[i]) by {
                assert(t[i] == s[i + 1]);
            }
            assert forall|i: int| 0 <= i < p.len() implies !listed_before(x, #[trigger] p[i]) by {
                if i > 0 {
                    assert(p[i] == q[i - 1]);
                } else {
                    assert(p[0] == s[0]);
                }
            }
        }
    }
}

proof fn not_before_all(t: Seq<Entry>, e: Entry, head: Entry, i: int)
    requires
        forall|k: int| 0 <= k < t.len() ==> !listed_before(#[trigger] t[k], head),
        listed_before(head, e),
        0 <= i < placed(t, e).len(),
    ensures
        !listed_before(placed(t, e)[i], head),
    decreases t.len(),
{
    listing_order(head, e, head);
    if t.len() == 0 || !listed_before(t[0], e) {
        if i > 0 {
            assert(placed(t, e)[i] == t[i - 1]);
        }
    } else if i > 0 {
        let u = t.skip(1);
        assert forall|k: int| 0 <= k < u.len() implies !listed_before(#[trigger] u[k], head) by {
            assert(u[k] == t[k + 1]);
        }
        not_before_all(u, e, head, i - 1);
    }
}

/// Listing puts folders first and names in order, and neither loses nor adds an entry.
pub proof fn listing_sorts(s: Seq<Entry>)
    ensures
        in_order(listed(s)),
        listed(s).to_multiset() == s.to_multiset(),
        listed(s).len() == s.len(),
    decreases s.len(),
{
    if s.len() > 0 {
        listing_sorts(s.skip(1));
        placed_keeps_order(listed(s.skip(1)), s[0]);
        assert(s =~= seq![s[0]] + s.skip(1));
        front_multiset(s[0], s.skip(1));
    }
}

/// One text comes before another if and only if it has the smaller character where the two first differ,
/// at `k`, or ends there.
pub proof fn texts_differ_first_where_they_are_ordered(a: Seq<char>, b: Seq<char>, k: int)
    requires
        0 <= k <= a.len(),
        k <= b.len(),
        forall|i: int| 0 <= i < k ==> #[trigger] a[i] == b[i],
        k < a.len() && k < b.len() ==> a[k] != b[k],
    ensures
        text_before(a, b) <==> k < b.len() && (k == a.len() || a[k] < b[k]),
    decreases k,
{
    if k > 0 {
        assert(a[0] == b[0]);
        let (x, y) = (a.skip(1), b.skip(1));
        assert forall|i: int| 0 <= i < k - 1 implies #[trigger] x[i] == y[i] by {
            assert(a[i + 1] == b[i + 1]);
        }
        texts_differ_first_where_they_are_ordered(x, y, k - 1);
    }
}

/// In a listing no file stands before a folder; and of two folders, or of two files, the one whose name
/// in small letters has the smaller character where the names first differ, at `k`, stands first, or
/// the one whose name ends there.
pub proof fn folders_stand_first_and_names_in_order(s: Seq<Entry>, i: int, j: int, k: int)
    requires
        0 <= i < j < s.len(),
    ensures
        ({
            let (a, b) = (listed(s)[i], listed(s)[j]);
            let (x, y) = (lowercase(a.name@), lowercase(b.name@));
            let first = 0 <= k <= x.len() && k <= y.len() && (forall|n: int|
                0 <= n < k ==> #[trigger] x[n] == y[n]) && (k < x.len() && k < y.len() ==> x[k]
                != y[k]);
            &&& b.is_dir ==> a.is_dir
            &&& a.is_dir == b.is_dir && first ==> k == x.len() || (k < y.len() && x[k] < y[k])
        }),
{
    listing_sorts(s);
    let (a, b) = (listed(s)[i], listed(s)[j]);
    let (x, y) = (lowercase(a.name@), lowercase(b.name@));
    assert(!listed_before(b, a));
    if a.is_dir == b.is_dir && 0 <= k <= x.len() && k <= y.len() && (forall|n: int|
        0 <= n < k ==> #[trigger] x[n] == y[n]) && (k < x.len() && k < y.len() ==> x[k] != y[k]) {
        assert forall|n: int| 0 <= n < k implies #[trigger] y[n] == x[n] by {
            assert(x[n] == y[n]);
        }
        texts_differ_first_where_they_are_ordered(y, x, k);
        if k < x.len() && k < y.len() {
            assert(x[k] < y[k] || y[k] < x[k]);
        }
    }
}

/// The entries of `s` that a listing does not tell from `e`: both folders or both files, of the same name
/// but for its case. In their order.
pub open spec fn alike(s: Seq<Entry>, e: Entry) -> Seq<Entry>
    decreases s.len(),
{
    if s.len() == 0 {
        s
    } else if s[0].is_dir == e.is_dir && lowercase(s[0].name@) == lowercase(e.name@) {
        seq![s[0]] + alike(s.skip(1), e)
    } else {
        alike(s.skip(1), e)
    }
}

proof fn placed_goes_before_its_like(s: Seq<Entry>, x: Entry, e: Entry)
    ensures
        alike(placed(s, x), e) == alike(seq![x] + s, e),
    decreases s.len(),
{
    if s.len() > 0 && listed_before(s[0], x) {
        let t = s.skip(1);
        placed_goes_before_its_like(t, x, e);
        let p = placed(s, x);
        assert(p.skip(1) =~= placed(t, x));
        assert((seq![x] + s).skip(1) =~= s);
        assert((seq![x] + t).skip(1) =~= t);
        text_order_is_total(lowercase(s[0].name@), lowercase(x.name@), lowercase(e.name@));
        let first = s[0].is_dir == e.is_dir && lowercase(s[0].name@) == lowercase(e.name@);
        let new = x.is_dir == e.is_dir && lowercase(x.name@) == lowercase(e.name@);
        assert(!(first && new));
        assert(p[0] == s[0]);
        assert((seq![x] + s)[0] == x && (seq![x] + t)[0] == x);
        assert(alike(p, e) == if first {
            seq![s[0]] + alike(seq![x] + t, e)
        } else {
            alike(seq![x] + t, e)
        });
        assert(alike(s, e) == if first {
            seq![s[0]] + alike(t, e)
        } else {
            alike(t, e)
        });
        assert(alike(seq![x] + t, e) == if new {
            seq![x] + alike(t, e)
        } else {
            alike(t, e)
        });
    }
}

/// Entries that a listing does not tell apart keep the order in which they came.
pub proof fn entries_alike_keep_their_order(s: Seq<Entry>, e: Entry)
    ensures
        alike(listed(s), e) == alike(s, e),
    decreases s.len(),
{
    if s.len() > 0 {
        let t = s.skip(1);
        entries_alike_keep_their_order(t, e);
        placed_goes_before_its_like(listed(t), s[0], e);
        assert((seq![s[0]] + listed(t)).skip(1) =~= listed(t));
        assert((seq![s[0]] + t) =~= s);
        assert((seq![s[0]] + t).skip(1) =~= t);
    }
}

/// Sorts what a folder holds; see [`listed`].
pub fn sort_entries(entries: Vec<Entry>) -> (out: Vec<Entry>)
    ensures
        out@ == listed(entries@),
{
    let mut rest = entries;
    let ghost all = rest@;
    let mut out: Vec<Entry> = Vec::new();
    let mut keys: Vec<Vec<char>> = Vec::new();
    assert(all.skip(all.len() as int) =~= Seq::<Entry>::empty());
    while rest.len() > 0
        invariant
            rest@.len() <= all.len(),
            rest@ == all.take(rest@.len() as int),
            out@ == listed(all.skip(rest@.len() as int)),
            keys@.len() == out@.len(),
            forall|i: int| 0 <= i < out@.len() ==> (#[trigger] keys@[i])@ == lowercase(
                out@[i].name@,
            ),
        decreases rest@.len(),
    {
        let ghost n = rest@.len() as int;
        let popped = rest.pop();
        if let Some(e) = popped {
            assert(e == all[n - 1]);
            let low = to_lowercase(e.name.as_str());
            let key = chars_of(low.as_str());
            let mut k: usize = 0;
            while k < out.len() && ((out[k].is_dir && !e.is_dir) || (out[k].is_dir == e.is_dir
                && is_text_before(keys[k].as_slice(), key.as_slice())))
                invariant
                    k <= out@.len(),
                    keys@.len() == out@.len(),
                    key@ == lowercase(e.name@),
                    forall|i: int| 0 <= i < out@.len() ==> (#[trigger] keys@[i])@ == lowercase(
                        out@[i].name@,
                    ),
                    forall|i: int| 0 <= i < k ==> listed_before(#[trigger] out@[i], e),
                ensures
                    k <= out@.len(),
                    forall|i: int| 0 <= i < k ==> listed_before(#[trigger] out@[i], e),
                    k == out@.len() || !listed_before(out@[k as int], e),
                decreases out@.len() - k,
            {
                k += 1;
            }
            proof {
                placed_is_insert(out@, e, k as int);
                assert(all.skip(n - 1).skip(1) =~= all.skip(n));
                assert(all.skip(n - 1)[0] == e);
            }
            let ghost before = out@;
            let ghost before_keys = keys@;
            out.insert(k, e);
            keys.insert(k, key);
            assert forall|i: int| 0 <= i < out@.len() implies (#[trigger] keys@[i])@ == lowercase(
                out@[i].name@,
            ) by {
                if i < k {
                    assert(keys@[i] == before_keys[i] && out@[i] == before[i]);
                } else if i > k {
                    assert(keys@[i] == before_keys[i - 1] && out@[i] == before[i - 1]);
                }
            }
            assert(rest@ =~= all.take(n - 1));
        }
    }
    assert(all.skip(0) =~= all);
    out
}

/// The first entry at `path`, however that is written.
pub open spec fn is_place_of(entries: Seq<Entry>, path: Seq<char>, at: Option<usize>) -> bool {
    match at {
        Some(i) => i < entries.len() && same_place(entries[i as int].path@, path) && forall|j: int|
            0 <= j < i ==> !same_place((#[trigger] entries[j]).path@, path),
        None => forall|j: int|
            0 <= j < entries.len() ==> !same_place((#[trigger] entries[j]).path@, path),
    }
}

/// The entry at a path is the first, at `k`, whose path stands for the same place; where there is none, none
/// is found.
pub proof fn the_entry_at_a_path_is_found(
    entries: Seq<Entry>,
    path: Seq<char>,
    at: Option<usize>,
    k: int,
)
    requires
        is_place_of(entries, path, at),
        0 <= k <= entries.len() <= usize::MAX,
        forall|j: int| 0 <= j < k ==> !same_place((#[trigger] entries[j]).path@, path),
        k < entries.len() ==> same_place(entries[k].path@, path),
    ensures
        at == if k < entries.len() {
            Some(k as usize)
        } else {
            None
        },
{
    if k < entries.len() {
        assert(same_place(entries[k].path@, path));
    }
    if at is Some && at->0 < k {
        assert(!same_place(entries[at->0 as int].path@, path));
    }
}

/// The selected path is that of the selected entry, and none where nothing is selected or the entry is not
/// there.
pub proof fn the_selected_path_is_that_of_the_entry(model: FenceModel, i: usize)
    ensures
        model.selected == Some(i) && i < model.entries@.len() ==> selected_path(model) == Some(
            model.entries@[i as int].path@,
        ),
        model.selected == Some(i) && i >= model.entries@.len() ==> selected_path(model) is None,
        model.selected is None ==> selected_path(model) is None,
{
}

/// See [`is_place_of`].
pub fn place_of(entries: &Vec<Entry>, path: &str) -> (at: Option<usize>)
    ensures
        is_place_of(entries@, path@, at),
{
    for i in 0..entries.len()
        invariant
            forall|j: int| 0 <= j < i ==> !same_place((#[trigger] entries@[j]).path@, path@),
    {
        if is_same_place(entries[i].path.as_str(), path) {
            return Some(i);
        }
    }
    None
}

/// The path of the selected entry.
pub open spec fn selected_path(model: FenceModel) -> Option<Seq<char>> {
    match model.selected {
        Some(i) => if i < model.entries@.len() {
            Some(model.entries@[i as int].path@)
        } else {
            None
        },
        None => None,
    }
}

/// Whether `after` is `before` with the folder read again: the entries are `listing` in order, or
/// none where it could not be read; the selected file stays selected as long as it is there; the
/// page stays as long as it is there.
pub open spec fn refreshed(
    before: Fence,
    after: Fence,
    listing: Option<Seq<Entry>>,
    m: Metrics,
) -> bool {
    &&& after.model.entries@ == (match listing {
        Some(entries) => listed(entries),
        None => Seq::empty(),
    })
    &&& match selected_path(before.model) {
        Some(path) => is_place_of(after.model.entries@, path, after.model.selected),
        None => after.model.selected is None,
    }
    &&& after == synced(
        Fence {
            model: FenceModel {
                entries: after.model.entries,
                page: before.model.page,
                selected: after.model.selected,
            },
            interaction: FenceInteraction { wheel_acc: 0, ..before.interaction },
            ..before
        },
        m,
    )
}

/// Takes in what the folder of `f` holds now; see [`refreshed`].
pub fn refresh_entries(f: &mut Fence, listing: Option<Vec<Entry>>, m: &Metrics)
    requires
        m.wf(),
    ensures
        refreshed(
            *old(f),
            *final(f),
            match listing {
                Some(entries) => Some(entries@),
                None => None,
            },
            *m,
        ),
        old(f).wf() ==> final(f).wf(),
{
    let selected: Option<String> = match f.model.selected {
        Some(i) => if i < f.model.entries.len() {
            Some(f.model.entries[i].path.clone())
        } else {
            None
        },
        None => None,
    };
    let entries: Vec<Entry> = match listing {
        Some(entries) => sort_entries(entries),
        None => Vec::new(),
    };
    f.model.entries = entries;
    f.model.selected = match &selected {
        Some(path) => place_of(&f.model.entries, path.as_str()),
        None => None,
    };
    f.interaction.wheel_acc = 0;
    sync_page(f, m);
}

/// When a folder is read again the selected file stays selected wherever it now stands, and nothing
/// else gets selected; the page stays, or becomes the last one there is.
pub proof fn a_refresh_keeps_selection_and_page(
    before: Fence,
    after: Fence,
    listing: Seq<Entry>,
    m: Metrics,
)
    requires
        m.wf(),
        refreshed(before, after, Some(listing), m),
        listing.len() <= usize::MAX,
    ensures
        after.model.selected is Some ==> before.model.selected is Some && after.model.selected->0
            < after.model.entries@.len() && same_place(
            after.model.entries@[after.model.selected->0 as int].path@,
            before.model.entries@[before.model.selected->0 as int].path@,
        ),
        before.model.selected is Some && before.model.selected->0 < before.model.entries@.len()
            && after.model.selected is None ==> forall|j: int|
            0 <= j < after.model.entries@.len() ==> !same_place(
                (#[trigger] after.model.entries@[j]).path@,
                before.model.entries@[before.model.selected->0 as int].path@,
            ),
        after.model.page <= before.model.page,
        after.model.page < pages_of(after, m),
        after.model.page != before.model.page ==> after.model.page == pages_of(after, m) - 1,
        after.model.entries@.len() == listing.len(),
        after.model.entries@.to_multiset() == listing.to_multiset(),
        after.cfg == before.cfg,
{
    listing_sorts(listing);
    let n = listing.len() as int;
    let size = super::grid::entries_per_page(before.cfg, m);
    if n >= 1 && size >= 1 {
        let q = super::grid::pages(n, size);
        super::grid::the_pages_hold_every_entry(n, size, 0);
        assert(q >= 1 && q <= n) by (nonlinear_arith)
            requires
                (q - 1) * size < n <= q * size,
                size >= 1,
                n >= 1,
        ;
    }
}

/// The folder that a fence shows: its own, else the vault.
pub open spec fn shown_folder(folder: Option<Seq<char>>, vault: Seq<char>) -> Seq<char> {
    match folder {
        Some(dir) => dir,
        None => vault,
    }
}

/// See [`shown_folder`].
pub fn folder_to_read(f: &Fence, vault: &str) -> (dir: String)
    ensures
        dir@ == shown_folder(crate::config::opt_view(f.cfg.folder), vault@),
{
    match &f.cfg.folder {
        Some(dir) => dir.clone(),
        None => crate::text::owned(vault),
    }
}

} // verus!
