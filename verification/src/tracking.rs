//! Files that were seen, and files that wait until they have been written to the end.

use crate::text::{copied, owned, views};
use crate::winpath::{is_same_place, place, Place};
use vstd::prelude::*;

verus! {

/// What is known of a file that waits.
#[derive(Clone, Copy, Debug, PartialEq, Eq, Structural)]
pub struct FileCandidate {
    pub len: u64,
    /// Nanoseconds from the Unix epoch, where the system tells the time.
    pub modified: Option<i128>,
    /// How many looks in a row found it unchanged.
    pub stable_ticks: u8,
}

/// How many looks in a row have to find a file unchanged before it is moved.
pub const READY_TICKS: u8 = 2;

impl FileCandidate {
    /// A file that nobody has looked at.
    pub open spec fn spec_new() -> FileCandidate {
        FileCandidate { len: u64::MAX, modified: None, stable_ticks: 0 }
    }

    /// A file that nobody has looked at.
    pub fn new() -> (candidate: FileCandidate)
        ensures
            candidate == FileCandidate::spec_new(),
    {
        FileCandidate { len: u64::MAX, modified: None, stable_ticks: 0 }
    }

    /// The candidate after a look that found `len` and `modified`.
    pub open spec fn looked(self, len: u64, modified: Option<i128>) -> FileCandidate {
        if self.len == len && self.modified == modified {
            FileCandidate {
                stable_ticks: if self.stable_ticks < u8::MAX {
                    (self.stable_ticks + 1) as u8
                } else {
                    u8::MAX
                },
                ..self
            }
        } else {
            FileCandidate { len, modified, stable_ticks: 0 }
        }
    }

    /// Takes in a look at the file; whether it has stayed the same long enough to be moved.
    pub fn look(&mut self, len: u64, modified: Option<i128>) -> (ready: bool)
        ensures
            *final(self) == old(self).looked(len, modified),
            ready == (final(self).stable_ticks >= READY_TICKS),
    {
        let same_time: bool = match (self.modified, modified) {
            (Some(a), Some(b)) => a == b,
            (None, None) => true,
            _ => false,
        };
        if self.len == len && same_time {
            if self.stable_ticks < u8::MAX {
                self.stable_ticks = self.stable_ticks + 1;
            }
        } else {
            self.len = len;
            self.modified = modified;
            self.stable_ticks = 0;
        }
        self.stable_ticks >= READY_TICKS
    }
}

/// The candidate after the looks `lens` and `times`, one by one.
pub open spec fn looked_at(c: FileCandidate, looks: Seq<(u64, Option<i128>)>) -> FileCandidate
    decreases looks.len(),
{
    if looks.len() == 0 {
        c
    } else {
        let last = looks.last();
        looked_at(c, looks.drop_last()).looked(last.0, last.1)
    }
}

/// A file is moved only after three looks in a row that found the same length and time: one that is
/// still being written is left alone. (A length of `u64::MAX` with no time is what a fresh candidate
/// holds, so there two looks are enough.)
pub proof fn only_a_settled_file_is_ready(looks: Seq<(u64, Option<i128>)>)
    requires
        looked_at(FileCandidate::spec_new(), looks).stable_ticks >= READY_TICKS,
        forall|i: int| 0 <= i < looks.len() ==> (#[trigger] looks[i]) != (u64::MAX, None::<i128>),
    ensures
        looks.len() >= 3,
        looks[looks.len() - 1] == looks[looks.len() - 2],
        looks[looks.len() - 2] == looks[looks.len() - 3],
{
    reveal_with_fuel(looked_at, 4);
    let n = looks.len() as int;
    if n > 0 {
        assert(looks.drop_last().len() == n - 1);
        if n > 1 {
            assert(looks.drop_last().last() == looks[n - 2]);
            if n > 2 {
                assert(looks.drop_last().drop_last().last() == looks[n - 3]);
            }
        }
    }
}

/// A file that three looks in a row found the same is ready, whatever was found before.
pub proof fn a_settled_file_is_ready(c: FileCandidate, looks: Seq<(u64, Option<i128>)>)
    requires
        looks.len() >= 3,
        looks[looks.len() - 1] == looks[looks.len() - 2],
        looks[looks.len() - 2] == looks[looks.len() - 3],
    ensures
        looked_at(c, looks).stable_ticks >= 2,
        looked_at(c, looks).len == looks.last().0,
        looked_at(c, looks).modified == looks.last().1,
{
    reveal_with_fuel(looked_at, 4);
    let n = looks.len() as int;
    assert(looks.drop_last().last() == looks[n - 2]);
    assert(looks.drop_last().drop_last().last() == looks[n - 3]);
}

/// Whether the place of a path is held does not depend on what else is: after `paths` were taken in, the
/// places of these are held and no others, each as it was written first.
pub proof fn a_set_holds_each_place_as_first_written(paths: Seq<Seq<char>>, k: int)
    requires
        0 <= k < paths.len(),
        forall|j: int| 0 <= j < k ==> place(#[trigger] paths[j]) != place(paths[k]),
    ensures
        set_of(paths).contains_key(place(paths[k])),
        set_of(paths)[place(paths[k])] == paths[k],
        forall|at: Place| #[trigger]
            set_of(paths).contains_key(at) ==> exists|j: int|
                0 <= j < paths.len() && place(#[trigger] paths[j]) == at,
    decreases paths.len(),
{
    let n = paths.len() - 1;
    let t = paths.drop_last();
    set_holds_only_its_paths(paths);
    if k < n {
        assert forall|j: int| 0 <= j < k implies place(#[trigger] t[j]) != place(t[k]) by {
            assert(place(paths[j]) != place(paths[k]));
        }
        a_set_holds_each_place_as_first_written(t, k);
    } else {
        set_holds_only_its_paths(t);
        if set_of(t).contains_key(place(paths[k])) {
            let j = choose|j: int| 0 <= j < t.len() && place(#[trigger] t[j]) == place(paths[k]);
            assert(place(paths[j]) != place(paths[k]));
        }
    }
}

proof fn set_holds_only_its_paths(paths: Seq<Seq<char>>)
    ensures
        forall|at: Place| #[trigger]
            set_of(paths).contains_key(at) ==> exists|j: int|
                0 <= j < paths.len() && place(#[trigger] paths[j]) == at,
    decreases paths.len(),
{
    if paths.len() > 0 {
        let t = paths.drop_last();
        set_holds_only_its_paths(t);
        assert forall|at: Place| #[trigger] set_of(paths).contains_key(at) implies exists|j: int|
            0 <= j < paths.len() && place(#[trigger] paths[j]) == at by {
            if set_of(t).contains_key(at) {
                let j = choose|j: int| 0 <= j < t.len() && place(#[trigger] t[j]) == at;
                assert(place(paths[j]) == at);
            } else {
                assert(place(paths[paths.len() - 1]) == at);
            }
        }
    }
}

/// The places of `paths`.
pub open spec fn places(paths: Seq<Seq<char>>) -> Seq<Place> {
    Seq::new(paths.len(), |i: int| place(paths[i]))
}

/// `set`, which holds paths by their places, with `path`; where its place is held already, it stays
/// as it was written first.
pub open spec fn with_path(set: Map<Place, Seq<char>>, path: Seq<char>) -> Map<Place, Seq<char>> {
    if set.contains_key(place(path)) {
        set
    } else {
        set.insert(place(path), path)
    }
}

/// The paths `paths`, taken in one after the other.
pub open spec fn set_of(paths: Seq<Seq<char>>) -> Map<Place, Seq<char>>
    decreases paths.len(),
{
    if paths.len() == 0 {
        Map::empty()
    } else {
        with_path(set_of(paths.drop_last()), paths.last())
    }
}

/// Whether `paths` are the paths in `set`, each once.
pub open spec fn lists(paths: Seq<Seq<char>>, set: Map<Place, Seq<char>>) -> bool {
    &&& places(paths).no_duplicates()
    &&& places(paths).to_set() == set.dom()
    &&& forall|i: int| 0 <= i < paths.len() ==> set[place(#[trigger] paths[i])] == paths[i]
}

/// What `keys` stand for, one by one.
spec fn as_map<V>(keys: Seq<Place>, values: Seq<V>) -> Map<Place, V> {
    Map::new(|k: Place| keys.contains(k), |k: Place| values[keys.index_of(k)])
}

proof fn lemma_pair<V>(keys: Seq<Place>, values: Seq<V>, i: int)
    requires
        keys.no_duplicates(),
        0 <= i < keys.len(),
    ensures
        as_map(keys, values).contains_key(keys[i]),
        as_map(keys, values)[keys[i]] == values[i],
{
    assert(keys.contains(keys[i]));
    assert(keys[keys.index_of(keys[i])] == keys[i]);
}

proof fn lemma_pair_push<V>(keys: Seq<Place>, values: Seq<V>, key: Place, value: V)
    requires
        keys.no_duplicates(),
        keys.len() == values.len(),
        !keys.contains(key),
    ensures
        as_map(keys.push(key), values.push(value)) == as_map(keys, values).insert(key, value),
        keys.push(key).no_duplicates(),
{
    let a = as_map(keys.push(key), values.push(value));
    let b = as_map(keys, values).insert(key, value);
    assert forall|k: Place| a.contains_key(k) == b.contains_key(k) by {
        if keys.contains(k) {
            let i = choose|i: int| 0 <= i < keys.len() && keys[i] == k;
            assert(keys.push(key)[i] == k);
        }
        if k == key {
            assert(keys.push(key)[keys.len() as int] == k);
        }
    }
    assert forall|k: Place| a.contains_key(k) implies a[k] == b[k] by {
        let i = keys.push(key).index_of(k);
        lemma_pair(keys.push(key), values.push(value), i);
        if k != key {
            lemma_pair(keys, values, i);
        }
    }
    assert(a =~= b);
}

proof fn lemma_pair_update<V>(keys: Seq<Place>, values: Seq<V>, i: int, value: V)
    requires
        keys.no_duplicates(),
        keys.len() == values.len(),
        0 <= i < keys.len(),
    ensures
        as_map(keys, values.update(i, value)) == as_map(keys, values).insert(keys[i], value),
{
    let a = as_map(keys, values.update(i, value));
    let b = as_map(keys, values).insert(keys[i], value);
    lemma_pair(keys, values, i);
    assert forall|k: Place| a.contains_key(k) implies a[k] == b[k] by {
        let j = keys.index_of(k);
        lemma_pair(keys, values.update(i, value), j);
        lemma_pair(keys, values, j);
    }
    assert(a =~= b);
}

proof fn lemma_pair_remove<V>(keys: Seq<Place>, values: Seq<V>, i: int)
    requires
        keys.no_duplicates(),
        keys.len() == values.len(),
        0 <= i < keys.len(),
    ensures
        as_map(keys.remove(i), values.remove(i)) == as_map(keys, values).remove(keys[i]),
        keys.remove(i).no_duplicates(),
{
    let rest = keys.remove(i);
    let a = as_map(rest, values.remove(i));
    let b = as_map(keys, values).remove(keys[i]);
    assert forall|k: Place| a.contains_key(k) == b.contains_key(k) by {
        if rest.contains(k) {
            let j = choose|j: int| 0 <= j < rest.len() && rest[j] == k;
            assert(keys[if j < i {
                j
            } else {
                j + 1
            }] == k);
        }
        if keys.contains(k) && k != keys[i] {
            let j = choose|j: int| 0 <= j < keys.len() && keys[j] == k;
            assert(rest[if j < i {
                j
            } else {
                j - 1
            }] == k);
        }
    }
    assert forall|k: Place| a.contains_key(k) implies a[k] == b[k] by {
        let j = rest.index_of(k);
        lemma_pair(rest, values.remove(i), j);
        let m = if j < i {
            j
        } else {
            j + 1
        };
        assert(keys[m] == k);
        lemma_pair(keys, values, m);
    }
    assert(a =~= b);
}

fn find_place(paths: &Vec<String>, path: &str) -> (at: Option<usize>)
    ensures
        match at {
            Some(i) => i < paths@.len() && places(views(paths@))[i as int] == place(path@),
            None => !places(views(paths@)).contains(place(path@)),
        },
{
    for i in 0..paths.len()
        invariant
            forall|j: int| 0 <= j < i ==> places(views(paths@))[j] != place(path@),
    {
        if is_same_place(paths[i].as_str(), path) {
            return Some(i);
        }
    }
    None
}

/// A set of paths. Two ways of writing one path count as one.
pub struct PathSet {
    items: Vec<String>,
}

impl View for PathSet {
    type V = Map<Place, Seq<char>>;

    closed spec fn view(&self) -> Map<Place, Seq<char>> {
        as_map(places(views(self.items@)), views(self.items@))
    }
}

impl PathSet {
    /// No path is held twice.
    pub closed spec fn wf(&self) -> bool {
        places(views(self.items@)).no_duplicates()
    }

    /// No path.
    pub fn new() -> (set: PathSet)
        ensures
            set.wf(),
            set@ == Map::<Place, Seq<char>>::empty(),
    {
        let set = PathSet { items: Vec::new() };
        assert(set@ =~= Map::<Place, Seq<char>>::empty());
        set
    }

    /// How many paths there are.
    pub fn len(&self) -> (n: usize)
        requires
            self.wf(),
        ensures
            n == self@.dom().len(),
    {
        proof {
            let keys = places(views(self.items@));
            keys.unique_seq_to_set();
            assert(self@.dom() =~= keys.to_set());
        }
        self.items.len()
    }

    /// Whether `path` is one of them.
    pub fn contains(&self, path: &str) -> (yes: bool)
        ensures
            yes == self@.contains_key(place(path@)),
    {
        find_place(&self.items, path).is_some()
    }

    /// Adds `path`; whether it was new.
    pub fn insert(&mut self, path: &str) -> (new: bool)
        requires
            old(self).wf(),
        ensures
            final(self).wf(),
            final(self)@ == with_path(old(self)@, path@),
            new == !old(self)@.contains_key(place(path@)),
    {
        if self.contains(path) {
            return false;
        }
        let ghost before = views(self.items@);
        self.items.push(owned(path));
        proof {
            assert(views(self.items@) =~= before.push(path@));
            assert(places(views(self.items@)) =~= places(before).push(place(path@)));
            lemma_pair_push(places(before), before, place(path@), path@);
        }
        true
    }

    /// Takes `path` away.
    pub fn remove(&mut self, path: &str)
        requires
            old(self).wf(),
        ensures
            final(self).wf(),
            final(self)@ == old(self)@.remove(place(path@)),
    {
        match find_place(&self.items, path) {
            Some(i) => {
                let ghost before = views(self.items@);
                self.items.remove(i);
                proof {
                    assert(views(self.items@) =~= before.remove(i as int));
                    assert(places(views(self.items@)) =~= places(before).remove(i as int));
                    lemma_pair_remove(places(before), before, i as int);
                }
            },
            None => {
                assert(self@.remove(place(path@)) =~= self@);
            },
        }
    }

    /// Takes every path away.
    pub fn clear(&mut self)
        ensures
            final(self).wf(),
            final(self)@ == Map::<Place, Seq<char>>::empty(),
    {
        self.items.clear();
        assert(self@ =~= Map::<Place, Seq<char>>::empty());
    }

    /// The paths, each once.
    pub fn paths(&self) -> (out: Vec<String>)
        requires
            self.wf(),
        ensures
            lists(views(out@), self@),
    {
        let out = copied(&self.items);
        proof {
            let paths = views(out@);
            assert(places(paths).to_set() =~= self@.dom());
            assert forall|i: int| 0 <= i < paths.len() implies self@[place(#[trigger] paths[i])]
                == paths[i] by {
                assert(places(paths)[i] == place(paths[i]));
                lemma_pair(places(paths), paths, i);
            }
        }
        out
    }
}

/// A file that waits: how it was written first, and what is known of it.
pub struct Waiting {
    pub path: Seq<char>,
    pub state: FileCandidate,
}

/// The file `path`, of which nothing is known.
pub open spec fn fresh(path: Seq<char>) -> Waiting {
    Waiting { path, state: FileCandidate::spec_new() }
}

/// The paths of the files that wait.
pub open spec fn waiting_paths(pending: Map<Place, Waiting>) -> Map<Place, Seq<char>> {
    pending.map_values(|w: Waiting| w.path)
}

/// Files that wait, each with what is known of it. Two ways of writing one path count as one.
pub struct Pending {
    keys: Vec<String>,
    states: Vec<FileCandidate>,
}

spec fn waiting(keys: Seq<Seq<char>>, states: Seq<FileCandidate>) -> Seq<Waiting> {
    Seq::new(keys.len(), |i: int| Waiting { path: keys[i], state: states[i] })
}

impl View for Pending {
    type V = Map<Place, Waiting>;

    closed spec fn view(&self) -> Map<Place, Waiting> {
        as_map(places(views(self.keys@)), waiting(views(self.keys@), self.states@))
    }
}

impl Pending {
    /// Each file waits once.
    pub closed spec fn wf(&self) -> bool {
        places(views(self.keys@)).no_duplicates() && self.keys@.len() == self.states@.len()
    }

    /// No file.
    pub fn new() -> (pending: Pending)
        ensures
            pending.wf(),
            pending@ == Map::<Place, Waiting>::empty(),
    {
        let pending = Pending { keys: Vec::new(), states: Vec::new() };
        assert(pending@ =~= Map::<Place, Waiting>::empty());
        pending
    }

    /// How many files wait.
    pub fn len(&self) -> (n: usize)
        requires
            self.wf(),
        ensures
            n == self@.dom().len(),
    {
        proof {
            let keys = places(views(self.keys@));
            keys.unique_seq_to_set();
            assert(self@.dom() =~= keys.to_set());
        }
        self.keys.len()
    }

    /// Whether `path` waits.
    pub fn contains(&self, path: &str) -> (yes: bool)
        requires
            self.wf(),
        ensures
            yes == self@.contains_key(place(path@)),
    {
        find_place(&self.keys, path).is_some()
    }

    /// What is known of `path`.
    pub fn get(&self, path: &str) -> (state: Option<FileCandidate>)
        requires
            self.wf(),
        ensures
            match state {
                Some(state) => self@.contains_key(place(path@)) && self@[place(path@)].state == state,
                None => !self@.contains_key(place(path@)),
            },
    {
        match find_place(&self.keys, path) {
            Some(i) => {
                proof {
                    let keys = views(self.keys@);
                    lemma_pair(places(keys), waiting(keys, self.states@), i as int);
                }
                Some(self.states[i])
            },
            None => None,
        }
    }

    /// Lets `path` wait as a fresh candidate, or keeps what is known of it where it waits already.
    pub fn or_insert(&mut self, path: &str)
        requires
            old(self).wf(),
        ensures
            final(self).wf(),
            old(self)@.contains_key(place(path@)) ==> final(self)@ == old(self)@,
            !old(self)@.contains_key(place(path@)) ==> final(self)@ == old(self)@.insert(
                place(path@),
                fresh(path@),
            ),
    {
        if find_place(&self.keys, path).is_none() {
            let ghost keys = views(self.keys@);
            let ghost states = self.states@;
            self.keys.push(owned(path));
            self.states.push(FileCandidate::new());
            proof {
                lemma_pair_push(places(keys), waiting(keys, states), place(path@), fresh(path@));
                assert(views(self.keys@) =~= keys.push(path@));
                assert(places(views(self.keys@)) =~= places(keys).push(place(path@)));
                assert(waiting(views(self.keys@), self.states@) =~= waiting(keys, states).push(
                    fresh(path@),
                ));
            }
        }
    }

    fn put(&mut self, i: usize, state: FileCandidate)
        requires
            old(self).wf(),
            i < old(self).keys@.len(),
        ensures
            final(self).wf(),
            final(self).keys == old(self).keys,
            ({
                let k = places(views(old(self).keys@))[i as int];
                &&& old(self)@.contains_key(k)
                &&& old(self)@[k].state == old(self).states@[i as int]
                &&& final(self)@ == old(self)@.insert(k, Waiting { state, ..old(self)@[k] })
            }),
    {
        let ghost keys = views(self.keys@);
        let ghost states = self.states@;
        self.states.set(i, state);
        proof {
            let all = waiting(keys, states);
            let next = Waiting { path: keys[i as int], state };
            lemma_pair(places(keys), all, i as int);
            lemma_pair_update(places(keys), all, i as int, next);
            assert(waiting(keys, self.states@) =~= all.update(i as int, next));
        }
    }

    /// Lets `path` wait as a fresh candidate, whatever was known of it.
    pub fn insert(&mut self, path: &str)
        requires
            old(self).wf(),
        ensures
            final(self).wf(),
            final(self)@ == old(self)@.insert(
                place(path@),
                Waiting {
                    state: FileCandidate::spec_new(),
                    path: if old(self)@.contains_key(place(path@)) {
                        old(self)@[place(path@)].path
                    } else {
                        path@
                    },
                },
            ),
    {
        match find_place(&self.keys, path) {
            Some(i) => self.put(i, FileCandidate::new()),
            None => self.or_insert(path),
        }
    }

    /// Lets `path` wait no longer.
    pub fn remove(&mut self, path: &str)
        requires
            old(self).wf(),
        ensures
            final(self).wf(),
            final(self)@ == old(self)@.remove(place(path@)),
    {
        match find_place(&self.keys, path) {
            Some(i) => {
                let ghost keys = views(self.keys@);
                let ghost states = self.states@;
                self.keys.remove(i);
                self.states.remove(i);
                proof {
                    lemma_pair_remove(places(keys), waiting(keys, states), i as int);
                    assert(views(self.keys@) =~= keys.remove(i as int));
                    assert(places(views(self.keys@)) =~= places(keys).remove(i as int));
                    assert(waiting(views(self.keys@), self.states@) =~= waiting(
                        keys,
                        states,
                    ).remove(i as int));
                }
            },
            None => {
                assert(self@.remove(place(path@)) =~= self@);
            },
        }
    }

    /// Lets no file wait.
    pub fn clear(&mut self)
        ensures
            final(self).wf(),
            final(self)@ == Map::<Place, Waiting>::empty(),
    {
        self.keys.clear();
        self.states.clear();
        assert(self@ =~= Map::<Place, Waiting>::empty());
    }

    /// The waiting files, each once.
    pub fn paths(&self) -> (out: Vec<String>)
        requires
            self.wf(),
        ensures
            lists(views(out@), waiting_paths(self@)),
    {
        let out = copied(&self.keys);
        proof {
            let paths = views(out@);
            assert(places(paths).to_set() =~= waiting_paths(self@).dom());
            assert forall|i: int| 0 <= i < paths.len() implies waiting_paths(self@)[place(
                #[trigger] paths[i],
            )] == paths[i] by {
                assert(places(paths)[i] == place(paths[i]));
                lemma_pair(places(paths), waiting(paths, self.states@), i);
            }
        }
        out
    }

    /// Takes in a look at `path`; whether it waits and is ready.
    pub fn look(&mut self, path: &str, len: u64, modified: Option<i128>) -> (ready: bool)
        requires
            old(self).wf(),
        ensures
            final(self).wf(),
            !old(self)@.contains_key(place(path@)) ==> !ready && final(self)@ == old(self)@,
            old(self)@.contains_key(place(path@)) ==> {
                let known = old(self)@[place(path@)];
                let state = known.state.looked(len, modified);
                final(self)@ == old(self)@.insert(place(path@), Waiting { state, ..known }) && ready
                    == (state.stable_ticks >= READY_TICKS)
            },
    {
        match find_place(&self.keys, path) {
            Some(i) => {
                let mut state: FileCandidate = self.states[i];
                let ready = state.look(len, modified);
                self.put(i, state);
                ready
            },
            None => false,
        }
    }
}

} // verus!
