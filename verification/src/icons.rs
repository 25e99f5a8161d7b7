//! The icons that are kept: a bounded number, the one that was not used for longest leaving first.

use crate::text::views;
use crate::tracking::places;
use crate::winpath::{is_same_place, place, same_place};
use vstd::prelude::*;

verus! {

/// How many icons are kept.
pub const CACHE_CAP: usize = 512;

/// How often an icon was there, and what looking for it took, in nanoseconds.
#[derive(Clone, Copy, Debug, PartialEq, Eq, Structural)]
pub struct IconPerfStats {
    pub hits: u64,
    pub misses: u64,
    pub hit_time: u128,
    pub miss_time: u128,
}

impl Default for IconPerfStats {
    fn default() -> (stats: Self)
        ensures
            stats == no_stats(),
    {
        IconPerfStats { hits: 0, misses: 0, hit_time: 0, miss_time: 0 }
    }
}

/// Nothing counted.
pub open spec fn no_stats() -> IconPerfStats {
    IconPerfStats { hits: 0, misses: 0, hit_time: 0, miss_time: 0 }
}

/// The icons of files, by path, however that is written, from the one that was not used for longest to the one that was used
/// last.
pub struct IconCache {
    paths: Vec<String>,
    icons: Vec<isize>,
    perf: IconPerfStats,
}

impl View for IconCache {
    type V = Seq<(Seq<char>, isize)>;

    closed spec fn view(&self) -> Seq<(Seq<char>, isize)> {
        Seq::new(self.paths@.len(), |i: int| (self.paths@[i]@, self.icons@[i]))
    }
}

/// The icons `s`, with the one at `i` as the one used last.
pub open spec fn used(s: Seq<(Seq<char>, isize)>, i: int) -> Seq<(Seq<char>, isize)> {
    s.remove(i).push(s[i])
}

/// The icons `s` with a new one: where there are too many the first leaves.
pub open spec fn with_icon(s: Seq<(Seq<char>, isize)>, new: (Seq<char>, isize)) -> Seq<
    (Seq<char>, isize),
> {
    if s.len() < CACHE_CAP {
        s.push(new)
    } else {
        s.skip(1).push(new)
    }
}

/// The icons `s` with those of `news`, one after the other.
pub open spec fn with_icons(s: Seq<(Seq<char>, isize)>, news: Seq<(Seq<char>, isize)>) -> Seq<
    (Seq<char>, isize),
>
    decreases news.len(),
{
    if news.len() == 0 {
        s
    } else {
        with_icon(with_icons(s, news.drop_last()), news.last())
    }
}

/// Whether `path` has an icon in `s`.
pub open spec fn has_path(s: Seq<(Seq<char>, isize)>, path: Seq<char>) -> bool {
    exists|i: int| 0 <= i < s.len() && same_place((#[trigger] s[i]).0, path)
}

impl IconCache {
    /// No file has two icons, and there are not too many.
    pub closed spec fn wf(&self) -> bool {
        &&& self.paths@.len() == self.icons@.len()
        &&& self.paths@.len() <= CACHE_CAP
        &&& places(views(self.paths@)).no_duplicates()
    }

    /// What was counted.
    pub closed spec fn stats(&self) -> IconPerfStats {
        self.perf
    }

    /// No icon.
    pub fn new() -> (cache: IconCache)
        ensures
            cache.wf(),
            cache@.len() == 0,
            cache.stats() == no_stats(),
    {
        IconCache { paths: Vec::new(), icons: Vec::new(), perf: IconPerfStats::default() }
    }

    /// No file has two icons, and there are not too many.
    pub proof fn bounded(&self)
        requires
            self.wf(),
        ensures
            self@.len() <= CACHE_CAP,
            forall|i: int, j: int|
                0 <= i < j < self@.len() ==> !same_place(
                    (#[trigger] self@[i]).0,
                    (#[trigger] self@[j]).0,
                ),
    {
        assert forall|i: int, j: int| 0 <= i < j < self@.len() implies !same_place(
            (#[trigger] self@[i]).0,
            (#[trigger] self@[j]).0,
        ) by {
            let all = places(views(self.paths@));
            assert(all[i] != all[j]);
        }
    }

    /// The icon of `path`, where it is kept, which is then the one used last; `lookup` is what
    /// finding it took, where that is measured.
    pub fn get(&mut self, path: &String, lookup: Option<u128>) -> (icon: Option<isize>)
        requires
            old(self).wf(),
        ensures
            final(self).wf(),
            match icon {
                Some(icon) => exists|i: int|
                    0 <= i < old(self)@.len() && same_place(
                        (#[trigger] old(self)@[i]).0,
                        path@,
                    ) && old(self)@[i].1 == icon && final(self)@ == used(old(self)@, i),
                None => !has_path(old(self)@, path@) && final(self)@ == old(self)@,
            },
            final(self).stats() == if icon is Some && lookup is Some {
                IconPerfStats {
                    hits: crate::perf::count_of(old(self).stats().hits, 1),
                    hit_time: crate::perf::sum_of(
                        old(self).stats().hit_time as int,
                        lookup->0 as int,
                    ) as u128,
                    ..old(self).stats()
                }
            } else {
                old(self).stats()
            },
    {
        let n: usize = self.paths.len();
        for i in 0..n
            invariant
                *self == *old(self),
                self.wf(),
                n == self.paths@.len(),
                forall|j: int| 0 <= j < i ==> !same_place((#[trigger] self@[j]).0, path@),
        {
            if is_same_place(self.paths[i].as_str(), path.as_str()) {
                let ghost before = self@;
                let ghost old_paths = views(self.paths@);
                let icon: isize = self.icons[i];
                assert(before[i as int].1 == icon);
                let found = self.paths.remove(i);
                self.icons.remove(i);
                let ghost rest = views(self.paths@);
                assert(rest =~= old_paths.remove(i as int));
                let ghost text = found@;
                assert(old_paths[i as int] == text);
                self.paths.push(found);
                self.icons.push(icon);
                proof {
                    assert(views(self.paths@) =~= rest.push(text));
                    let old_places = places(old_paths);
                    let new_places = places(views(self.paths@));
                    assert forall|j: int, k: int| 0 <= j < k < n implies #[trigger] new_places[j]
                        != #[trigger] new_places[k] by {
                        let from = |x: int|
                            if x == n - 1 {
                                i as int
                            } else if x < i {
                                x
                            } else {
                                x + 1
                            };
                        assert(new_places[j] == old_places[from(j)]);
                        assert(new_places[k] == old_places[from(k)]);
                    }
                    assert(new_places.no_duplicates());
                    assert(self@ =~= used(before, i as int));
                }
                match lookup {
                    Some(d) => {
                        let ghost order = self@;
                        self.perf.hits = if self.perf.hits == u64::MAX {
                            u64::MAX
                        } else {
                            self.perf.hits + 1
                        };
                        self.perf.hit_time = if self.perf.hit_time > u128::MAX - d {
                            u128::MAX
                        } else {
                            self.perf.hit_time + d
                        };
                        assert(self@ =~= order);
                    },
                    None => {},
                }
                return Some(icon);
            }
        }
        None
    }

    /// Counts a file whose icon was not kept; `lookup` is what getting it took, where that is
    /// measured.
    pub fn count_miss(&mut self, lookup: Option<u128>)
        requires
            old(self).wf(),
        ensures
            final(self).wf(),
            final(self)@ == old(self)@,
            final(self).stats() == if lookup is Some {
                IconPerfStats {
                    misses: crate::perf::count_of(old(self).stats().misses, 1),
                    miss_time: crate::perf::sum_of(
                        old(self).stats().miss_time as int,
                        lookup->0 as int,
                    ) as u128,
                    ..old(self).stats()
                }
            } else {
                old(self).stats()
            },
    {
        match lookup {
            Some(d) => {
                let ghost before = self@;
                self.perf.misses = if self.perf.misses == u64::MAX {
                    u64::MAX
                } else {
                    self.perf.misses + 1
                };
                self.perf.miss_time = if self.perf.miss_time > u128::MAX - d {
                    u128::MAX
                } else {
                    self.perf.miss_time + d
                };
                assert(self@ =~= before);
            },
            None => {},
        }
    }

    /// Keeps the icon of a file that has none yet; a handle of 0 is no icon and is not kept. Where
    /// there are too many the one that was not used for longest leaves, and comes back to be given
    /// up.
    pub fn insert(&mut self, path: &String, icon: isize) -> (evicted: Option<isize>)
        requires
            old(self).wf(),
            !has_path(old(self)@, path@),
        ensures
            final(self).wf(),
            final(self).stats() == old(self).stats(),
            icon == 0 ==> final(self)@ == old(self)@ && evicted is None,
            icon != 0 ==> final(self)@ == with_icon(old(self)@, (path@, icon)),
            evicted is Some ==> old(self)@.len() >= 512,
            icon != 0 && old(self)@.len() < CACHE_CAP ==> final(self)@ == old(self)@.push(
                (path@, icon),
            ) && evicted is None,
            icon != 0 && old(self)@.len() >= CACHE_CAP ==> final(self)@ == old(self)@.skip(1).push(
                (path@, icon),
            ) && evicted == Some(old(self)@[0].1),
    {
        if icon == 0 {
            return None;
        }
        let ghost before = self@;
        let ghost old_paths = views(self.paths@);
        proof {
            assert forall|i: int| 0 <= i < old_paths.len() implies #[trigger] places(
                old_paths,
            )[i] != place(path@) by {
                assert(!same_place(self@[i].0, path@));
            }
        }
        let mut evicted: Option<isize> = None;
        if self.paths.len() >= CACHE_CAP {
            evicted = Some(self.icons[0]);
            self.paths.remove(0);
            self.icons.remove(0);
            assert(views(self.paths@) =~= old_paths.skip(1));
            assert(places(views(self.paths@)) =~= places(old_paths).skip(1));
            assert(self@ =~= before.skip(1));
        }
        let ghost middle = self@;
        let ghost middle_paths = views(self.paths@);
        self.paths.push(path.clone());
        self.icons.push(icon);
        assert(views(self.paths@) =~= middle_paths.push(path@));
        assert(places(views(self.paths@)) =~= places(middle_paths).push(place(path@)));
        assert(self@ =~= middle.push((path@, icon)));
        evicted
    }

    /// What was counted, and begins to count anew.
    pub fn take_perf_stats(&mut self) -> (stats: IconPerfStats)
        requires
            old(self).wf(),
        ensures
            stats == old(self).stats(),
            final(self).stats() == no_stats(),
            final(self)@ == old(self)@,
            final(self).wf(),
    {
        let ghost before = self@;
        let stats = self.perf;
        self.perf = IconPerfStats::default();
        assert(self@ =~= before);
        stats
    }

    /// Keeps no icon any more; all of them come back to be given up.
    pub fn clear(&mut self) -> (icons: Vec<isize>)
        requires
            old(self).wf(),
        ensures
            final(self).wf(),
            final(self)@.len() == 0,
            final(self).stats() == old(self).stats(),
            icons@.len() == old(self)@.len(),
            forall|i: int| 0 <= i < icons@.len() ==> #[trigger] icons@[i] == old(self)@[i].1,
    {
        let mut icons: Vec<isize> = Vec::new();
        std::mem::swap(&mut icons, &mut self.icons);
        self.paths = Vec::new();
        icons
    }
}

/// Where an icon is asked for next.
#[derive(Clone, Copy, Debug, PartialEq, Eq, Structural)]
pub enum IconSource {
    /// The system's list of larger icons, at this place.
    ExtraLarge(i32),
    /// The system's list of large icons, at this place.
    Large(i32),
    /// The shell's own icon of the file.
    FileIcon,
    /// The shell's icon for files of that kind.
    KindIcon,
    /// There is none.
    Nothing,
}

/// The first place to ask: the system's lists, where the shell knows the file's place in them.
pub fn first_icon_source(index: Option<i32>) -> (source: IconSource)
    ensures
        source == (match index {
            Some(i) if i >= 0 => IconSource::ExtraLarge(i),
            _ => IconSource::FileIcon,
        }),
{
    match index {
        Some(i) => if i >= 0 {
            IconSource::ExtraLarge(i)
        } else {
            IconSource::FileIcon
        },
        None => IconSource::FileIcon,
    }
}

/// The place to ask behind one that had no icon.
pub fn next_icon_source(source: IconSource) -> (next: IconSource)
    ensures
        next == (match source {
            IconSource::ExtraLarge(i) => IconSource::Large(i),
            IconSource::Large(_) => IconSource::FileIcon,
            IconSource::FileIcon => IconSource::KindIcon,
            IconSource::KindIcon => IconSource::Nothing,
            IconSource::Nothing => IconSource::Nothing,
        }),
{
    match source {
        IconSource::ExtraLarge(i) => IconSource::Large(i),
        IconSource::Large(_) => IconSource::FileIcon,
        IconSource::FileIcon => IconSource::KindIcon,
        IconSource::KindIcon => IconSource::Nothing,
        IconSource::Nothing => IconSource::Nothing,
    }
}

/// An icon that was just used is not the one that makes room for the next: of a full cache `s` the icon
/// at `i` is still there, and the first of the others has left.
pub proof fn a_used_icon_stays(s: Seq<(Seq<char>, isize)>, i: int, new: (Seq<char>, isize))
    requires
        s.len() == CACHE_CAP,
        0 <= i < s.len(),
    ensures
        ({
            let after = used(s, i).skip(1).push(new);
            &&& after.contains(s[i])
            &&& after.len() == CACHE_CAP
            &&& used(s, i)[0] == (if i == 0 {
                s[1]
            } else {
                s[0]
            })
        }),
{
    let after = used(s, i).skip(1).push(new);
    assert(after[CACHE_CAP - 2] == s[i]);
}

/// An icon that was just used, or just came, is still there after 511 others came; after 512 none of
/// those that were there before is.
pub proof fn an_icon_stays_for_the_next_ones(
    s: Seq<(Seq<char>, isize)>,
    news: Seq<(Seq<char>, isize)>,
)
    requires
        0 < s.len() <= 512,
    ensures
        with_icons(s, news).len() == if s.len() + news.len() < 512 {
            (s.len() + news.len()) as int
        } else {
            512
        },
        news.len() < 512 ==> with_icons(s, news)[with_icons(s, news).len() - 1 - news.len()]
            == s.last(),
        forall|i: int|
            0 <= i < news.len() && i < with_icons(s, news).len() ==> #[trigger] with_icons(
                s,
                news,
            )[with_icons(s, news).len() - 1 - i] == news[news.len() - 1 - i],
    decreases news.len(),
{
    if news.len() > 0 {
        let t = news.drop_last();
        an_icon_stays_for_the_next_ones(s, t);
        let before = with_icons(s, t);
        let now = with_icons(s, news);
        assert forall|i: int| 0 <= i < news.len() && i < now.len() implies #[trigger] now[now.len()
            - 1 - i] == news[news.len() - 1 - i] by {
            if i > 0 {
                assert(now[now.len() - 1 - i] == before[before.len() - 1 - (i - 1)]);
                assert(t[t.len() - 1 - (i - 1)] == news[news.len() - 1 - i]);
            }
        }
        if news.len() < 512 {
            assert(now[now.len() - 1 - news.len()] == before[before.len() - 1 - t.len()]);
        }
    }
}

} // verus!
