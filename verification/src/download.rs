//! New downloads: which files they are, when they are whole, and the box that takes them.

use crate::config::{download_box_dir, Config, FenceCfg, FenceKind};
use crate::fence::Fence;
use crate::global::{fence_with_id, is_fence_with_id, is_synced, sync_config, Global};
use crate::shortcut::{
    after_look, examine, keep_only, known, remove_all, settled_of, settled_paths, take_all, verdict,
    Fate, FileFacts, Verdict,
};
use crate::text::{ascii_lowercase, eq_ignore_ascii_case, owned, views};
use crate::tracking::{
    fresh, places, set_of, with_path, FileCandidate, PathSet, Pending, Waiting,
};
use crate::utils::{at_dpi, pixels};
use crate::winpath::{
    a_name_splits_at_its_last_dot, extension, extension_of, file_name, file_name_of, is_plain, is_same_place, join,
    joined, place, same_place, takes_names, Place,
};
use vstd::prelude::*;
use vstd::string::*;

verus! {

/// Whether `ext` is that of a download under way, whatever its case.
pub open spec fn is_temp_extension(ext: Seq<char>) -> bool {
    let low = ascii_lowercase(ext);
    ||| low == ascii_lowercase("crdownload"@)
    ||| low == ascii_lowercase("part"@)
    ||| low == ascii_lowercase("partial"@)
    ||| low == ascii_lowercase("download"@)
    ||| low == ascii_lowercase("tmp"@)
}

/// Whether `path` is a download under way.
pub open spec fn names_temp(path: Seq<char>) -> bool {
    extension(path) is Some && is_temp_extension(extension(path)->0)
}

/// See [`names_temp`].
pub fn is_download_temp(path: &str) -> (yes: bool)
    ensures
        yes == names_temp(path@),
{
    match extension_of(path) {
        Some(ext) => {
            let ext = ext.as_str();
            eq_ignore_ascii_case(ext, "crdownload") || eq_ignore_ascii_case(ext, "part")
                || eq_ignore_ascii_case(ext, "partial") || eq_ignore_ascii_case(ext, "download")
                || eq_ignore_ascii_case(ext, "tmp")
        },
        None => false,
    }
}

/// Whether `path` is the file by which Windows remembers how a folder looks.
pub open spec fn names_folder_settings(path: Seq<char>) -> bool {
    file_name(path) is Some && ascii_lowercase(file_name(path)->0) == ascii_lowercase(
        "desktop.ini"@,
    )
}

fn is_folder_settings(path: &str) -> (yes: bool)
    ensures
        yes == names_folder_settings(path@),
{
    match file_name_of(path) {
        Some(name) => eq_ignore_ascii_case(name.as_str(), "desktop.ini"),
        None => false,
    }
}

/// Something that changed in the folder of downloads.
pub struct News {
    pub name: String,
    pub is_file: bool,
}

/// The downloads that are known.
pub struct DownloadTracker {
    /// Those that were there already, or were taken up.
    pub seen: PathSet,
    /// Those that wait to be whole.
    pub pending: Pending,
}

/// The downloads that are known, over plain values.
#[verifier::ext_equal]
pub struct Downloads {
    pub seen: Map<Place, Seq<char>>,
    pub pending: Map<Place, Waiting>,
}

impl View for DownloadTracker {
    type V = Downloads;

    open spec fn view(&self) -> Downloads {
        Downloads { seen: self.seen@, pending: self.pending@ }
    }
}

/// What is known after news of `path`: a whole file that was not seen before waits from now on.
pub open spec fn after_news(d: Downloads, path: Seq<char>, is_file: bool) -> Downloads {
    let at = place(path);
    if names_folder_settings(path) || !is_file || names_temp(path) || d.seen.contains_key(at) {
        d
    } else {
        Downloads {
            seen: with_path(d.seen, path),
            pending: d.pending.insert(
                at,
                if d.pending.contains_key(at) {
                    Waiting { state: FileCandidate::spec_new(), ..d.pending[at] }
                } else {
                    fresh(path)
                },
            ),
        }
    }
}

/// What is known after `news`, one after the other.
pub open spec fn after_all_news(d: Downloads, downloads: Seq<char>, news: Seq<News>) -> Downloads
    decreases news.len(),
{
    if news.len() == 0 {
        d
    } else {
        after_news(
            after_all_news(d, downloads, news.drop_last()),
            join(downloads, news.last().name@),
            news.last().is_file,
        )
    }
}

impl DownloadTracker {
    pub open spec fn wf(&self) -> bool {
        self.seen.wf() && self.pending.wf()
    }

    /// Nothing is known.
    pub fn new() -> (t: DownloadTracker)
        ensures
            t.wf(),
            t@ == (Downloads { seen: Map::empty(), pending: Map::empty() }),
    {
        DownloadTracker { seen: PathSet::new(), pending: Pending::new() }
    }

    /// Takes in news from the folder `downloads`.
    pub fn ingest(&mut self, downloads: &str, news: &Vec<News>)
        requires
            old(self).wf(),
        ensures
            final(self).wf(),
            final(self)@ == after_all_news(old(self)@, downloads@, news@),
    {
        for i in 0..news.len()
            invariant
                self.wf(),
                self@ == after_all_news(old(self)@, downloads@, news@.take(i as int)),
        {
            proof {
                assert(news@.take(i + 1).drop_last() =~= news@.take(i as int));
            }
            let path = joined(downloads, news[i].name.as_str());
            if !is_folder_settings(path.as_str()) && news[i].is_file && !is_download_temp(
                path.as_str(),
            ) && self.seen.insert(path.as_str()) {
                self.pending.insert(path.as_str());
            }
            assert(self@ =~= after_all_news(old(self)@, downloads@, news@.take(i + 1)));
        }
        assert(news@.take(news@.len() as int) =~= news@);
    }

    /// Forgets the paths that `exists` does not hold, so that a download of the same name is news
    /// again.
    pub fn forget_gone(&mut self, exists: &PathSet)
        requires
            old(self).wf(),
            exists.wf(),
        ensures
            final(self).wf(),
            final(self)@ == (Downloads {
                seen: old(self)@.seen.restrict(exists@.dom()),
                ..old(self)@
            }),
    {
        keep_only(&mut self.seen, exists);
    }

    /// Takes in a look at the waiting file `path`: whether it is gone, still changes, or is whole.
    pub fn examine(&mut self, path: &str, facts: Option<FileFacts>) -> (v: Verdict)
        requires
            old(self).wf(),
        ensures
            final(self).wf(),
            final(self)@ == (Downloads {
                pending: after_look(old(self)@.pending, path@, true, facts),
                ..old(self)@
            }),
            v == verdict(known(old(self)@.pending, path@), true, facts),
    {
        examine(&mut self.pending, path, true, facts)
    }

    /// Ends a round of looks: `fates` tells what became of the files at `paths`. Whether the box is
    /// to be read again.
    pub fn finish_round(&mut self, paths: &Vec<String>, fates: &Vec<Fate>) -> (refresh: bool)
        requires
            old(self).wf(),
            paths@.len() == fates@.len(),
        ensures
            final(self).wf(),
            final(self)@ == ({
                let done = places(settled_paths(views(paths@), fates@)).to_set();
                Downloads {
                    seen: old(self)@.seen.remove_keys(done),
                    pending: old(self)@.pending.remove_keys(done),
                }
            }),
            refresh == (settled_paths(views(paths@), fates@).len() > 0),
    {
        let done = settled_of(paths, fates);
        self.settle(&done);
        assert(views(done@).len() == done@.len());
        done.len() > 0
    }

    /// Lets the files `done` wait no longer, and forgets them.
    pub fn settle(&mut self, done: &Vec<String>)
        requires
            old(self).wf(),
        ensures
            final(self).wf(),
            final(self)@ == (Downloads {
                seen: old(self)@.seen.remove_keys(places(views(done@)).to_set()),
                pending: old(self)@.pending.remove_keys(places(views(done@)).to_set()),
            }),
    {
        remove_all(&mut self.pending, done);
        take_all(&mut self.seen, done);
    }

    /// Begins anew: what is in the folder of downloads by now (`there`) is no news.
    pub fn reset(&mut self, there: &Vec<String>)
        requires
            old(self).wf(),
        ensures
            final(self).wf(),
            final(self)@ == (Downloads { seen: set_of(views(there@)), pending: Map::empty() }),
    {
        self.pending.clear();
        self.seen.clear();
        let ghost all = views(there@);
        assert(all.take(0) =~= Seq::empty());
        for i in 0..there.len()
            invariant
                self.wf(),
                all == views(there@),
                self.pending@ == Map::<Place, Waiting>::empty(),
                self.seen@ == set_of(all.take(i as int)),
        {
            proof {
                assert(all.take(i + 1).drop_last() =~= all.take(i as int));
                assert(all.take(i + 1).last() == all[i as int]);
            }
            self.seen.insert(there[i].as_str());
        }
        assert(all.take(all.len() as int) =~= all);
    }
}

/// News of a download that is seen or under way changes nothing, however it is written: it waits
/// once.
pub proof fn a_download_waits_once(
    d: Downloads,
    path: Seq<char>,
    other: Seq<char>,
    first: bool,
    again: bool,
)
    ensures
        after_news(d, path, true) == after_news(after_news(d, path, true), path, again),
        same_place(path, other) && after_news(d, path, true).seen.contains_key(place(path))
            ==> after_news(after_news(d, path, true), other, again) == after_news(d, path, true),
        names_temp(path) ==> after_news(d, path, first) == d,
{
}

/// A file that a browser is still writing, by one of the extensions that they use, in any case, is never
/// taken up; nor is a folder, nor the file in which Windows keeps how a folder looks.
pub proof fn a_download_under_way_is_left_alone(
    d: Downloads,
    dir: Seq<char>,
    stem: Seq<char>,
    ext: Seq<char>,
    is_file: bool,
)
    requires
        takes_names(dir),
        is_plain(stem + seq!['.'] + ext),
        stem.len() > 0,
        !ext.contains('.'),
    ensures
        ({
            let path = join(dir, stem + seq!['.'] + ext);
            let low = ascii_lowercase(ext);
            let temp = low == "crdownload"@ || low == "part"@ || low == "partial"@ || low
                == "download"@ || low == "tmp"@;
            let settings = ascii_lowercase(stem + seq!['.'] + ext) == "desktop.ini"@;
            &&& temp || settings || !is_file ==> after_news(d, path, is_file) == d
            &&& !temp && !settings && is_file && !d.seen.contains_key(place(path))
                ==> after_news(d, path, is_file).pending.contains_key(place(path)) && after_news(
                d,
                path,
                is_file,
            ).pending[place(path)].state == FileCandidate::spec_new() && after_news(
                d,
                path,
                is_file,
            ).seen.contains_key(place(path))
        }),
{
    a_name_splits_at_its_last_dot(dir, stem, ext);
    small_letters_stay();
}

proof fn small_letters_stay()
    ensures
        ascii_lowercase("crdownload"@) == "crdownload"@,
        ascii_lowercase("part"@) == "part"@,
        ascii_lowercase("partial"@) == "partial"@,
        ascii_lowercase("download"@) == "download"@,
        ascii_lowercase("tmp"@) == "tmp"@,
        ascii_lowercase("desktop.ini"@) == "desktop.ini"@,
{
    reveal_strlit("crdownload");
    reveal_strlit("part");
    reveal_strlit("partial");
    reveal_strlit("download");
    reveal_strlit("tmp");
    reveal_strlit("desktop.ini");
    assert(ascii_lowercase("crdownload"@) =~= "crdownload"@);
    assert(ascii_lowercase("part"@) =~= "part"@);
    assert(ascii_lowercase("partial"@) =~= "partial"@);
    assert(ascii_lowercase("download"@) =~= "download"@);
    assert(ascii_lowercase("tmp"@) =~= "tmp"@);
    assert(ascii_lowercase("desktop.ini"@) =~= "desktop.ini"@);
}

/// News of one file changes nothing for any other; and no news lets a file wait no longer.
pub proof fn news_is_about_its_file_alone(
    d: Downloads,
    path: Seq<char>,
    is_file: bool,
    other: Place,
)
    requires
        other != place(path),
    ensures
        ({
            let after = after_news(d, path, is_file);
            &&& after.seen.contains_key(other) == d.seen.contains_key(other)
            &&& after.pending.contains_key(other) == d.pending.contains_key(other)
            &&& d.pending.contains_key(other) ==> after.pending[other] == d.pending[other]
            &&& d.pending.contains_key(place(path)) ==> after.pending.contains_key(place(path))
            &&& d.seen.contains_key(place(path)) ==> after.seen.contains_key(place(path))
        }),
{
}

/// What was there when the taking of downloads began is never taken; a file that comes later is, and
/// once it went, a file of the same name is again.
pub proof fn only_what_comes_later_is_taken(there: Seq<Seq<char>>, k: int, path: Seq<char>)
    requires
        0 <= k < there.len(),
        !names_temp(path),
        !names_folder_settings(path),
    ensures
        ({
            let d = Downloads { seen: set_of(there), pending: Map::empty() };
            let new = after_news(d, path, true);
            let done = set![place(path)];
            let gone = Downloads {
                seen: new.seen.remove_keys(done),
                pending: new.pending.remove_keys(done),
            };
            &&& same_place(path, there[k]) ==> new == d
            &&& (forall|j: int|
                0 <= j < there.len() ==> !same_place(path, #[trigger] there[j]))
                ==> new.pending.contains_key(place(path)) && after_news(
                gone,
                path,
                true,
            ).pending.contains_key(place(path))
        }),
{
    taken_in(there, k);
    if forall|j: int| 0 <= j < there.len() ==> !same_place(path, #[trigger] there[j]) {
        not_taken_in(there, path);
    }
}

proof fn taken_in(paths: Seq<Seq<char>>, k: int)
    requires
        0 <= k < paths.len(),
    ensures
        set_of(paths).contains_key(place(paths[k])),
    decreases paths.len(),
{
    if k < paths.len() - 1 {
        taken_in(paths.drop_last(), k);
    }
}

proof fn not_taken_in(paths: Seq<Seq<char>>, path: Seq<char>)
    requires
        forall|j: int| 0 <= j < paths.len() ==> !same_place(path, #[trigger] paths[j]),
    ensures
        !set_of(paths).contains_key(place(path)),
    decreases paths.len(),
{
    if paths.len() > 0 {
        let t = paths.drop_last();
        assert forall|j: int| 0 <= j < t.len() implies !same_place(path, #[trigger] t[j]) by {
            assert(t[j] == paths[j]);
        }
        not_taken_in(t, path);
        assert(!same_place(path, paths[paths.len() - 1]));
    }
}

/// Whether a fence shows where downloads are concerned: each does but the box for downloads, which
/// shows while downloads are taken and it is not switched off.
pub open spec fn shows(c: Config, id: u32) -> bool {
    c.download_box_id != Some(id) || (c.download_enabled && c.download_box_visible)
}

/// See [`shows`].
pub fn download_box_should_show(c: &Config, id: u32) -> (yes: bool)
    ensures
        yes == shows(*c, id),
{
    match c.download_box_id {
        Some(box_id) => box_id != id || (c.download_enabled && c.download_box_visible),
        None => true,
    }
}

/// The folder of downloads of a user.
pub fn downloads_dir(profile: &Option<String>) -> (dir: Option<String>)
    ensures
        match dir {
            Some(dir) => profile is Some && dir@ == join(profile->0@, "Downloads"@),
            None => profile is None,
        },
{
    match profile {
        Some(profile) => Some(joined(profile.as_str(), "Downloads")),
        None => None,
    }
}

/// The folder that takes downloads: that of their box where it has one, else the one made for it.
pub open spec fn is_download_target(
    c: Config,
    fences: Seq<Fence>,
    config_dir: Seq<char>,
    target: Seq<char>,
) -> bool {
    match c.download_box_id {
        Some(id) => exists|at: Option<usize>| #[trigger]
            is_fence_with_id(fences, id, at) && target == (if at is Some
                && fences[at->0 as int].cfg.folder is Some {
                fences[at->0 as int].cfg.folder->0@
            } else {
                box_dir(config_dir)
            }),
        None => target == box_dir(config_dir),
    }
}

/// The folder made for downloads.
pub open spec fn box_dir(config_dir: Seq<char>) -> Seq<char> {
    join(join(config_dir, "boxes"@), "下载收纳箱"@)
}

/// See [`is_download_target`].
pub fn download_target(c: &Config, fences: &Vec<Fence>, config_dir: &str) -> (target: String)
    ensures
        is_download_target(*c, fences@, config_dir@, target@),
{
    match c.download_box_id {
        Some(id) => {
            let at = fence_with_id(fences, id);
            assert(is_fence_with_id(fences@, id, at));
            if let Some(i) = at {
                if let Some(dir) = &fences[i].cfg.folder {
                    return dir.clone();
                }
            }
            download_box_dir(config_dir)
        },
        None => download_box_dir(config_dir),
    }
}

// ---------- the box ----------

/// What is to be done for the box.
#[derive(Clone, Copy, Debug, PartialEq, Eq, Structural)]
pub enum BoxStep {
    /// It is there; whether the settings have to be saved for it.
    Ready { save: bool },
    /// A new fence has to be made for it.
    Create,
}

/// Whether the fence at `at` is the first with a window that shows the folder `dir`.
pub open spec fn is_fence_of_dir(fences: Seq<Fence>, dir: Seq<char>, at: Option<usize>) -> bool {
    match at {
        Some(i) => i < fences.len() && shows_dir(fences[i as int], dir) && forall|j: int|
            0 <= j < i ==> !shows_dir(#[trigger] fences[j], dir),
        None => forall|j: int| 0 <= j < fences.len() ==> !shows_dir(#[trigger] fences[j], dir),
    }
}

/// Whether a fence has a window and shows the folder `dir`.
pub open spec fn shows_dir(f: Fence, dir: Seq<char>) -> bool {
    f.valid && f.cfg.folder is Some && same_place(f.cfg.folder->0@, dir)
}

fn fence_of_dir(fences: &Vec<Fence>, dir: &str) -> (at: Option<usize>)
    ensures
        is_fence_of_dir(fences@, dir@, at),
{
    for i in 0..fences.len()
        invariant
            forall|j: int| 0 <= j < i ==> !shows_dir(#[trigger] fences@[j], dir@),
    {
        if fences[i].valid {
            if let Some(folder) = &fences[i].cfg.folder {
                if is_same_place(folder.as_str(), dir) {
                    return Some(i);
                }
            }
        }
    }
    None
}

/// The fences, with the one at `at` as the box for downloads.
pub open spec fn with_box(fences: Seq<Fence>, at: int) -> Seq<Fence> {
    fences.update(
        at,
        Fence { cfg: FenceCfg { kind: FenceKind::Download, ..fences[at].cfg }, ..fences[at] },
    )
}

/// Sees to the box for downloads: the fence that the settings name, else one that shows its folder.
/// Where there is neither, a new one has to be made.
pub fn ensure_download_box(g: &mut Global, config_dir: &str) -> (step: BoxStep)
    ensures
        exists|named: Option<usize>, showing: Option<usize>| #[trigger]
            are_boxes(*old(g), config_dir@, named, showing) && box_seen_to(
                *old(g),
                *final(g),
                step,
                first_of(named, showing),
                named,
            ),
{
    let dir = download_box_dir(config_dir);
    let named = match g.config.download_box_id {
        Some(id) => fence_with_id(&g.fences, id),
        None => None,
    };
    let showing = fence_of_dir(&g.fences, dir.as_str());
    assert(are_boxes(*g, config_dir@, named, showing));
    if let Some(i) = named {
        if g.fences[i].cfg.kind != FenceKind::Download {
            g.fences[i].cfg.kind = FenceKind::Download;
            sync_config(g);
            return BoxStep::Ready { save: true };
        }
        assert(with_box(old(g).fences@, i as int) =~= old(g).fences@);
        return BoxStep::Ready { save: false };
    }
    if let Some(i) = showing {
        let id: u32 = g.fences[i].cfg.id;
        g.fences[i].cfg.kind = FenceKind::Download;
        g.config.download_box_id = Some(id);
        sync_config(g);
        return BoxStep::Ready { save: true };
    }
    BoxStep::Create
}

/// Whether the settings name the fence at `named` as the box, and the first that shows its folder is
/// at `showing`.
pub open spec fn are_boxes(
    g: Global,
    config_dir: Seq<char>,
    named: Option<usize>,
    showing: Option<usize>,
) -> bool {
    &&& match g.config.download_box_id {
        Some(id) => is_fence_with_id(g.fences@, id, named),
        None => named is None,
    }
    &&& is_fence_of_dir(g.fences@, box_dir(config_dir), showing)
}

/// The first of two places that there is.
pub open spec fn first_of(a: Option<usize>, b: Option<usize>) -> Option<int> {
    match a {
        Some(i) => Some(i as int),
        None => match b {
            Some(i) => Some(i as int),
            None => None,
        },
    }
}

/// What [`ensure_download_box`] does where the box is the fence at `at`, which the settings name if
/// `named` is there.
pub open spec fn box_seen_to(
    before: Global,
    after: Global,
    step: BoxStep,
    at: Option<int>,
    named: Option<usize>,
) -> bool {
    match at {
        Some(i) => {
            let save = named is None || before.fences@[i].cfg.kind != FenceKind::Download;
            &&& step == BoxStep::Ready { save }
            &&& after.fences@ == with_box(before.fences@, i)
            &&& after.config.download_box_id == Some(before.fences@[i].cfg.id)
            &&& if save {
                is_synced(
                    Config { download_box_id: after.config.download_box_id, ..before.config },
                    after.config,
                    after.fences@,
                )
            } else {
                after.config == before.config
            }
            &&& after.next_id == before.next_id
            &&& after.zen == before.zen
            &&& after.watchers == before.watchers
        },
        None => step == BoxStep::Create && after == before,
    }
}

/// The box for downloads is the fence that the settings name; else the first one with a window that shows its
/// folder, which the settings then name. All other fences stay as they are. Where there is neither, nothing
/// changes and a new box is asked for.
pub proof fn the_box_for_downloads_is_found(
    before: Global,
    after: Global,
    step: BoxStep,
    config_dir: Seq<char>,
    named: Option<usize>,
    showing: Option<usize>,
    k: int,
)
    requires
        are_boxes(before, config_dir, named, showing),
        box_seen_to(before, after, step, first_of(named, showing), named),
        0 <= k < before.fences@.len(),
    ensures
        before.config.download_box_id is None && !(exists|j: int|
            0 <= j < before.fences@.len() && (#[trigger] before.fences@[j]).valid
                && before.fences@[j].cfg.folder is Some && same_place(
                before.fences@[j].cfg.folder->0@,
                box_dir(config_dir),
            )) ==> step == BoxStep::Create && after == before,
        step is Ready ==> after.config.download_box_id is Some && exists|j: int|
            0 <= j < after.fences@.len() && (#[trigger] after.fences@[j]).cfg.kind
                == FenceKind::Download && Some(after.fences@[j].cfg.id)
                == after.config.download_box_id,
        before.config.download_box_id is Some && before.fences@[k].valid && Some(
            before.fences@[k].cfg.id,
        ) == before.config.download_box_id ==> step is Ready && after.config.download_box_id
            == before.config.download_box_id,
        step is Ready && Some(before.fences@[k].cfg.id) != after.config.download_box_id
            ==> after.fences@[k] == before.fences@[k],
        after.fences@.len() == before.fences@.len(),
{
    let at = first_of(named, showing);
    if at is Some {
        let i = at->0;
        assert(after.fences@[i].cfg.kind == FenceKind::Download);
    }
    if showing is Some && named is None && before.config.download_box_id is None {
        let f = before.fences@[showing->0 as int];
        assert(shows_dir(f, box_dir(config_dir)));
    }
    if before.config.download_box_id is Some {
        assert(before.fences@[k] == before.fences@[k]);
    }
}

/// The settings of a new box for downloads, on a screen `screen_w` wide, at `dpi`.
pub fn download_box_cfg(config_dir: &str, screen_w: i32, dpi: u32) -> (c: FenceCfg)
    ensures
        c.id == 0,
        c.title@ == "下载收纳箱"@,
        c.kind == FenceKind::Download,
        c.folder is Some,
        c.folder->0@ == box_dir(config_dir@),
        c.x == crate::config::saturated(screen_w - at_dpi(320, dpi as int)),
        c.y == at_dpi(100, dpi as int),
        c.w == at_dpi(260, dpi as int),
        c.h == at_dpi(340, dpi as int),
        c.dpi == dpi,
        c.opacity == 700_000,
        c.icon == 32,
        c.pos_set is None,
{
    FenceCfg {
        id: 0,
        title: owned("下载收纳箱"),
        kind: FenceKind::Download,
        folder: Some(download_box_dir(config_dir)),
        x: left_of(screen_w, pixels(320, dpi)),
        y: pixels(100, dpi),
        w: pixels(260, dpi),
        h: pixels(340, dpi),
        dpi,
        opacity: 700_000,
        icon: 32,
        pos_set: None,
    }
}

/// `at - n`.
pub fn left_of(at: i32, n: i32) -> (x: i32)
    ensures
        x == crate::config::saturated(at - n),
{
    let x: i64 = at as i64 - n as i64;
    if x < i32::MIN as i64 {
        i32::MIN
    } else if x > i32::MAX as i64 {
        i32::MAX
    } else {
        x as i32
    }
}

// ---------- switches ----------

/// Switches the taking of downloads; whether that changed anything. What is in the folder of
/// downloads by then (`there`) is no news.
pub fn set_download_enabled(
    c: &mut Config,
    t: &mut DownloadTracker,
    enabled: bool,
    there: &Vec<String>,
) -> (changed: bool)
    requires
        old(t).wf(),
    ensures
        final(t).wf(),
        changed == (old(c).download_enabled != enabled),
        *final(c) == (Config { download_enabled: enabled, ..*old(c) }),
        final(t)@ == (if changed {
            Downloads { seen: set_of(views(there@)), pending: Map::empty() }
        } else {
            old(t)@
        }),
{
    if c.download_enabled == enabled {
        return false;
    }
    c.download_enabled = enabled;
    t.reset(there);
    true
}

/// Switches whether the box for downloads shows; whether that changed anything.
pub fn set_download_box_visible(c: &mut Config, visible: bool) -> (changed: bool)
    ensures
        changed == (old(c).download_box_visible != visible),
        *final(c) == (Config { download_box_visible: visible, ..*old(c) }),
{
    if c.download_box_visible == visible {
        return false;
    }
    c.download_box_visible = visible;
    true
}

/// Switches whether the box for downloads shows, while downloads are taken; whether that changed
/// anything.
pub fn toggle_download_box(c: &mut Config) -> (changed: bool)
    ensures
        changed == old(c).download_enabled,
        *final(c) == (if changed {
            Config { download_box_visible: !old(c).download_box_visible, ..*old(c) }
        } else {
            *old(c)
        }),
{
    if c.download_enabled {
        let visible: bool = !c.download_box_visible;
        set_download_box_visible(c, visible)
    } else {
        false
    }
}

} // verus!
