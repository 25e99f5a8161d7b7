//! The clipboard formats of a drag, and the bytes that go with them.

use crate::geometry::Point;
use crate::text::views;
use crate::utf16::{decoded, decoding_undoes_encoding, encode, encoded};
use crate::utils::{before_nul, lemma_before_nul};
use crate::watcher::{le32, le32_bytes};
use vstd::prelude::*;

verus! {

/// `CF_HDROP`: a list of files.
pub const CF_HDROP: u16 = 15;

/// `DVASPECT_CONTENT`.
pub const DVASPECT_CONTENT: u32 = 1;

/// `TYMED_HGLOBAL`.
pub const TYMED_HGLOBAL: u32 = 1;

/// `DATADIR_GET`: what a drag gives.
pub const DATADIR_GET: u32 = 1;

/// `DATADIR_SET`: what a drag takes back.
pub const DATADIR_SET: u32 = 2;

/// A format that a drag can be asked for (`FORMATETC`).
#[derive(Clone, Copy, Debug, PartialEq, Eq, Structural)]
pub struct Format {
    pub cf: u16,
    pub aspect: u32,
    pub lindex: i32,
    pub tymed: u32,
}

/// The format with number `cf`: its contents, in memory.
pub open spec fn contents_of(cf: u16) -> Format {
    Format { cf, aspect: DVASPECT_CONTENT, lindex: -1i32, tymed: TYMED_HGLOBAL }
}

/// See [`contents_of`].
pub fn contents_format(cf: u16) -> (f: Format)
    ensures
        f == contents_of(cf),
{
    Format { cf, aspect: DVASPECT_CONTENT, lindex: -1i32, tymed: TYMED_HGLOBAL }
}

/// The format of a list of files.
pub fn hdrop_format() -> (f: Format)
    ensures
        f == contents_of(CF_HDROP),
{
    contents_format(CF_HDROP)
}

/// Whether `f` asks for contents in memory.
pub open spec fn asks_contents(f: Format) -> bool {
    f.aspect == DVASPECT_CONTENT && f.lindex == -1 && f.tymed % 2 == 1
}

/// See [`asks_contents`].
pub fn is_contents_format(f: &Format) -> (yes: bool)
    ensures
        yes == asks_contents(*f),
{
    f.aspect == DVASPECT_CONTENT && f.lindex == -1 && f.tymed % 2 == 1
}

/// The formats of a drag, one after the other.
pub struct FileFormatEnum {
    pub pos: u32,
    pub formats: Vec<Format>,
}

impl FileFormatEnum {
    /// Every place in the list can be counted.
    pub open spec fn wf(&self) -> bool {
        self.formats@.len() <= u32::MAX
    }

    /// How many formats are left.
    pub open spec fn left(&self) -> int {
        if self.pos < self.formats@.len() {
            self.formats@.len() - self.pos
        } else {
            0
        }
    }

    /// How many of `celt` formats can still be had.
    pub open spec fn within_left(&self, celt: int) -> int {
        if celt < self.left() {
            celt
        } else {
            self.left()
        }
    }

    /// The formats from the first.
    pub fn new(formats: Vec<Format>) -> (e: FileFormatEnum)
        requires
            formats@.len() <= u32::MAX,
        ensures
            e.wf(),
            e.pos == 0,
            e.formats == formats,
    {
        FileFormatEnum { pos: 0, formats }
    }

    /// The next formats, at most `celt`; whether there were that many.
    pub fn next(&mut self, celt: u32) -> (out: (Vec<Format>, bool))
        requires
            old(self).wf(),
        ensures
            final(self).wf(),
            final(self).formats == old(self).formats,
            out.0@ == old(self).formats@.subrange(
                if old(self).left() == 0 {
                    old(self).formats@.len() as int
                } else {
                    old(self).pos as int
                },
                if old(self).left() == 0 {
                    old(self).formats@.len() as int
                } else {
                    old(self).pos + old(self).within_left(celt as int)
                },
            ),
            out.0@.len() == old(self).within_left(celt as int),
            final(self).pos == old(self).pos + out.0@.len(),
            out.1 == (out.0@.len() == celt),
    {
        let mut out: Vec<Format> = Vec::new();
        let mut n: u32 = 0;
        let ghost from = if self.left() == 0 {
            self.formats@.len() as int
        } else {
            self.pos as int
        };
        while n < celt && (self.pos as usize) < self.formats.len()
            invariant
                self.wf(),
                self.formats == old(self).formats,
                n <= celt,
                n <= old(self).left(),
                self.pos == old(self).pos + n,
                from == (if old(self).left() == 0 {
                    old(self).formats@.len() as int
                } else {
                    old(self).pos as int
                }),
                out@.len() == n,
                out@ == old(self).formats@.subrange(from, from + n),
            decreases celt - n,
        {
            out.push(self.formats[self.pos as usize]);
            self.pos = self.pos + 1;
            n = n + 1;
            assert(out@ =~= old(self).formats@.subrange(from, from + n));
        }
        (out, n == celt)
    }

    /// Passes over `celt` formats; whether there were that many.
    pub fn skip(&mut self, celt: u32) -> (all: bool)
        requires
            old(self).wf(),
        ensures
            final(self).wf(),
            final(self).formats == old(self).formats,
            final(self).pos == old(self).pos + old(self).within_left(celt as int),
            all == (old(self).within_left(celt as int) == celt),
    {
        let len: u64 = self.formats.len() as u64;
        let left: u64 = if (self.pos as u64) < len {
            len - self.pos as u64
        } else {
            0
        };
        if celt as u64 <= left {
            self.pos = self.pos + celt;
            true
        } else {
            self.pos = (self.pos as u64 + left) as u32;
            false
        }
    }

    /// Begins at the first format again.
    pub fn reset(&mut self)
        ensures
            final(self).pos == 0,
            final(self).formats == old(self).formats,
            old(self).wf() ==> final(self).wf(),
    {
        self.pos = 0;
    }

    /// Another enumeration of the same formats, at the same place.
    pub fn duplicate(&self) -> (e: FileFormatEnum)
        ensures
            e.pos == self.pos,
            e.formats@ == self.formats@,
    {
        let mut formats: Vec<Format> = Vec::new();
        for i in 0..self.formats.len()
            invariant
                formats@ == self.formats@.take(i as int),
        {
            formats.push(self.formats[i]);
            assert(formats@ =~= self.formats@.take(i + 1));
        }
        assert(formats@ =~= self.formats@);
        FileFormatEnum { pos: self.pos, formats }
    }
}

/// `units` as bytes, low byte first.
pub open spec fn unit_bytes(units: Seq<u16>) -> Seq<u8> {
    Seq::new(
        2 * units.len(),
        |i: int|
            if i % 2 == 0 {
                (units[i / 2] % 256) as u8
            } else {
                (units[i / 2] / 256) as u8
            },
    )
}

/// The paths of a list of files, each closed by a 0.
pub open spec fn path_units(paths: Seq<Seq<char>>) -> Seq<u16>
    decreases paths.len(),
{
    if paths.len() == 0 {
        Seq::empty()
    } else {
        path_units(paths.drop_last()) + encoded(paths.last()).push(0)
    }
}

/// A signed number as it lies in memory.
pub open spec fn word(n: int) -> Seq<u8> {
    le32_bytes(n % 0x1_0000_0000)
}

/// A list of files in memory (`DROPFILES`): where the paths begin, where the files are dropped and
/// whether that is a place on the screen, that the paths are wide, and the paths, closed by a 0.
pub open spec fn hdrop_block(paths: Seq<Seq<char>>, x: int, y: int, on_screen: bool) -> Seq<u8> {
    word(20) + word(x) + word(y) + word(
        if on_screen {
            1
        } else {
            0
        },
    ) + word(1) + unit_bytes(path_units(paths).push(0))
}

fn push_word(out: &mut Vec<u8>, n: i32)
    ensures
        final(out)@ == old(out)@ + word(n as int),
{
    let u: u64 = (n as i64 + 0x1_0000_0000) as u64 % 0x1_0000_0000;
    let ghost before = out@;
    out.push((u % 256) as u8);
    out.push((u / 256 % 256) as u8);
    out.push((u / 65536 % 256) as u8);
    out.push((u / 16777216 % 256) as u8);
    assert(u == n as int % 0x1_0000_0000);
    assert(out@ =~= before + word(n as int));
}

fn push_units(out: &mut Vec<u8>, units: &Vec<u16>)
    ensures
        final(out)@ == old(out)@ + unit_bytes(units@),
{
    let ghost before = out@;
    for i in 0..units.len()
        invariant
            out@ == before + unit_bytes(units@.take(i as int)),
    {
        let ghost now = out@;
        let u: u16 = units[i];
        out.push((u % 256) as u8);
        out.push((u / 256) as u8);
        assert(unit_bytes(units@.take(i + 1)) =~= unit_bytes(units@.take(i as int)).push(
            (u % 256) as u8,
        ).push((u / 256) as u8));
        assert(out@ =~= before + unit_bytes(units@.take(i + 1)));
    }
    assert(units@.take(units@.len() as int) =~= units@);
}

/// See [`hdrop_block`].
pub fn build_hdrop(paths: &Vec<String>, point: Point, on_screen: bool) -> (block: Vec<u8>)
    ensures
        block@ == hdrop_block(views(paths@), point.x as int, point.y as int, on_screen),
{
    let mut units: Vec<u16> = Vec::new();
    let ghost all = views(paths@);
    assert(all.take(0) =~= Seq::empty());
    for i in 0..paths.len()
        invariant
            all == views(paths@),
            units@ == path_units(all.take(i as int)),
    {
        let ghost before = units@;
        let mut path = encode(paths[i].as_str());
        path.push(0);
        proof {
            assert(all.take(i + 1).drop_last() =~= all.take(i as int));
            assert(all.take(i + 1).last() == all[i as int]);
            assert(all[i as int] == paths@[i as int]@);
        }
        units.append(&mut path);
    }
    assert(all.take(all.len() as int) =~= all);
    units.push(0);
    let mut block: Vec<u8> = Vec::new();
    push_word(&mut block, 20);
    push_word(&mut block, point.x);
    push_word(&mut block, point.y);
    push_word(
        &mut block,
        if on_screen {
            1
        } else {
            0
        },
    );
    push_word(&mut block, 1);
    push_units(&mut block, &units);
    assert(Seq::<u8>::empty() + word(20) =~= word(20));
    block
}

/// The place of each of `count` dragged things: first that of all of them together, on the screen,
/// then each relative to that, which is nought.
pub open spec fn offsets_block(count: int, x: int, y: int) -> Seq<u8>
    decreases count,
{
    if count <= 0 {
        word(x) + word(y)
    } else {
        offsets_block(count - 1, x, y) + word(0) + word(0)
    }
}

/// See [`offsets_block`]; nothing for nothing.
pub fn build_shell_offsets(path_count: usize, origin: Point) -> (block: Option<Vec<u8>>)
    ensures
        match block {
            Some(block) => path_count > 0 && block@ == offsets_block(
                path_count as int,
                origin.x as int,
                origin.y as int,
            ),
            None => path_count == 0,
        },
{
    if path_count == 0 {
        return None;
    }
    let mut block: Vec<u8> = Vec::new();
    push_word(&mut block, origin.x);
    assert(Seq::<u8>::empty() + word(origin.x as int) =~= word(origin.x as int));
    push_word(&mut block, origin.y);
    for i in 0..path_count
        invariant
            block@ == offsets_block(i as int, origin.x as int, origin.y as int),
    {
        push_word(&mut block, 0);
        push_word(&mut block, 0);
    }
    Some(block)
}

/// The paths in a list of files: each up to its 0, until one is empty.
pub open spec fn listed_paths(units: Seq<u16>) -> Seq<Seq<char>>
    decreases units.len(),
{
    let path = before_nul(units);
    if path.len() == 0 || path.len() >= units.len() {
        Seq::empty()
    } else {
        seq![decoded(path)] + listed_paths(units.skip(path.len() as int + 1))
    }
}

proof fn lemma_first_path(paths: Seq<Seq<char>>)
    requires
        paths.len() > 0,
    ensures
        path_units(paths) == encoded(paths[0]).push(0) + path_units(paths.skip(1)),
    decreases paths.len(),
{
    let front = paths.drop_last();
    if front.len() == 0 {
        assert(path_units(front) =~= Seq::empty());
        assert(path_units(paths.skip(1)) =~= Seq::empty());
        assert(path_units(paths) =~= encoded(paths[0]).push(0) + path_units(paths.skip(1)));
    } else {
        lemma_first_path(front);
        assert(front.skip(1) =~= paths.skip(1).drop_last());
        assert(path_units(paths) =~= encoded(paths[0]).push(0) + path_units(paths.skip(1)));
    }
}

/// The paths that are written into a list of files are the ones that are read out of it, where none is
/// empty and none holds a 0.
pub proof fn listed_paths_read_back(paths: Seq<Seq<char>>)
    requires
        forall|i: int|
            0 <= i < paths.len() ==> (#[trigger] paths[i]).len() > 0 && !paths[i].contains('\0'),
    ensures
        listed_paths(path_units(paths).push(0)) == paths,
    decreases paths.len(),
{
    let units = path_units(paths).push(0);
    if paths.len() == 0 {
        assert(units[0] == 0);
        assert(listed_paths(units) =~= paths);
    } else {
        let first = paths[0];
        let rest = paths.skip(1);
        let left = path_units(rest).push(0);
        lemma_first_path(paths);
        assert(units =~= encoded(first) + (seq![0u16] + left));
        lemma_before_nul(first, seq![0u16] + left);
        decoding_undoes_encoding(first);
        assert(encoded(first).len() > 0);
        assert(units.skip(encoded(first).len() as int + 1) =~= left);
        assert forall|i: int| 0 <= i < rest.len() implies (#[trigger] rest[i]).len() > 0
            && !rest[i].contains('\0') by {
            assert(rest[i] == paths[i + 1]);
        }
        listed_paths_read_back(rest);
        assert(paths =~= seq![first] + rest);
    }
}

proof fn a_word_reads_back(before: Seq<u8>, n: int, behind: Seq<u8>)
    ensures
        le32(before + word(n) + behind, before.len() as int) == n % 0x1_0000_0000,
        word(n).len() == 4,
{
    let b = before + word(n) + behind;
    let at = before.len() as int;
    let u = n % 0x1_0000_0000;
    assert(b[at] == (u % 256) as u8);
    assert(b[at + 1] == (u / 256 % 256) as u8);
    assert(b[at + 2] == (u / 65536 % 256) as u8);
    assert(b[at + 3] == (u / 16777216 % 256) as u8);
}

/// A list of files in memory can be read as the system reads it: the first number is where the paths
/// begin, the next two are the point, then whether that is on the screen, and that the paths are wide;
/// from there on each pair of bytes is a unit of the paths.
pub proof fn a_list_of_files_reads_back(
    paths: Seq<Seq<char>>,
    x: int,
    y: int,
    on_screen: bool,
    i: int,
)
    ensures
        ({
            let b = hdrop_block(paths, x, y, on_screen);
            let units = path_units(paths).push(0);
            &&& le32(b, 0) == 20
            &&& le32(b, 4) == x % 0x1_0000_0000
            &&& le32(b, 8) == y % 0x1_0000_0000
            &&& le32(b, 12) == if on_screen {
                1int
            } else {
                0
            }
            &&& le32(b, 16) == 1
            &&& b.len() == 20 + 2 * units.len()
            &&& 0 <= i < units.len() ==> b[20 + 2 * i] + 256 * b[21 + 2 * i] == units[i]
        }),
{
    let flag = if on_screen {
        1int
    } else {
        0
    };
    let units = path_units(paths).push(0);
    let tail = unit_bytes(units);
    let b = hdrop_block(paths, x, y, on_screen);
    let (p, q, r, s, w) = (word(20), word(x), word(y), word(flag), word(1));
    let e = Seq::<u8>::empty();
    assert(p.len() == 4 && q.len() == 4 && r.len() == 4 && s.len() == 4 && w.len() == 4);
    a_word_reads_back(e, 20, q + r + s + w + tail);
    a_word_reads_back(p, x, r + s + w + tail);
    a_word_reads_back(p + q, y, s + w + tail);
    a_word_reads_back(p + q + r, flag, w + tail);
    a_word_reads_back(p + q + r + s, 1, tail);
    assert(b =~= e + p + (q + r + s + w + tail));
    assert(b =~= p + q + (r + s + w + tail));
    assert(b =~= p + q + r + (s + w + tail));
    assert(b =~= p + q + r + s + (w + tail));
    assert(b =~= p + q + r + s + w + tail);
    if 0 <= i < units.len() {
        assert(b[20 + 2 * i] == tail[2 * i]);
        assert(b[21 + 2 * i] == tail[2 * i + 1]);
    }
}

/// The places of dragged things are that of all of them together, and for each of them nought.
pub proof fn each_dragged_thing_has_a_place(count: int, x: int, y: int, i: int)
    requires
        count >= 0,
    ensures
        ({
            let b = offsets_block(count, x, y);
            &&& b.len() == 8 * (count + 1)
            &&& le32(b, 0) == x % 0x1_0000_0000
            &&& le32(b, 4) == y % 0x1_0000_0000
            &&& 8 <= i < b.len() ==> b[i] == 0
        }),
    decreases count,
{
    let b = offsets_block(count, x, y);
    let e = Seq::<u8>::empty();
    if count == 0 {
        a_word_reads_back(e, x, word(y));
        a_word_reads_back(word(x), y, e);
        assert(b =~= e + word(x) + word(y));
        assert(b =~= word(x) + word(y) + e);
    } else {
        each_dragged_thing_has_a_place(count - 1, x, y, i);
        let before = offsets_block(count - 1, x, y);
        assert(word(0).len() == 4);
        assert(b =~= before + (word(0) + word(0)));
        assert(forall|k: int| 0 <= k < 8 ==> b[k] == before[k]);
        if i >= before.len() && i < b.len() {
            assert(b[i] == (word(0) + word(0))[i - before.len()]);
        }
    }
}

} // verus!
