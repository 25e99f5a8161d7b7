//! Moving and copying files: under which name, in which steps, and what is undone when a step fails.

use crate::config::opt_view;
use crate::text::{decimal, decimal_reads_back, owned, push_decimal, views};
use crate::winpath::{
    a_name_splits_at_its_last_dot, a_name_without_a_dot_has_no_extension, extension, extension_of,
    file_name, file_name_of, file_stem, file_stem_of, is_plain, is_separator, is_verbatim, join,
    joined, names_tell_the_files_of_a_folder_apart, prefix_len, same_place, takes_names,
};
use vstd::prelude::*;
use vstd::string::*;

verus! {

// ---------- names ----------

/// How many numbered names are tried.
pub const NUMBERED_NAMES: u32 = 999;

/// The part of a name before its number.
pub open spec fn stem_of(name: Seq<char>) -> Seq<char> {
    match file_stem(name) {
        Some(stem) => stem,
        None => "file"@,
    }
}

/// The part of a name behind its number.
pub open spec fn ending_of(name: Seq<char>) -> Seq<char> {
    match extension(name) {
        Some(ext) => "."@ + ext,
        None => Seq::empty(),
    }
}

/// `name` with a number.
pub open spec fn numbered(name: Seq<char>, n: nat) -> Seq<char> {
    stem_of(name) + " ("@ + decimal(n) + ")"@ + ending_of(name)
}

/// The `i`th place to try for `name`: the name itself, then numbered from 1 on, at last with the time
/// (`secs`, in seconds) for a number.
pub open spec fn candidate(dir: Seq<char>, name: Seq<char>, i: int, secs: u64) -> Seq<char> {
    if i <= 0 {
        join(dir, name)
    } else if i <= NUMBERED_NAMES {
        join(dir, numbered(name, i as nat))
    } else {
        join(dir, numbered(name, secs as nat))
    }
}

/// The file `stem.ext` gets its number behind the stem and keeps its extension.
pub proof fn a_number_stands_before_the_extension(stem: Seq<char>, ext: Seq<char>, n: nat)
    requires
        is_plain(stem + seq!['.'] + ext),
        stem.len() > 0,
        !ext.contains('.'),
    ensures
        numbered(stem + seq!['.'] + ext, n) == stem + seq![' ', '('] + decimal(n) + seq![')', '.']
            + ext,
{
    let e = Seq::<char>::empty();
    let name = stem + seq!['.'] + ext;
    a_name_splits_at_its_last_dot(e, stem, ext);
    bare_name(name);
    reveal_strlit(" (");
    reveal_strlit(")");
    reveal_strlit(".");
    assert(numbered(name, n) =~= stem + seq![' ', '('] + decimal(n) + seq![')', '.'] + ext);
}

/// A name without a dot gets its number behind it.
pub proof fn a_number_stands_at_the_end(name: Seq<char>, n: nat)
    requires
        is_plain(name),
        !name.contains('.'),
    ensures
        numbered(name, n) == name + seq![' ', '('] + decimal(n) + seq![')'],
{
    let e = Seq::<char>::empty();
    assert forall|i: int| 0 < i < name.len() implies #[trigger] name[i] != '.' by {
        assert(name.contains(name[i]));
    }
    a_name_without_a_dot_has_no_extension(e, name);
    bare_name(name);
    reveal_strlit(" (");
    reveal_strlit(")");
    assert(numbered(name, n) =~= name + seq![' ', '('] + decimal(n) + seq![')']);
}

proof fn bare_name(name: Seq<char>)
    requires
        is_plain(name),
    ensures
        join(Seq::empty(), name) == name,
{
    let e = Seq::<char>::empty();
    assert(!is_separator(name[0]));
    if name.len() >= 2 {
        assert(name[1] != ':');
    }
    assert(prefix_len(name) == 0);
    assert(e + name =~= name);
}

/// No two numbers give the same name.
pub proof fn numbers_give_different_names(name: Seq<char>, n: nat, k: nat)
    requires
        n != k,
    ensures
        numbered(name, n) != numbered(name, k),
{
    let (a, b) = (numbered(name, n), numbered(name, k));
    if a == b {
        decimal_reads_back(n);
        decimal_reads_back(k);
        let from = stem_of(name).len() + " ("@.len();
        let behind = ")"@.len() + ending_of(name).len();
        assert(a.len() == from + decimal(n).len() + behind);
        assert(b.len() == from + decimal(k).len() + behind);
        assert(a.subrange(from as int, a.len() - behind) =~= decimal(n));
        assert(b.subrange(from as int, b.len() - behind) =~= decimal(k));
    }
}

/// The first place to try is the name itself, in the folder; the next are the name with the numbers from 1
/// on; and no two of these are the same file.
pub proof fn each_try_is_another_name(
    dir: Seq<char>,
    name: Seq<char>,
    i: int,
    j: int,
    secs: u64,
)
    requires
        takes_names(dir),
        !is_verbatim(dir),
        is_plain(name),
        1 <= i < j <= 999,
        is_plain(numbered(name, i as nat)),
        is_plain(numbered(name, j as nat)),
    ensures
        candidate(dir, name, 0, secs) == join(dir, name),
        candidate(dir, name, i, secs) == join(dir, numbered(name, i as nat)),
        !same_place(candidate(dir, name, i, secs), candidate(dir, name, j, secs)),
        candidate(dir, name, 1000, secs) == join(dir, numbered(name, secs as nat)),
{
    numbers_give_different_names(name, i as nat, j as nat);
    names_tell_the_files_of_a_folder_apart(
        dir,
        dir,
        numbered(name, i as nat),
        numbered(name, j as nat),
    );
}

/// Whether `free` can have answered `answer` for `path`.
pub open spec fn answered<F: Fn(&String) -> bool>(free: F, path: Seq<char>, answer: bool) -> bool {
    exists|p: String| p@ == path && #[trigger] free.ensures((&p,), answer)
}

fn numbered_name(stem: &str, n: u64, ending: &str) -> (out: String)
    ensures
        out@ == stem@ + " ("@ + decimal(n as nat) + ")"@ + ending@,
{
    let mut out = owned(stem);
    out.append(" (");
    push_decimal(&mut out, n as u128);
    out.append(")");
    out.append(ending);
    out
}

/// A place in `dir` for `name`: the first that `free` says is free. Where even the last numbered name
/// is taken, the time stands for the number, and nobody is asked.
pub fn unique_dest<F: Fn(&String) -> bool>(dir: &str, name: &str, free: F, secs: u64) -> (dest: String)
    requires
        forall|p: &String| #[trigger] free.requires((p,)),
    ensures
        exists|i: int|
            {
                &&& 0 <= i <= NUMBERED_NAMES + 1
                &&& dest@ == #[trigger] candidate(dir@, name@, i, secs)
                &&& i <= NUMBERED_NAMES ==> answered(free, dest@, true)
                &&& forall|j: int|
                    0 <= j < i ==> answered(
                        free,
                        #[trigger] candidate(dir@, name@, j, secs),
                        false,
                    )
            },
{
    let first = joined(dir, name);
    assert(first@ == candidate(dir@, name@, 0, secs));
    let ghost g = first;
    if free(&first) {
        assert(answered(free, g@, true));
        return first;
    }
    assert(answered(free, g@, false));
    let stem = match file_stem_of(name) {
        Some(stem) => stem,
        None => owned("file"),
    };
    let ending = match extension_of(name) {
        Some(ext) => {
            let mut ending = owned(".");
            ending.append(ext.as_str());
            ending
        },
        None => String::new(),
    };
    assert(ending@ =~= ending_of(name@));
    let mut i: u32 = 1;
    while i <= NUMBERED_NAMES
        invariant
            1 <= i <= NUMBERED_NAMES + 1,
            forall|p: &String| #[trigger] free.requires((p,)),
            stem@ == stem_of(name@),
            ending@ == ending_of(name@),
            forall|j: int|
                0 <= j < i ==> answered(free, #[trigger] candidate(dir@, name@, j, secs), false),
        decreases NUMBERED_NAMES + 1 - i,
    {
        let next = joined(dir, numbered_name(stem.as_str(), i as u64, ending.as_str()).as_str());
        assert(next@ == candidate(dir@, name@, i as int, secs));
        let ghost g = next;
        if free(&next) {
            assert(answered(free, g@, true));
            return next;
        }
        assert(answered(free, g@, false));
        i += 1;
    }
    let last = joined(dir, numbered_name(stem.as_str(), secs, ending.as_str()).as_str());
    assert(last@ == candidate(dir@, name@, i as int, secs));
    last
}

/// The name under which `src` is moved or copied.
pub fn transfer_name(src: &str) -> (name: Result<String, String>)
    ensures
        match name {
            Ok(name) => file_name(src@) == Some(name@),
            Err(e) => file_name(src@) is None && e@ == "no file name"@,
        },
{
    match file_name_of(src) {
        Some(name) => Ok(name),
        None => Err(owned("no file name")),
    }
}

// ---------- links ----------

/// What stands at a path, links not followed.
#[derive(Clone, Copy, Debug, PartialEq, Eq, Structural)]
pub enum SourceKind {
    Link,
    Folder,
    File,
}

/// Why a link is not followed.
pub open spec fn link_text(path: Seq<char>) -> Seq<char> {
    "检测到文件系统链接（符号链接、目录联接等），为避免跟随到源目录树之外，已停止："@
        + path
}

/// Why what stands at `path` is not copied, if it is not: it could not be looked at, or is a link.
pub open spec fn refusal(path: Seq<char>, error: Option<Seq<char>>, kind: SourceKind) -> Option<
    Seq<char>,
> {
    match error {
        Some(e) => Some(e),
        None => if kind == SourceKind::Link {
            Some(link_text(path))
        } else {
            None
        },
    }
}

/// See [`refusal`].
pub fn source_without_link(path: &str, error: Option<String>, kind: SourceKind) -> (refused: Option<
    String,
>)
    ensures
        opt_view(refused) == refusal(path@, opt_view(error), kind),
{
    match error {
        Some(e) => Some(e),
        None => if kind == SourceKind::Link {
            let mut e = owned(
                "检测到文件系统链接（符号链接、目录联接等），为避免跟随到源目录树之外，已停止：",
            );
            e.append(path);
            Some(e)
        } else {
            None
        },
    }
}

// ---------- moving ----------

/// The step of a move.
#[derive(Clone, Copy, Debug, PartialEq, Eq, Structural)]
pub enum MoveStage {
    /// Rename the source to the target, replacing nothing.
    Rename,
    /// Look at what the source is.
    InspectToMove,
    /// Look at it again, right before it is copied.
    InspectToCopy,
    /// Copy the source to a target that is created with it.
    Copy,
    /// Remove the source, which was copied.
    RemoveSource,
    /// Remove a target that was created and not filled.
    RemovePartial,
    /// Remove the copy, as the source could not be removed.
    RemoveCopy,
    Moved,
    Refused,
}

/// What came of a step.
pub struct StepOutcome {
    /// Why it failed, if it did.
    pub error: Option<String>,
    /// Whether a copy that failed had created its target.
    pub created: bool,
    /// What was seen.
    pub kind: SourceKind,
}

/// A move under way.
pub struct MoveJob {
    pub src: String,
    pub dest: String,
    pub stage: MoveStage,
    /// Why the source could not be renamed.
    pub rename_error: String,
    /// What went wrong.
    pub error: String,
}

/// Where a move stands.
pub struct MoveState {
    pub src: Seq<char>,
    pub stage: MoveStage,
    pub rename_error: Seq<char>,
    pub error: Seq<char>,
}

pub open spec fn refused_move(s: MoveState, error: Seq<char>) -> MoveState {
    MoveState { stage: MoveStage::Refused, error, ..s }
}

/// The beginning of each error behind a failed renaming.
pub open spec fn after_rename(s: MoveState) -> Seq<char> {
    "重命名失败："@ + s.rename_error
}

/// The next step of a move.
pub open spec fn move_after(
    s: MoveState,
    error: Option<Seq<char>>,
    created: bool,
    kind: SourceKind,
) -> MoveState {
    match s.stage {
        MoveStage::Rename => match error {
            None => MoveState { stage: MoveStage::Moved, ..s },
            Some(e) => MoveState { stage: MoveStage::InspectToMove, rename_error: e, ..s },
        },
        MoveStage::InspectToMove => match refusal(s.src, error, kind) {
            Some(e) => refused_move(s, after_rename(s) + "；无法执行跨磁盘移动："@ + e),
            None => if kind == SourceKind::Folder {
                refused_move(
                    s,
                    "无法移动文件夹："@ + s.rename_error
                        + "；暂不支持跨磁盘移动文件夹"@,
                )
            } else {
                MoveState { stage: MoveStage::InspectToCopy, ..s }
            },
        },
        MoveStage::InspectToCopy => match refusal(s.src, error, kind) {
            Some(e) => refused_move(s, after_rename(s) + "；无法执行跨磁盘复制："@ + e),
            None => MoveState { stage: MoveStage::Copy, ..s },
        },
        MoveStage::Copy => match error {
            None => MoveState { stage: MoveStage::RemoveSource, ..s },
            Some(e) => if created {
                MoveState { stage: MoveStage::RemovePartial, error: e, ..s }
            } else {
                refused_move(s, after_rename(s) + "；复制失败："@ + e)
            },
        },
        MoveStage::RemovePartial => refused_move(s, after_rename(s) + "；复制失败："@ + s.error),
        MoveStage::RemoveSource => match error {
            None => MoveState { stage: MoveStage::Moved, ..s },
            Some(e) => MoveState { stage: MoveStage::RemoveCopy, error: e, ..s },
        },
        MoveStage::RemoveCopy => match error {
            None => refused_move(
                s,
                after_rename(s) + "；复制完成但无法删除源文件："@ + s.error
                    + "；已撤销目标副本"@,
            ),
            Some(e) => refused_move(
                s,
                after_rename(s) + "；复制完成但无法删除源文件："@ + s.error
                    + "；目标副本也无法回滚："@ + e,
            ),
        },
        MoveStage::Moved => s,
        MoveStage::Refused => s,
    }
}

impl MoveJob {
    pub open spec fn state(&self) -> MoveState {
        MoveState {
            src: self.src@,
            stage: self.stage,
            rename_error: self.rename_error@,
            error: self.error@,
        }
    }

    /// A move that begins with a renaming.
    pub fn new(src: String, dest: String) -> (job: MoveJob)
        ensures
            job.src == src,
            job.dest == dest,
            job.stage == MoveStage::Rename,
            job.rename_error@ == ""@,
            job.error@ == ""@,
    {
        MoveJob {
            src,
            dest,
            stage: MoveStage::Rename,
            rename_error: owned(""),
            error: owned(""),
        }
    }

    /// A move between volumes, behind a renaming that failed.
    pub fn copy_then_remove(src: String, dest: String, rename_error: String) -> (job: MoveJob)
        ensures
            job.src == src,
            job.dest == dest,
            job.stage == MoveStage::InspectToCopy,
            job.rename_error == rename_error,
            job.error@ == ""@,
    {
        MoveJob { src, dest, stage: MoveStage::InspectToCopy, rename_error, error: owned("") }
    }

    fn after_rename_text(&self) -> (out: String)
        ensures
            out@ == after_rename(self.state()),
    {
        let mut out = owned("重命名失败：");
        out.append(self.rename_error.as_str());
        out
    }

    fn refuse(&mut self, error: String)
        ensures
            final(self).state() == refused_move(old(self).state(), error@),
            final(self).dest == old(self).dest,
    {
        self.error = error;
        self.stage = MoveStage::Refused;
    }

    /// Goes on with what came of the present step.
    pub fn advance(&mut self, outcome: StepOutcome)
        ensures
            final(self).dest == old(self).dest,
            final(self).state() == move_after(
                old(self).state(),
                opt_view(outcome.error),
                outcome.created,
                outcome.kind,
            ),
    {
        match self.stage {
            MoveStage::Rename => match outcome.error {
                None => {
                    self.stage = MoveStage::Moved;
                },
                Some(e) => {
                    self.rename_error = e;
                    self.stage = MoveStage::InspectToMove;
                },
            },
            MoveStage::InspectToMove => {
                match source_without_link(self.src.as_str(), outcome.error, outcome.kind) {
                    Some(e) => {
                        let mut text = self.after_rename_text();
                        text.append("；无法执行跨磁盘移动：");
                        text.append(e.as_str());
                        self.refuse(text);
                    },
                    None => if outcome.kind == SourceKind::Folder {
                        let mut text = owned("无法移动文件夹：");
                        text.append(self.rename_error.as_str());
                        text.append("；暂不支持跨磁盘移动文件夹");
                        self.refuse(text);
                    } else {
                        self.stage = MoveStage::InspectToCopy;
                    },
                }
            },
            MoveStage::InspectToCopy => {
                match source_without_link(self.src.as_str(), outcome.error, outcome.kind) {
                    Some(e) => {
                        let mut text = self.after_rename_text();
                        text.append("；无法执行跨磁盘复制：");
                        text.append(e.as_str());
                        self.refuse(text);
                    },
                    None => {
                        self.stage = MoveStage::Copy;
                    },
                }
            },
            MoveStage::Copy => match outcome.error {
                None => {
                    self.stage = MoveStage::RemoveSource;
                },
                Some(e) => if outcome.created {
                    self.error = e;
                    self.stage = MoveStage::RemovePartial;
                } else {
                    let mut text = self.after_rename_text();
                    text.append("；复制失败：");
                    text.append(e.as_str());
                    self.refuse(text);
                },
            },
            MoveStage::RemovePartial => {
                let mut text = self.after_rename_text();
                text.append("；复制失败：");
                text.append(self.error.as_str());
                self.refuse(text);
            },
            MoveStage::RemoveSource => match outcome.error {
                None => {
                    self.stage = MoveStage::Moved;
                },
                Some(e) => {
                    self.error = e;
                    self.stage = MoveStage::RemoveCopy;
                },
            },
            MoveStage::RemoveCopy => {
                let mut text = self.after_rename_text();
                text.append("；复制完成但无法删除源文件：");
                text.append(self.error.as_str());
                match outcome.error {
                    None => {
                        text.append("；已撤销目标副本");
                    },
                    Some(e) => {
                        text.append("；目标副本也无法回滚：");
                        text.append(e.as_str());
                    },
                }
                self.refuse(text);
            },
            MoveStage::Moved => {},
            MoveStage::Refused => {},
        }
    }
}

/// What stands at the target.
pub enum Target {
    Free,
    /// What the move put there.
    Ours,
    /// What something else put there.
    Foreign,
}

/// What stands at the source and at the target.
pub struct Places {
    pub source: bool,
    pub target: Target,
}

/// What came of a step, over plain values.
pub struct Outcome {
    pub error: Option<Seq<char>>,
    pub created: bool,
    pub kind: SourceKind,
}

/// A run of a move.
pub struct MoveRun {
    pub state: MoveState,
    pub places: Places,
    /// Whether each removal of the target was done.
    pub cleaned: bool,
}

/// Whether a step can end in `o` where things stand as they do: a rename replaces nothing, and a copy
/// creates a target only where there is none.
pub open spec fn move_possible(run: MoveRun, o: Outcome) -> bool {
    let takes = match run.state.stage {
        MoveStage::Rename => o.error is None,
        MoveStage::Copy => o.error is None || o.created,
        _ => false,
    };
    takes ==> run.places.target == Target::Free
}

/// What a step does at the source and at the target.
pub open spec fn move_effect(places: Places, stage: MoveStage, o: Outcome) -> Places {
    match stage {
        MoveStage::Rename => if o.error is None {
            Places { source: false, target: Target::Ours }
        } else {
            places
        },
        MoveStage::Copy => if o.error is None || o.created {
            Places { target: Target::Ours, ..places }
        } else {
            places
        },
        MoveStage::RemoveSource => if o.error is None {
            Places { source: false, ..places }
        } else {
            places
        },
        MoveStage::RemovePartial | MoveStage::RemoveCopy => if o.error is None {
            Places { target: Target::Free, ..places }
        } else {
            places
        },
        _ => places,
    }
}

/// A step of a move, with what it does.
pub open spec fn move_step(run: MoveRun, o: Outcome) -> MoveRun {
    MoveRun {
        state: move_after(run.state, o.error, o.created, o.kind),
        places: move_effect(run.places, run.state.stage, o),
        cleaned: run.cleaned && ((run.state.stage == MoveStage::RemovePartial || run.state.stage
            == MoveStage::RemoveCopy) ==> o.error is None),
    }
}

/// The steps of a move, one after the other.
pub open spec fn move_run(start: MoveRun, os: Seq<Outcome>) -> MoveRun
    decreases os.len(),
{
    if os.len() == 0 {
        start
    } else {
        move_step(move_run(start, os.drop_last()), os.last())
    }
}

/// Whether each step of a run can end as it does.
pub open spec fn move_run_possible(start: MoveRun, os: Seq<Outcome>) -> bool
    decreases os.len(),
{
    os.len() == 0 || (move_run_possible(start, os.drop_last()) && move_possible(
        move_run(start, os.drop_last()),
        os.last(),
    ))
}

spec fn move_invariant(run: MoveRun, target: Target) -> bool {
    match run.state.stage {
        MoveStage::Rename
        | MoveStage::InspectToMove
        | MoveStage::InspectToCopy
        | MoveStage::Copy => run.places.source && run.places.target == target && run.cleaned,
        MoveStage::RemoveSource | MoveStage::RemovePartial | MoveStage::RemoveCopy => {
            run.places.source && run.places.target == Target::Ours && target == Target::Free
                && run.cleaned
        },
        MoveStage::Moved => !run.places.source && run.places.target == Target::Ours && target
            == Target::Free,
        MoveStage::Refused => run.places.source && (run.places.target == target || (target
            == Target::Free && !run.cleaned)),
    }
}

spec fn move_rank(stage: MoveStage) -> int {
    match stage {
        MoveStage::Rename => 0,
        MoveStage::InspectToMove => 1,
        MoveStage::InspectToCopy => 2,
        MoveStage::Copy => 3,
        MoveStage::RemoveSource | MoveStage::RemovePartial => 4,
        MoveStage::RemoveCopy => 5,
        MoveStage::Moved | MoveStage::Refused => 6,
    }
}

proof fn lemma_move_run(start: MoveRun, os: Seq<Outcome>)
    requires
        start.state.stage == MoveStage::Rename || start.state.stage == MoveStage::InspectToCopy,
        start.places.source,
        start.cleaned,
        move_run_possible(start, os),
    ensures
        move_invariant(move_run(start, os), start.places.target),
        move_rank(move_run(start, os).state.stage) >= os.len() || move_rank(
            move_run(start, os).state.stage,
        ) == 6,
    decreases os.len(),
{
    if os.len() > 0 {
        lemma_move_run(start, os.drop_last());
    }
}

/// However the steps of a move end, it comes to its end after at most six of them. A move that is done
/// has left the source and put the target in place. A move that is refused leaves the source where it
/// was, and no target behind, unless it could not remove it. A target that it did not create stays as
/// it is throughout: nothing is ever overwritten.
pub proof fn a_move_is_done_or_undone(start: MoveRun, os: Seq<Outcome>)
    requires
        start.state.stage == MoveStage::Rename || start.state.stage == MoveStage::InspectToCopy,
        start.places.source,
        start.cleaned,
        move_run_possible(start, os),
    ensures
        ({
            let end = move_run(start, os);
            &&& os.len() >= 6 ==> end.state.stage == MoveStage::Moved || end.state.stage
                == MoveStage::Refused
            &&& end.state.stage == MoveStage::Moved ==> !end.places.source && end.places.target
                == Target::Ours
            &&& end.state.stage == MoveStage::Refused ==> end.places.source
            &&& start.places.target == Target::Foreign ==> end.places.target == Target::Foreign
            &&& end.state.stage == MoveStage::Refused && end.cleaned ==> end.places.target
                == start.places.target
        }),
{
    lemma_move_run(start, os);
}

/// Between volumes only a file is moved, and only by copying it whole before it is removed: a copy begins
/// right behind a look that showed no link, that look follows one that showed a file (or begins the move),
/// and the source is removed only behind a copy that was done.
pub proof fn a_move_between_volumes_copies_a_file(
    s: MoveState,
    error: Option<Seq<char>>,
    created: bool,
    kind: SourceKind,
)
    requires
        s.stage != MoveStage::Moved,
        s.stage != MoveStage::Refused,
    ensures
        ({
            let next = move_after(s, error, created, kind).stage;
            &&& next == MoveStage::Moved <==> error is None && (s.stage == MoveStage::Rename
                || s.stage == MoveStage::RemoveSource)
            &&& next == MoveStage::RemoveSource <==> error is None && s.stage == MoveStage::Copy
            &&& next == MoveStage::Copy <==> error is None && kind != SourceKind::Link && s.stage
                == MoveStage::InspectToCopy
            &&& next == MoveStage::InspectToCopy <==> error is None && kind == SourceKind::File
                && s.stage == MoveStage::InspectToMove
            &&& next == MoveStage::InspectToMove <==> error is Some && s.stage == MoveStage::Rename
            &&& next == MoveStage::RemoveCopy <==> error is Some && s.stage
                == MoveStage::RemoveSource
        }),
{
}

// ---------- copying ----------

/// The step of a copy.
#[derive(Clone, Copy, Debug, PartialEq, Eq, Structural)]
pub enum CopyStage {
    /// Look at what is to be copied.
    Inspect,
    /// Look at a folder again, right before it is copied.
    InspectFolder,
    /// Create the target folder.
    CreateFolder,
    /// List the source folder.
    ReadFolder,
    /// Look at what stands in the folder.
    InspectEntry,
    /// Look at a file again, right before it is copied.
    InspectFile,
    /// Copy the file to a target that is created with it.
    CopyFile,
    /// Remove a target file that was created and not filled.
    RemoveFile,
    /// Give the target folder the permissions of the source.
    SetPermissions,
    /// Remove a target folder that was created and not filled.
    RemoveTree,
    Copied,
    Refused,
}

/// A folder under way.
pub struct Folder {
    pub src: String,
    pub dest: String,
    pub names: Vec<String>,
    /// How many of the names were begun.
    pub begun: usize,
    /// Why the list of names broke off, if it did.
    pub broken: Option<String>,
}

/// A folder under way, over plain values.
pub struct FolderState {
    pub src: Seq<char>,
    pub dest: Seq<char>,
    /// The names that were not begun.
    pub left: Seq<Seq<char>>,
    pub broken: Option<Seq<char>>,
}

impl Folder {
    pub open spec fn state(&self) -> FolderState {
        FolderState {
            src: self.src@,
            dest: self.dest@,
            left: views(self.names@).skip(self.begun as int),
            broken: opt_view(self.broken),
        }
    }

    pub open spec fn wf(&self) -> bool {
        self.begun <= self.names@.len()
    }
}

/// What came of a step of a copy.
pub struct CopyOutcome {
    /// Why it failed, if it did.
    pub error: Option<String>,
    /// Whether a copy that failed had created its target.
    pub created: bool,
    /// What was seen.
    pub kind: SourceKind,
    /// The names in a folder.
    pub names: Vec<String>,
    /// Why their list broke off, if it did.
    pub broken: Option<String>,
}

/// What came of a step of a copy, over plain values.
pub struct CopyEvent {
    pub error: Option<Seq<char>>,
    pub created: bool,
    pub kind: SourceKind,
    pub names: Seq<Seq<char>>,
    pub broken: Option<Seq<char>>,
}

impl CopyOutcome {
    pub open spec fn event(&self) -> CopyEvent {
        CopyEvent {
            error: opt_view(self.error),
            created: self.created,
            kind: self.kind,
            names: views(self.names@),
            broken: opt_view(self.broken),
        }
    }
}

/// A copy under way.
pub struct CopyJob {
    /// The folders under way, the outermost first.
    pub folders: Vec<Folder>,
    pub stage: CopyStage,
    /// What the present step reads.
    pub src: String,
    /// What it makes or removes.
    pub dest: String,
    /// What went wrong.
    pub error: String,
}

/// Where a copy stands.
pub struct CopyState {
    pub folders: Seq<FolderState>,
    pub stage: CopyStage,
    pub src: Seq<char>,
    pub dest: Seq<char>,
    pub error: Seq<char>,
}

/// A copy that goes wrong: the folder under way is removed, and with none under way that is the end.
pub open spec fn copy_failed(s: CopyState, error: Seq<char>) -> CopyState {
    if s.folders.len() == 0 {
        CopyState { stage: CopyStage::Refused, error, ..s }
    } else {
        CopyState {
            stage: CopyStage::RemoveTree,
            src: s.folders.last().src,
            dest: s.folders.last().dest,
            error,
            ..s
        }
    }
}

/// A copy that goes on behind something that was copied: with the next name in the folder under way,
/// or with its permissions if there is none; with no folder under way that is the end.
pub open spec fn copy_goes_on(s: CopyState) -> CopyState {
    if s.folders.len() == 0 {
        CopyState { stage: CopyStage::Copied, ..s }
    } else {
        let f = s.folders.last();
        if f.left.len() > 0 {
            CopyState {
                folders: s.folders.drop_last().push(FolderState { left: f.left.skip(1), ..f }),
                stage: CopyStage::InspectEntry,
                src: join(f.src, f.left[0]),
                dest: join(f.dest, f.left[0]),
                ..s
            }
        } else {
            match f.broken {
                Some(e) => copy_failed(s, e),
                None => CopyState {
                    stage: CopyStage::SetPermissions,
                    src: f.src,
                    dest: f.dest,
                    ..s
                },
            }
        }
    }
}

/// The next step of a copy.
pub open spec fn copy_after(s: CopyState, o: CopyEvent) -> CopyState {
    match s.stage {
        CopyStage::Inspect | CopyStage::InspectEntry => match refusal(s.src, o.error, o.kind) {
            Some(e) => copy_failed(s, e),
            None => if o.kind == SourceKind::Folder {
                CopyState { stage: CopyStage::InspectFolder, ..s }
            } else {
                CopyState { stage: CopyStage::InspectFile, ..s }
            },
        },
        CopyStage::InspectFolder => match refusal(s.src, o.error, o.kind) {
            Some(e) => copy_failed(s, e),
            None => CopyState { stage: CopyStage::CreateFolder, ..s },
        },
        CopyStage::CreateFolder => match o.error {
            Some(e) => copy_failed(s, e),
            None => CopyState {
                folders: s.folders.push(
                    FolderState { src: s.src, dest: s.dest, left: Seq::empty(), broken: None },
                ),
                stage: CopyStage::ReadFolder,
                ..s
            },
        },
        CopyStage::ReadFolder => match o.error {
            Some(e) => copy_failed(s, e),
            None => copy_goes_on(
                CopyState {
                    folders: if s.folders.len() == 0 {
                        s.folders
                    } else {
                        s.folders.drop_last().push(
                            FolderState { left: o.names, broken: o.broken, ..s.folders.last() },
                        )
                    },
                    ..s
                },
            ),
        },
        CopyStage::InspectFile => match refusal(s.src, o.error, o.kind) {
            Some(e) => copy_failed(s, e),
            None => CopyState { stage: CopyStage::CopyFile, ..s },
        },
        CopyStage::CopyFile => match o.error {
            Some(e) => if o.created {
                CopyState { stage: CopyStage::RemoveFile, error: e, ..s }
            } else {
                copy_failed(s, e)
            },
            None => copy_goes_on(s),
        },
        CopyStage::RemoveFile => match o.error {
            Some(e) => copy_failed(
                s,
                s.error + "；无法清理本次创建的目标文件："@ + e,
            ),
            None => copy_failed(s, s.error),
        },
        CopyStage::SetPermissions => match o.error {
            Some(e) => copy_failed(s, e),
            None => copy_goes_on(without_folder(s)),
        },
        CopyStage::RemoveTree => match o.error {
            Some(e) => copy_failed(
                without_folder(s),
                s.error + "；无法清理本次创建的目标目录："@ + e,
            ),
            None => copy_failed(without_folder(s), s.error),
        },
        CopyStage::Copied => s,
        CopyStage::Refused => s,
    }
}

/// Without the innermost folder under way.
pub open spec fn without_folder(s: CopyState) -> CopyState {
    CopyState {
        folders: if s.folders.len() == 0 {
            s.folders
        } else {
            s.folders.drop_last()
        },
        ..s
    }
}

/// The folders under way, over plain values.
pub open spec fn folder_states(folders: Seq<Folder>) -> Seq<FolderState> {
    folders.map_values(|f: Folder| f.state())
}

impl CopyJob {
    pub open spec fn state(&self) -> CopyState {
        CopyState {
            folders: folder_states(self.folders@),
            stage: self.stage,
            src: self.src@,
            dest: self.dest@,
            error: self.error@,
        }
    }

    pub open spec fn wf(&self) -> bool {
        forall|i: int| 0 <= i < self.folders@.len() ==> (#[trigger] self.folders@[i]).wf()
    }

    /// A copy of `src` to `dest`.
    pub fn new(src: String, dest: String) -> (job: CopyJob)
        ensures
            job.wf(),
            job.state() == copy_begun(src@, dest@),
    {
        let job = CopyJob {
            folders: Vec::new(),
            stage: CopyStage::Inspect,
            src,
            dest,
            error: owned(""),
        };
        assert(job.state().folders =~= Seq::empty());
        job
    }

    fn fail(&mut self, error: String)
        requires
            old(self).wf(),
        ensures
            final(self).wf(),
            final(self).state() == copy_failed(old(self).state(), error@),
    {
        let n: usize = self.folders.len();
        self.error = error;
        if n == 0 {
            self.stage = CopyStage::Refused;
        } else {
            self.src = self.folders[n - 1].src.clone();
            self.dest = self.folders[n - 1].dest.clone();
            self.stage = CopyStage::RemoveTree;
            assert(self.state().folders.last() == self.folders@[n - 1].state());
        }
    }

    fn go_on(&mut self)
        requires
            old(self).wf(),
        ensures
            final(self).wf(),
            final(self).state() == copy_goes_on(old(self).state()),
    {
        let ghost before = self.state();
        match self.folders.pop() {
            None => {
                self.stage = CopyStage::Copied;
            },
            Some(folder) => {
                let mut f = folder;
                let ghost was = f.state();
                assert(old(self).folders@.last().wf());
                assert(before.folders.last() == was);
                if f.begun < f.names.len() {
                    let name = f.names[f.begun].clone();
                    self.src = joined(f.src.as_str(), name.as_str());
                    self.dest = joined(f.dest.as_str(), name.as_str());
                    self.stage = CopyStage::InspectEntry;
                    f.begun = f.begun + 1;
                    assert(was.left[0] == name@);
                    assert(f.state().left =~= was.left.skip(1));
                    let ghost now = f;
                    self.folders.push(f);
                    assert(self.state().folders =~= before.folders.drop_last().push(now.state()));
                } else {
                    assert(was.left.len() == 0);
                    let broken = f.broken.clone();
                    let src = f.src.clone();
                    let dest = f.dest.clone();
                    self.folders.push(f);
                    assert(self.folders@ =~= old(self).folders@);
                    match broken {
                        Some(e) => {
                            self.fail(e);
                        },
                        None => {
                            self.src = src;
                            self.dest = dest;
                            self.stage = CopyStage::SetPermissions;
                        },
                    }
                }
            },
        }
    }

    fn leave_folder(&mut self)
        requires
            old(self).wf(),
        ensures
            final(self).wf(),
            final(self).state() == without_folder(old(self).state()),
    {
        let ghost before = self.state();
        let left = self.folders.pop();
        assert(self.state().folders =~= without_folder(before).folders);
    }

    /// Goes on with what came of the present step.
    pub fn advance(&mut self, outcome: CopyOutcome)
        requires
            old(self).wf(),
        ensures
            final(self).wf(),
            final(self).state() == copy_after(old(self).state(), outcome.event()),
    {
        match self.stage {
            CopyStage::Inspect | CopyStage::InspectEntry => {
                match source_without_link(self.src.as_str(), outcome.error, outcome.kind) {
                    Some(e) => self.fail(e),
                    None => if outcome.kind == SourceKind::Folder {
                        self.stage = CopyStage::InspectFolder;
                    } else {
                        self.stage = CopyStage::InspectFile;
                    },
                }
            },
            CopyStage::InspectFolder => {
                match source_without_link(self.src.as_str(), outcome.error, outcome.kind) {
                    Some(e) => self.fail(e),
                    None => {
                        self.stage = CopyStage::CreateFolder;
                    },
                }
            },
            CopyStage::CreateFolder => match outcome.error {
                Some(e) => self.fail(e),
                None => {
                    let ghost before = self.state();
                    let folder = Folder {
                        src: self.src.clone(),
                        dest: self.dest.clone(),
                        names: Vec::new(),
                        begun: 0,
                        broken: None,
                    };
                    let ghost added = folder.state();
                    assert(added.left =~= Seq::empty());
                    self.folders.push(folder);
                    self.stage = CopyStage::ReadFolder;
                    assert(self.state().folders =~= before.folders.push(added));
                },
            },
            CopyStage::ReadFolder => match outcome.error {
                Some(e) => self.fail(e),
                None => {
                    let ghost before = self.state();
                    match self.folders.pop() {
                        None => {},
                        Some(folder) => {
                            let mut f = folder;
                            f.names = outcome.names;
                            f.begun = 0;
                            f.broken = outcome.broken;
                            let ghost now = f;
                            assert(now.state().left =~= views(outcome.names@));
                            self.folders.push(f);
                            assert(self.state().folders =~= before.folders.drop_last().push(
                                now.state(),
                            ));
                        },
                    }
                    self.go_on();
                },
            },
            CopyStage::InspectFile => {
                match source_without_link(self.src.as_str(), outcome.error, outcome.kind) {
                    Some(e) => self.fail(e),
                    None => {
                        self.stage = CopyStage::CopyFile;
                    },
                }
            },
            CopyStage::CopyFile => match outcome.error {
                Some(e) => if outcome.created {
                    self.error = e;
                    self.stage = CopyStage::RemoveFile;
                } else {
                    self.fail(e);
                },
                None => self.go_on(),
            },
            CopyStage::RemoveFile => {
                let mut text = self.error.clone();
                if let Some(e) = outcome.error {
                    text.append("；无法清理本次创建的目标文件：");
                    text.append(e.as_str());
                }
                self.fail(text);
            },
            CopyStage::SetPermissions => match outcome.error {
                Some(e) => self.fail(e),
                None => {
                    self.leave_folder();
                    self.go_on();
                },
            },
            CopyStage::RemoveTree => {
                let mut text = self.error.clone();
                if let Some(e) = outcome.error {
                    text.append("；无法清理本次创建的目标目录：");
                    text.append(e.as_str());
                }
                self.leave_folder();
                self.fail(text);
            },
            CopyStage::Copied => {},
            CopyStage::Refused => {},
        }
    }
}

/// A copy at its beginning.
pub open spec fn copy_begun(src: Seq<char>, dest: Seq<char>) -> CopyState {
    CopyState { folders: Seq::empty(), stage: CopyStage::Inspect, src, dest, error: ""@ }
}

/// A run of a copy.
pub struct CopyRun {
    pub state: CopyState,
    /// The targets that it created.
    pub made: Set<Seq<char>>,
    /// The sources that it came upon.
    pub met: Set<Seq<char>>,
    /// The sources that it copied whole.
    pub copied: Set<Seq<char>>,
    /// Whether its outermost target stands, whole or not.
    pub standing: bool,
    /// Whether each removal was done.
    pub cleaned: bool,
}

/// A run at its beginning.
pub open spec fn copy_run_begun(src: Seq<char>, dest: Seq<char>) -> CopyRun {
    CopyRun {
        state: copy_begun(src, dest),
        made: Set::empty(),
        met: Set::empty().insert(src),
        copied: Set::empty(),
        standing: false,
        cleaned: true,
    }
}

/// Whether a step creates its target.
pub open spec fn creates(stage: CopyStage, o: CopyEvent) -> bool {
    (stage == CopyStage::CreateFolder && o.error is None) || (stage == CopyStage::CopyFile && (
    o.error is None || o.created))
}

/// Whether a step removes its target.
pub open spec fn removes(stage: CopyStage) -> bool {
    stage == CopyStage::RemoveFile || stage == CopyStage::RemoveTree
}

/// Whether a step can end in `o` where the paths in `taken` are taken: nothing is created there.
pub open spec fn copy_possible(run: CopyRun, o: CopyEvent, taken: Set<Seq<char>>) -> bool {
    creates(run.state.stage, o) ==> !taken.contains(run.state.dest)
}

/// Whether a step has to do with the outermost target.
pub open spec fn is_outermost(s: CopyState) -> bool {
    s.folders.len() == 0 || (s.stage == CopyStage::RemoveTree && s.folders.len() == 1)
}

/// A step of a copy, with what it does.
pub open spec fn copy_step(run: CopyRun, o: CopyEvent) -> CopyRun {
    let s = run.state;
    CopyRun {
        state: copy_after(s, o),
        made: if creates(s.stage, o) {
            run.made.insert(s.dest)
        } else {
            run.made
        },
        met: if s.stage == CopyStage::ReadFolder && o.error is None {
            run.met.union(
                Set::new(
                    |p: Seq<char>|
                        exists|k: int|
                            0 <= k < o.names.len() && p == join(s.src, #[trigger] o.names[k]),
                ),
            )
        } else {
            run.met
        },
        copied: if (s.stage == CopyStage::CopyFile || s.stage == CopyStage::SetPermissions)
            && o.error is None {
            run.copied.insert(s.src)
        } else {
            run.copied
        },
        standing: if is_outermost(s) && creates(s.stage, o) {
            true
        } else if is_outermost(s) && removes(s.stage) && o.error is None {
            false
        } else {
            run.standing
        },
        cleaned: run.cleaned && (removes(s.stage) ==> o.error is None),
    }
}

/// The steps of a copy, one after the other.
pub open spec fn copy_run(src: Seq<char>, dest: Seq<char>, os: Seq<CopyEvent>) -> CopyRun
    decreases os.len(),
{
    if os.len() == 0 {
        copy_run_begun(src, dest)
    } else {
        copy_step(copy_run(src, dest, os.drop_last()), os.last())
    }
}

/// Whether each step of a run can end as it does.
pub open spec fn copy_run_possible(
    src: Seq<char>,
    dest: Seq<char>,
    os: Seq<CopyEvent>,
    taken: Set<Seq<char>>,
) -> bool
    decreases os.len(),
{
    os.len() == 0 || (copy_run_possible(src, dest, os.drop_last(), taken) && copy_possible(
        copy_run(src, dest, os.drop_last()),
        os.last(),
        taken,
    ))
}

/// Whether a step is about something that is still to be copied.
spec fn is_busy(stage: CopyStage) -> bool {
    stage == CopyStage::Inspect || stage == CopyStage::InspectEntry || stage
        == CopyStage::InspectFolder || stage == CopyStage::InspectFile || stage
        == CopyStage::CreateFolder || stage == CopyStage::CopyFile
}

/// Whether things still go well.
spec fn is_well(stage: CopyStage) -> bool {
    !removes(stage) && stage != CopyStage::Refused
}

/// Whether a source is under way or still to be begun.
spec fn is_due(s: CopyState, p: Seq<char>) -> bool {
    ||| is_busy(s.stage) && p == s.src
    ||| exists|i: int| 0 <= i < s.folders.len() && p == (#[trigger] s.folders[i]).src
    ||| exists|i: int, k: int|
        0 <= i < s.folders.len() && 0 <= k < s.folders[i].left.len() && p == join(
            s.folders[i].src,
            #[trigger] s.folders[i].left[k],
        )
}

spec fn copy_invariant(run: CopyRun, dest: Seq<char>, taken: Set<Seq<char>>) -> bool {
    let s = run.state;
    &&& forall|p: Seq<char>| run.made.contains(p) ==> !taken.contains(p)
    &&& forall|i: int| 0 <= i < s.folders.len() ==> run.made.contains((#[trigger] s.folders[i]).dest)
    &&& s.stage == CopyStage::ReadFolder || s.stage == CopyStage::SetPermissions || s.stage
        == CopyStage::RemoveTree ==> s.folders.len() > 0 && s.src == s.folders.last().src && s.dest
        == s.folders.last().dest
    &&& s.stage == CopyStage::ReadFolder || s.stage == CopyStage::SetPermissions
        ==> s.folders.last().left.len() == 0
    &&& s.stage == CopyStage::RemoveFile ==> run.made.contains(s.dest)
    &&& s.folders.len() > 0 ==> run.standing && s.folders[0].dest == dest && s.stage
        != CopyStage::Copied && s.stage != CopyStage::Refused && s.stage != CopyStage::Inspect
    &&& s.folders.len() == 0 ==> match s.stage {
        CopyStage::Inspect
        | CopyStage::InspectFolder
        | CopyStage::CreateFolder
        | CopyStage::InspectFile
        | CopyStage::CopyFile => !run.standing && s.dest == dest,
        CopyStage::RemoveFile => run.standing && s.dest == dest,
        CopyStage::Copied => run.standing,
        CopyStage::Refused => !run.standing || !run.cleaned,
        _ => false,
    }
    &&& is_well(s.stage) ==> forall|p: Seq<char>| #[trigger]
        run.met.contains(p) ==> run.copied.contains(p) || is_due(s, p)
}

proof fn lemma_goes_on(s: CopyState, p: Seq<char>)
    requires
        is_due(CopyState { stage: CopyStage::Copied, ..s }, p),
        is_well(copy_goes_on(s).stage),
    ensures
        is_due(copy_goes_on(s), p),
{
    let t = copy_goes_on(s);
    if s.folders.len() > 0 {
        let n = s.folders.len() - 1;
        let f = s.folders.last();
        if f.left.len() > 0 {
            if exists|i: int| 0 <= i < s.folders.len() && p == (#[trigger] s.folders[i]).src {
                let i = choose|i: int|
                    0 <= i < s.folders.len() && p == (#[trigger] s.folders[i]).src;
                assert(t.folders[i].src == p);
            } else {
                let (i, k) = choose|i: int, k: int|
                    0 <= i < s.folders.len() && 0 <= k < s.folders[i].left.len() && p == join(
                        s.folders[i].src,
                        #[trigger] s.folders[i].left[k],
                    );
                if i < n {
                    assert(t.folders[i].left[k] == s.folders[i].left[k]);
                } else if k > 0 {
                    assert(t.folders[n].left[k - 1] == s.folders[n].left[k]);
                }
            }
        }
    }
}

proof fn lemma_copy_step(run: CopyRun, o: CopyEvent, dest: Seq<char>, taken: Set<Seq<char>>)
    requires
        copy_invariant(run, dest, taken),
        copy_possible(run, o, taken),
    ensures
        copy_invariant(copy_step(run, o), dest, taken),
{
    let s = run.state;
    let next = copy_step(run, o);
    let t = next.state;
    if is_well(t.stage) {
        assert forall|p: Seq<char>| #[trigger] next.met.contains(p) implies next.copied.contains(p)
            || is_due(t, p) by {
            if s.stage == CopyStage::ReadFolder {
                let f = s.folders.last();
                let listed = CopyState {
                    folders: s.folders.drop_last().push(
                        FolderState { left: o.names, broken: o.broken, ..f },
                    ),
                    ..s
                };
                let quiet = CopyState { stage: CopyStage::Copied, ..listed };
                let n = s.folders.len() - 1;
                if !next.copied.contains(p) {
                    if run.met.contains(p) {
                        if exists|i: int|
                            0 <= i < s.folders.len() && p == (#[trigger] s.folders[i]).src {
                            let i = choose|i: int|
                                0 <= i < s.folders.len() && p == (#[trigger] s.folders[i]).src;
                            assert(quiet.folders[i].src == p);
                        } else {
                            let (i, k) = choose|i: int, k: int|
                                0 <= i < s.folders.len() && 0 <= k < s.folders[i].left.len() && p
                                    == join(s.folders[i].src, #[trigger] s.folders[i].left[k]);
                            assert(i < n);
                            assert(quiet.folders[i].left[k] == s.folders[i].left[k]);
                        }
                    } else {
                        let k = choose|k: int|
                            0 <= k < o.names.len() && p == join(s.src, #[trigger] o.names[k]);
                        assert(quiet.folders[n].left[k] == o.names[k]);
                    }
                    lemma_goes_on(listed, p);
                }
            } else if s.stage == CopyStage::CreateFolder {
                let n = s.folders.len() as int;
                assert(t.folders[n].src == s.src);
                if !next.copied.contains(p) && p != s.src {
                    if exists|i: int| 0 <= i < s.folders.len() && p == (#[trigger] s.folders[i]).src {
                        let i = choose|i: int|
                            0 <= i < s.folders.len() && p == (#[trigger] s.folders[i]).src;
                        assert(t.folders[i].src == p);
                    } else {
                        let (i, k) = choose|i: int, k: int|
                            0 <= i < s.folders.len() && 0 <= k < s.folders[i].left.len() && p
                                == join(s.folders[i].src, #[trigger] s.folders[i].left[k]);
                        assert(t.folders[i].left[k] == s.folders[i].left[k]);
                    }
                }
            } else if s.stage == CopyStage::CopyFile {
                if !next.copied.contains(p) {
                    assert(is_due(CopyState { stage: CopyStage::Copied, ..s }, p));
                    lemma_goes_on(s, p);
                }
            } else if s.stage == CopyStage::SetPermissions {
                if !next.copied.contains(p) {
                    let w = without_folder(s);
                    let n = s.folders.len() - 1;
                    let quiet = CopyState { stage: CopyStage::Copied, ..w };
                    if exists|i: int| 0 <= i < s.folders.len() && p == (#[trigger] s.folders[i]).src {
                        let i = choose|i: int|
                            0 <= i < s.folders.len() && p == (#[trigger] s.folders[i]).src;
                        assert(i < n);
                        assert(quiet.folders[i].src == p);
                    } else {
                        let (i, k) = choose|i: int, k: int|
                            0 <= i < s.folders.len() && 0 <= k < s.folders[i].left.len() && p
                                == join(s.folders[i].src, #[trigger] s.folders[i].left[k]);
                        assert(i < n);
                        assert(quiet.folders[i].left[k] == s.folders[i].left[k]);
                    }
                    lemma_goes_on(w, p);
                }
            } else {
                assert(t.folders == s.folders);
            }
        }
    }
}

proof fn lemma_copy_run(
    src: Seq<char>,
    dest: Seq<char>,
    os: Seq<CopyEvent>,
    taken: Set<Seq<char>>,
)
    requires
        copy_run_possible(src, dest, os, taken),
    ensures
        copy_invariant(copy_run(src, dest, os), dest, taken),
    decreases os.len(),
{
    if os.len() > 0 {
        lemma_copy_run(src, dest, os.drop_last(), taken);
        lemma_copy_step(copy_run(src, dest, os.drop_last()), os.last(), dest, taken);
    }
}

/// However the steps of a copy end, it removes only what it created itself, and so nothing that was
/// there before it.
pub proof fn a_copy_removes_only_its_own(
    src: Seq<char>,
    dest: Seq<char>,
    os: Seq<CopyEvent>,
    taken: Set<Seq<char>>,
)
    requires
        copy_run_possible(src, dest, os, taken),
        removes(copy_run(src, dest, os).state.stage),
    ensures
        copy_run(src, dest, os).made.contains(copy_run(src, dest, os).state.dest),
        !taken.contains(copy_run(src, dest, os).state.dest),
{
    lemma_copy_run(src, dest, os, taken);
}

/// A copy that is done has copied everything that it came upon, and its target stands. A copy that is
/// refused leaves no target behind, unless something could not be removed.
pub proof fn a_copy_is_whole_or_undone(
    src: Seq<char>,
    dest: Seq<char>,
    os: Seq<CopyEvent>,
    taken: Set<Seq<char>>,
)
    requires
        copy_run_possible(src, dest, os, taken),
    ensures
        ({
            let end = copy_run(src, dest, os);
            &&& end.state.stage == CopyStage::Copied ==> end.standing && forall|p: Seq<char>|
                #[trigger] end.met.contains(p) ==> end.copied.contains(p)
            &&& end.state.stage == CopyStage::Refused ==> !end.standing || !end.cleaned
        }),
{
    lemma_copy_run(src, dest, os, taken);
    let end = copy_run(src, dest, os);
    if end.state.stage == CopyStage::Copied {
        assert forall|p: Seq<char>| #[trigger] end.met.contains(p) implies end.copied.contains(
            p,
        ) by {
            assert(is_well(end.state.stage));
            assert(end.state.folders.len() == 0);
        }
    }
}

/// What a run has to do with sources and their targets, each a pair of the two.
pub struct CopyPairs {
    /// What is to be copied where: the whole to its target, and each name that a folder lists from
    /// that folder into the folder's own target.
    pub due: Set<(Seq<char>, Seq<char>)>,
    /// What was created for which source.
    pub made: Set<(Seq<char>, Seq<char>)>,
    /// What was created and filled.
    pub done: Set<(Seq<char>, Seq<char>)>,
    /// What was removed again.
    pub removed: Set<(Seq<char>, Seq<char>)>,
}

/// The pairs of a run.
pub open spec fn copy_pairs(src: Seq<char>, dest: Seq<char>, os: Seq<CopyEvent>) -> CopyPairs
    decreases os.len(),
{
    if os.len() == 0 {
        CopyPairs {
            due: Set::empty().insert((src, dest)),
            made: Set::empty(),
            done: Set::empty(),
            removed: Set::empty(),
        }
    } else {
        let pairs = copy_pairs(src, dest, os.drop_last());
        let s = copy_run(src, dest, os.drop_last()).state;
        let o = os.last();
        CopyPairs {
            due: if s.stage == CopyStage::ReadFolder && o.error is None {
                pairs.due.union(
                    Set::new(
                        |p: (Seq<char>, Seq<char>)|
                            exists|k: int|
                                0 <= k < o.names.len() && p == (
                                    join(s.src, #[trigger] o.names[k]),
                                    join(s.dest, o.names[k]),
                                ),
                    ),
                )
            } else {
                pairs.due
            },
            made: if creates(s.stage, o) {
                pairs.made.insert((s.src, s.dest))
            } else {
                pairs.made
            },
            done: if (s.stage == CopyStage::CopyFile || s.stage == CopyStage::SetPermissions)
                && o.error is None {
                pairs.done.insert((s.src, s.dest))
            } else {
                pairs.done
            },
            removed: if removes(s.stage) {
                pairs.removed.insert((s.src, s.dest))
            } else {
                pairs.removed
            },
        }
    }
}

/// `base` followed by `names`, each inside the one before.
pub open spec fn followed_by(base: Seq<char>, names: Seq<Seq<char>>) -> Seq<char>
    decreases names.len(),
{
    if names.len() == 0 {
        base
    } else {
        join(followed_by(base, names.drop_last()), names.last())
    }
}

/// Whether the two follow `src` and `dest` by the same names.
pub open spec fn corresponds(
    src: Seq<char>,
    dest: Seq<char>,
    p: (Seq<char>, Seq<char>),
) -> bool {
    exists|names: Seq<Seq<char>>|
        p.0 == #[trigger] followed_by(src, names) && p.1 == followed_by(dest, names)
}

spec fn is_due_pair(s: CopyState, p: (Seq<char>, Seq<char>)) -> bool {
    ||| is_busy(s.stage) && p == (s.src, s.dest)
    ||| exists|i: int|
        0 <= i < s.folders.len() && p == ((#[trigger] s.folders[i]).src, s.folders[i].dest)
    ||| exists|i: int, k: int|
        0 <= i < s.folders.len() && 0 <= k < s.folders[i].left.len() && p == (
            join(s.folders[i].src, #[trigger] s.folders[i].left[k]),
            join(s.folders[i].dest, s.folders[i].left[k]),
        )
}

/// Whether what a copy has before it is due, and the folders under way are made.
spec fn pairs_known(s: CopyState, due: Set<(Seq<char>, Seq<char>)>, made: Set<(Seq<char>, Seq<char>)>) -> bool {
    &&& is_busy(s.stage) ==> due.contains((s.src, s.dest))
    &&& s.stage == CopyStage::RemoveFile ==> made.contains((s.src, s.dest))
    &&& forall|i: int|
        0 <= i < s.folders.len() ==> made.contains(
            ((#[trigger] s.folders[i]).src, s.folders[i].dest),
        )
    &&& forall|i: int, k: int|
        0 <= i < s.folders.len() && 0 <= k < s.folders[i].left.len() ==> due.contains(
            (
                join(s.folders[i].src, #[trigger] s.folders[i].left[k]),
                join(s.folders[i].dest, s.folders[i].left[k]),
            ),
        )
}

/// Whether a copy is where its stage says.
spec fn in_its_place(s: CopyState) -> bool {
    &&& s.stage == CopyStage::ReadFolder || s.stage == CopyStage::SetPermissions || s.stage
        == CopyStage::RemoveTree ==> s.folders.len() > 0 && s.src == s.folders.last().src && s.dest
        == s.folders.last().dest
    &&& s.stage == CopyStage::ReadFolder || s.stage == CopyStage::SetPermissions
        ==> s.folders.last().left.len() == 0
    &&& s.stage == CopyStage::Copied ==> s.folders.len() == 0
}

spec fn pairs_invariant(
    src: Seq<char>,
    dest: Seq<char>,
    s: CopyState,
    pairs: CopyPairs,
) -> bool {
    &&& in_its_place(s)
    &&& pairs_known(s, pairs.due, pairs.made)
    &&& forall|p: (Seq<char>, Seq<char>)| #[trigger]
        pairs.due.contains(p) ==> corresponds(src, dest, p)
    &&& forall|p: (Seq<char>, Seq<char>)| #[trigger]
        pairs.made.contains(p) ==> pairs.due.contains(p)
    &&& forall|p: (Seq<char>, Seq<char>)| #[trigger]
        pairs.done.contains(p) ==> pairs.made.contains(p)
    &&& forall|p: (Seq<char>, Seq<char>)| #[trigger]
        pairs.removed.contains(p) ==> pairs.made.contains(p)
    &&& is_well(s.stage) ==> pairs.removed.is_empty() && forall|p: (Seq<char>, Seq<char>)|
        #[trigger]
        pairs.due.contains(p) ==> pairs.done.contains(p) || is_due_pair(s, p)
}

proof fn going_on_keeps_pairs(
    s: CopyState,
    due: Set<(Seq<char>, Seq<char>)>,
    made: Set<(Seq<char>, Seq<char>)>,
)
    requires
        pairs_known(CopyState { stage: CopyStage::Copied, ..s }, due, made),
    ensures
        pairs_known(copy_goes_on(s), due, made),
        in_its_place(copy_goes_on(s)),
{
    let t = copy_goes_on(s);
    let quiet = CopyState { stage: CopyStage::Copied, ..s };
    if s.folders.len() > 0 {
        let n = s.folders.len() - 1;
        let f = s.folders.last();
        if f.left.len() > 0 {
            assert(quiet.folders[n].left[0] == f.left[0]);
            assert forall|i: int| 0 <= i < t.folders.len() implies made.contains(
                ((#[trigger] t.folders[i]).src, t.folders[i].dest),
            ) by {
                assert(t.folders[i].src == quiet.folders[i].src);
            }
            assert forall|i: int, k: int|
                0 <= i < t.folders.len() && 0 <= k < t.folders[i].left.len() implies due.contains(
                (
                    join(t.folders[i].src, #[trigger] t.folders[i].left[k]),
                    join(t.folders[i].dest, t.folders[i].left[k]),
                ),
            ) by {
                if i < n {
                    assert(quiet.folders[i].left[k] == t.folders[i].left[k]);
                } else {
                    assert(quiet.folders[n].left[k + 1] == t.folders[n].left[k]);
                }
            }
        } else {
            assert(t.folders == quiet.folders);
            assert forall|i: int, k: int|
                0 <= i < t.folders.len() && 0 <= k < t.folders[i].left.len() implies due.contains(
                (
                    join(t.folders[i].src, #[trigger] t.folders[i].left[k]),
                    join(t.folders[i].dest, t.folders[i].left[k]),
                ),
            ) by {
                assert(quiet.folders[i].left[k] == t.folders[i].left[k]);
            }
        }
    }
}

proof fn going_on_keeps_what_is_due(s: CopyState, p: (Seq<char>, Seq<char>))
    requires
        is_due_pair(CopyState { stage: CopyStage::Copied, ..s }, p),
        is_well(copy_goes_on(s).stage),
    ensures
        is_due_pair(copy_goes_on(s), p),
{
    let t = copy_goes_on(s);
    if s.folders.len() > 0 {
        let n = s.folders.len() - 1;
        let f = s.folders.last();
        if f.left.len() > 0 {
            if exists|i: int|
                0 <= i < s.folders.len() && p == (
                    (#[trigger] s.folders[i]).src,
                    s.folders[i].dest,
                ) {
                let i = choose|i: int|
                    0 <= i < s.folders.len() && p == (
                        (#[trigger] s.folders[i]).src,
                        s.folders[i].dest,
                    );
                assert(p == (t.folders[i].src, t.folders[i].dest));
            } else {
                let (i, k) = choose|i: int, k: int|
                    0 <= i < s.folders.len() && 0 <= k < s.folders[i].left.len() && p == (
                        join(s.folders[i].src, #[trigger] s.folders[i].left[k]),
                        join(s.folders[i].dest, s.folders[i].left[k]),
                    );
                if i < n {
                    assert(t.folders[i].left[k] == s.folders[i].left[k]);
                } else if k > 0 {
                    assert(t.folders[n].left[k - 1] == s.folders[n].left[k]);
                }
            }
        }
    }
}

proof fn failing_keeps_pairs(
    s: CopyState,
    error: Seq<char>,
    due: Set<(Seq<char>, Seq<char>)>,
    made: Set<(Seq<char>, Seq<char>)>,
)
    requires
        pairs_known(CopyState { stage: CopyStage::Copied, ..s }, due, made),
    ensures
        pairs_known(copy_failed(s, error), due, made),
        in_its_place(copy_failed(s, error)),
{
    let t = copy_failed(s, error);
    let quiet = CopyState { stage: CopyStage::Copied, ..s };
    assert(t.folders == quiet.folders);
    assert forall|i: int, k: int|
        0 <= i < t.folders.len() && 0 <= k < t.folders[i].left.len() implies due.contains(
        (
            join(t.folders[i].src, #[trigger] t.folders[i].left[k]),
            join(t.folders[i].dest, t.folders[i].left[k]),
        ),
    ) by {
        assert(quiet.folders[i].left[k] == t.folders[i].left[k]);
    }
}

/// A copy with what the innermost folder holds, once it was listed.
spec fn with_names(s: CopyState, o: CopyEvent) -> CopyState {
    CopyState {
        folders: s.folders.drop_last().push(
            FolderState { left: o.names, broken: o.broken, ..s.folders.last() },
        ),
        ..s
    }
}

proof fn a_step_keeps_pairs(src: Seq<char>, dest: Seq<char>, os: Seq<CopyEvent>)
    requires
        os.len() > 0,
        pairs_invariant(
            src,
            dest,
            copy_run(src, dest, os.drop_last()).state,
            copy_pairs(src, dest, os.drop_last()),
        ),
    ensures
        ({
            let t = copy_run(src, dest, os).state;
            let next = copy_pairs(src, dest, os);
            pairs_known(t, next.due, next.made) && in_its_place(t)
        }),
{
    let s = copy_run(src, dest, os.drop_last()).state;
    let pairs = copy_pairs(src, dest, os.drop_last());
    let o = os.last();
    let t = copy_run(src, dest, os).state;
    let next = copy_pairs(src, dest, os);
    let quiet = CopyState { stage: CopyStage::Copied, ..s };
    assert(t == copy_after(s, o));
    assert(pairs_known(quiet, next.due, next.made)) by {
        assert(quiet.folders == s.folders);
        assert forall|i: int, k: int|
            0 <= i < quiet.folders.len() && 0 <= k
                < quiet.folders[i].left.len() implies next.due.contains(
            (
                join(quiet.folders[i].src, #[trigger] quiet.folders[i].left[k]),
                join(quiet.folders[i].dest, quiet.folders[i].left[k]),
            ),
        ) by {
            assert(s.folders[i].left[k] == quiet.folders[i].left[k]);
        }
    }
    assert forall|e: Seq<char>| pairs_known(
        #[trigger] copy_failed(s, e),
        next.due,
        next.made,
    ) && in_its_place(copy_failed(s, e)) by {
        failing_keeps_pairs(s, e, next.due, next.made);
    }
    let w = without_folder(s);
    let still = CopyState { stage: CopyStage::Copied, ..w };
    assert(pairs_known(still, next.due, next.made)) by {
        assert forall|i: int| 0 <= i < still.folders.len() implies next.made.contains(
            ((#[trigger] still.folders[i]).src, still.folders[i].dest),
        ) by {
            assert(still.folders[i] == s.folders[i]);
        }
        assert forall|i: int, k: int|
            0 <= i < still.folders.len() && 0 <= k
                < still.folders[i].left.len() implies next.due.contains(
            (
                join(still.folders[i].src, #[trigger] still.folders[i].left[k]),
                join(still.folders[i].dest, still.folders[i].left[k]),
            ),
        ) by {
            assert(s.folders[i].left[k] == still.folders[i].left[k]);
        }
    }
    if s.stage == CopyStage::ReadFolder && o.error is None {
        let listed = with_names(s, o);
        let calm = CopyState { stage: CopyStage::Copied, ..listed };
        let n = s.folders.len() - 1;
        assert forall|i: int| 0 <= i < calm.folders.len() implies next.made.contains(
            ((#[trigger] calm.folders[i]).src, calm.folders[i].dest),
        ) by {
            assert(calm.folders[i].src == s.folders[i].src);
            assert(calm.folders[i].dest == s.folders[i].dest);
        }
        assert forall|i: int, k: int|
            0 <= i < calm.folders.len() && 0 <= k
                < calm.folders[i].left.len() implies next.due.contains(
            (
                join(calm.folders[i].src, #[trigger] calm.folders[i].left[k]),
                join(calm.folders[i].dest, calm.folders[i].left[k]),
            ),
        ) by {
            if i < n {
                assert(s.folders[i].left[k] == calm.folders[i].left[k]);
            } else {
                assert(calm.folders[i].left[k] == o.names[k]);
            }
        }
        going_on_keeps_pairs(listed, next.due, next.made);
    } else if s.stage == CopyStage::CopyFile && o.error is None {
        going_on_keeps_pairs(s, next.due, next.made);
    } else if s.stage == CopyStage::SetPermissions && o.error is None {
        going_on_keeps_pairs(w, next.due, next.made);
    } else if s.stage == CopyStage::RemoveTree {
        failing_keeps_pairs(w, s.error, next.due, next.made);
        if o.error is Some {
            failing_keeps_pairs(
                w,
                s.error + "；无法清理本次创建的目标目录："@ + o.error->0,
                next.due,
                next.made,
            );
        }
    } else if s.stage == CopyStage::CreateFolder && o.error is None {
        let n = s.folders.len() as int;
        assert(t.folders[n].src == s.src && t.folders[n].dest == s.dest);
        assert forall|i: int| 0 <= i < t.folders.len() implies next.made.contains(
            ((#[trigger] t.folders[i]).src, t.folders[i].dest),
        ) by {
            if i < n {
                assert(t.folders[i] == s.folders[i]);
            }
        }
        assert forall|i: int, k: int|
            0 <= i < t.folders.len() && 0 <= k < t.folders[i].left.len() implies next.due.contains(
            (
                join(t.folders[i].src, #[trigger] t.folders[i].left[k]),
                join(t.folders[i].dest, t.folders[i].left[k]),
            ),
        ) by {
            assert(i < n);
            assert(s.folders[i].left[k] == t.folders[i].left[k]);
        }
    } else if !(t.stage == CopyStage::RemoveTree || t.stage == CopyStage::Refused) {
        assert(t.folders == s.folders);
        assert forall|i: int, k: int|
            0 <= i < t.folders.len() && 0 <= k < t.folders[i].left.len() implies next.due.contains(
            (
                join(t.folders[i].src, #[trigger] t.folders[i].left[k]),
                join(t.folders[i].dest, t.folders[i].left[k]),
            ),
        ) by {
            assert(s.folders[i].left[k] == t.folders[i].left[k]);
        }
    }
}

proof fn a_step_keeps_what_is_due(
    src: Seq<char>,
    dest: Seq<char>,
    os: Seq<CopyEvent>,
    p: (Seq<char>, Seq<char>),
)
    requires
        os.len() > 0,
        pairs_invariant(
            src,
            dest,
            copy_run(src, dest, os.drop_last()).state,
            copy_pairs(src, dest, os.drop_last()),
        ),
        is_well(copy_run(src, dest, os).state.stage),
        copy_pairs(src, dest, os).due.contains(p),
    ensures
        copy_pairs(src, dest, os).done.contains(p) || is_due_pair(
            copy_run(src, dest, os).state,
            p,
        ),
{
    let s = copy_run(src, dest, os.drop_last()).state;
    let pairs = copy_pairs(src, dest, os.drop_last());
    let o = os.last();
    let t = copy_run(src, dest, os).state;
    let next = copy_pairs(src, dest, os);
    assert(t == copy_after(s, o));
    assert(is_well(s.stage));
    if !next.done.contains(p) {
        let n = s.folders.len() - 1;
        if pairs.due.contains(p) {
            assert(is_due_pair(s, p));
            if exists|i: int|
                0 <= i < s.folders.len() && p == (
                    (#[trigger] s.folders[i]).src,
                    s.folders[i].dest,
                ) {
                let i = choose|i: int|
                    0 <= i < s.folders.len() && p == (
                        (#[trigger] s.folders[i]).src,
                        s.folders[i].dest,
                    );
                if s.stage == CopyStage::ReadFolder {
                    let listed = with_names(s, o);
                    let calm = CopyState { stage: CopyStage::Copied, ..listed };
                    assert(p == (calm.folders[i].src, calm.folders[i].dest));
                    going_on_keeps_what_is_due(listed, p);
                } else if s.stage == CopyStage::SetPermissions {
                    let w = without_folder(s);
                    let still = CopyState { stage: CopyStage::Copied, ..w };
                    assert(i < n);
                    assert(p == (still.folders[i].src, still.folders[i].dest));
                    going_on_keeps_what_is_due(w, p);
                } else if s.stage == CopyStage::CopyFile {
                    let quiet = CopyState { stage: CopyStage::Copied, ..s };
                    assert(p == (quiet.folders[i].src, quiet.folders[i].dest));
                    going_on_keeps_what_is_due(s, p);
                } else {
                    assert(p == (t.folders[i].src, t.folders[i].dest));
                }
            } else if exists|i: int, k: int|
                0 <= i < s.folders.len() && 0 <= k < s.folders[i].left.len() && p == (
                    join(s.folders[i].src, #[trigger] s.folders[i].left[k]),
                    join(s.folders[i].dest, s.folders[i].left[k]),
                ) {
                let (i, k) = choose|i: int, k: int|
                    0 <= i < s.folders.len() && 0 <= k < s.folders[i].left.len() && p == (
                        join(s.folders[i].src, #[trigger] s.folders[i].left[k]),
                        join(s.folders[i].dest, s.folders[i].left[k]),
                    );
                if s.stage == CopyStage::ReadFolder {
                    let listed = with_names(s, o);
                    let calm = CopyState { stage: CopyStage::Copied, ..listed };
                    assert(i < n);
                    assert(calm.folders[i].left[k] == s.folders[i].left[k]);
                    going_on_keeps_what_is_due(listed, p);
                } else if s.stage == CopyStage::SetPermissions {
                    let w = without_folder(s);
                    let still = CopyState { stage: CopyStage::Copied, ..w };
                    assert(i < n);
                    assert(still.folders[i].left[k] == s.folders[i].left[k]);
                    going_on_keeps_what_is_due(w, p);
                } else if s.stage == CopyStage::CopyFile {
                    let quiet = CopyState { stage: CopyStage::Copied, ..s };
                    assert(quiet.folders[i].left[k] == s.folders[i].left[k]);
                    going_on_keeps_what_is_due(s, p);
                } else {
                    assert(t.folders[i].left[k] == s.folders[i].left[k]);
                }
            } else {
                assert(is_busy(s.stage) && p == (s.src, s.dest));
                if s.stage == CopyStage::CreateFolder {
                    assert(p == (t.folders[n + 1].src, t.folders[n + 1].dest));
                }
            }
        } else {
            let k = choose|k: int|
                0 <= k < o.names.len() && p == (
                    join(s.src, #[trigger] o.names[k]),
                    join(s.dest, o.names[k]),
                );
            let listed = with_names(s, o);
            let calm = CopyState { stage: CopyStage::Copied, ..listed };
            assert(calm.folders[n].left[k] == o.names[k]);
            going_on_keeps_what_is_due(listed, p);
        }
    }
}

proof fn a_run_keeps_pairs(src: Seq<char>, dest: Seq<char>, os: Seq<CopyEvent>)
    ensures
        pairs_invariant(src, dest, copy_run(src, dest, os).state, copy_pairs(src, dest, os)),
    decreases os.len(),
{
    let t = copy_run(src, dest, os).state;
    let next = copy_pairs(src, dest, os);
    if os.len() == 0 {
        let none = Seq::<Seq<char>>::empty();
        assert(followed_by(src, none) == src && followed_by(dest, none) == dest);
    } else {
        a_run_keeps_pairs(src, dest, os.drop_last());
        let s = copy_run(src, dest, os.drop_last()).state;
        let pairs = copy_pairs(src, dest, os.drop_last());
        let o = os.last();
        assert(t == copy_after(s, o));
        a_step_keeps_pairs(src, dest, os);
        if s.stage == CopyStage::ReadFolder || s.stage == CopyStage::SetPermissions || s.stage
            == CopyStage::RemoveTree {
            let f = s.folders[s.folders.len() - 1];
            assert(pairs.made.contains((f.src, f.dest)));
        }
        assert forall|p: (Seq<char>, Seq<char>)| #[trigger] next.due.contains(
            p,
        ) implies corresponds(src, dest, p) by {
            if !pairs.due.contains(p) {
                let k = choose|k: int|
                    0 <= k < o.names.len() && p == (
                        join(s.src, #[trigger] o.names[k]),
                        join(s.dest, o.names[k]),
                    );
                assert(pairs.due.contains((s.src, s.dest)));
                let names = choose|names: Seq<Seq<char>>|
                    s.src == #[trigger] followed_by(src, names) && s.dest == followed_by(
                        dest,
                        names,
                    );
                let more = names.push(o.names[k]);
                assert(more.drop_last() =~= names);
                assert(p.0 == followed_by(src, more) && p.1 == followed_by(dest, more));
            }
        }
        if is_well(t.stage) {
            assert forall|p: (Seq<char>, Seq<char>)| #[trigger] next.due.contains(
                p,
            ) implies next.done.contains(p) || is_due_pair(t, p) by {
                a_step_keeps_what_is_due(src, dest, os, p);
            }
        }
    }
}

/// A copy keeps the structure: whatever it creates for a source, at any depth, follows the target by
/// the names by which the source follows what is copied, and is either the whole or listed in a folder
/// that was created before it. A folder is listed only once its own target is there.
pub proof fn a_copy_keeps_the_structure(src: Seq<char>, dest: Seq<char>, os: Seq<CopyEvent>)
    ensures
        ({
            let pairs = copy_pairs(src, dest, os);
            let s = copy_run(src, dest, os).state;
            &&& forall|p: (Seq<char>, Seq<char>)| #[trigger]
                pairs.made.contains(p) ==> pairs.due.contains(p) && corresponds(src, dest, p)
            &&& forall|p: (Seq<char>, Seq<char>)| #[trigger]
                pairs.removed.contains(p) ==> pairs.made.contains(p)
            &&& s.stage == CopyStage::CreateFolder || s.stage == CopyStage::CopyFile
                ==> pairs.due.contains((s.src, s.dest)) && corresponds(src, dest, (s.src, s.dest))
            &&& s.stage == CopyStage::ReadFolder || s.stage == CopyStage::SetPermissions
                ==> pairs.made.contains((s.src, s.dest))
            &&& s.stage == CopyStage::RemoveFile || s.stage == CopyStage::RemoveTree
                ==> pairs.made.contains((s.src, s.dest))
        }),
{
    a_run_keeps_pairs(src, dest, os);
    let s = copy_run(src, dest, os).state;
    if s.stage == CopyStage::ReadFolder || s.stage == CopyStage::SetPermissions || s.stage
        == CopyStage::RemoveTree {
        let f = s.folders[s.folders.len() - 1];
        assert(copy_pairs(src, dest, os).made.contains((f.src, f.dest)));
    }
}

/// A copy that is done has created and filled the image of every source that it met, and nothing
/// else, and has removed nothing.
pub proof fn a_copy_that_is_done_made_every_image(
    src: Seq<char>,
    dest: Seq<char>,
    os: Seq<CopyEvent>,
)
    requires
        copy_run(src, dest, os).state.stage == CopyStage::Copied,
    ensures
        copy_pairs(src, dest, os).made =~= copy_pairs(src, dest, os).due,
        copy_pairs(src, dest, os).done =~= copy_pairs(src, dest, os).due,
        copy_pairs(src, dest, os).removed =~= Set::empty(),
        copy_pairs(src, dest, os).made.contains((src, dest)),
{
    a_run_keeps_pairs(src, dest, os);
    let s = copy_run(src, dest, os).state;
    let pairs = copy_pairs(src, dest, os);
    assert forall|p: (Seq<char>, Seq<char>)| #[trigger] pairs.due.contains(
        p,
    ) implies pairs.done.contains(p) by {
        assert(!is_due_pair(s, p));
    }
    the_whole_is_due(src, dest, os);
}

proof fn the_whole_is_due(src: Seq<char>, dest: Seq<char>, os: Seq<CopyEvent>)
    ensures
        copy_pairs(src, dest, os).due.contains((src, dest)),
    decreases os.len(),
{
    if os.len() > 0 {
        the_whole_is_due(src, dest, os.drop_last());
    }
}

/// Whether step `i` of a run comes before the copy is done.
pub open spec fn is_before_the_end(
    src: Seq<char>,
    dest: Seq<char>,
    os: Seq<CopyEvent>,
    i: int,
) -> bool {
    0 <= i < os.len() && copy_run(src, dest, os.take(i)).state.stage != CopyStage::Copied
}

/// A copy is done only where nothing went wrong on the way: no step failed, no link was seen, and no list of
/// a folder broke off.
pub proof fn a_copy_is_done_only_where_nothing_failed(
    src: Seq<char>,
    dest: Seq<char>,
    os: Seq<CopyEvent>,
    i: int,
)
    requires
        copy_run(src, dest, os).state.stage == CopyStage::Copied,
        is_before_the_end(src, dest, os, i),
    ensures
        ({
            let stage = copy_run(src, dest, os.take(i)).state.stage;
            &&& os[i].error is None
            &&& stage == CopyStage::Inspect || stage == CopyStage::InspectEntry || stage
                == CopyStage::InspectFolder || stage == CopyStage::InspectFile ==> os[i].kind
                != SourceKind::Link
            &&& stage == CopyStage::ReadFolder ==> os[i].broken is None
        }),
{
    a_run_that_is_well_had_no_failure(src, dest, os, i);
    if copy_run(src, dest, os.take(i)).state.stage == CopyStage::ReadFolder {
        a_run_keeps_pairs(src, dest, os);
    }
}

proof fn a_run_that_is_well_had_no_failure(
    src: Seq<char>,
    dest: Seq<char>,
    os: Seq<CopyEvent>,
    i: int,
)
    requires
        is_well(copy_run(src, dest, os).state.stage),
        is_before_the_end(src, dest, os, i),
    ensures
        ({
            let stage = copy_run(src, dest, os.take(i)).state.stage;
            let s = copy_run(src, dest, os).state;
            &&& os[i].error is None
            &&& stage == CopyStage::Inspect || stage == CopyStage::InspectEntry || stage
                == CopyStage::InspectFolder || stage == CopyStage::InspectFile ==> os[i].kind
                != SourceKind::Link
            &&& stage == CopyStage::ReadFolder && os[i].broken is Some ==> exists|k: int|
                0 <= k < s.folders.len() && (#[trigger] s.folders[k]).broken is Some && !(k
                    == s.folders.len() - 1 && s.stage == CopyStage::SetPermissions)
        }),
    decreases os.len(),
{
    let n = os.len() - 1;
    let front = os.drop_last();
    let s = copy_run(src, dest, front).state;
    let t = copy_run(src, dest, os).state;
    let o = os.last();
    assert(t == copy_after(s, o));
    assert(is_well(s.stage));
    a_run_keeps_pairs(src, dest, front);
    if i < n {
        assert(front.take(i) =~= os.take(i));
        assert(is_before_the_end(src, dest, front, i));
        a_run_that_is_well_had_no_failure(src, dest, front, i);
        let stage = copy_run(src, dest, os.take(i)).state.stage;
        if stage == CopyStage::ReadFolder && os[i].broken is Some {
            let k = choose|k: int|
                0 <= k < s.folders.len() && (#[trigger] s.folders[k]).broken is Some && !(k
                    == s.folders.len() - 1 && s.stage == CopyStage::SetPermissions);
            if s.stage == CopyStage::ReadFolder && k == s.folders.len() - 1 {
                no_list_is_read_twice(src, dest, front);
            }
            assert(t.folders[k].broken is Some);
        }
    } else {
        assert(os.take(n) =~= front);
        if s.stage == CopyStage::ReadFolder && o.broken is Some {
            let k = s.folders.len() - 1;
            assert(t.folders[k].broken is Some);
        }
    }
}

proof fn no_list_is_read_twice(src: Seq<char>, dest: Seq<char>, os: Seq<CopyEvent>)
    requires
        copy_run(src, dest, os).state.stage == CopyStage::ReadFolder,
    ensures
        copy_run(src, dest, os).state.folders.len() > 0,
        copy_run(src, dest, os).state.folders.last().broken is None,
{
    if os.len() > 0 {
        let s = copy_run(src, dest, os.drop_last()).state;
        assert(copy_run(src, dest, os).state == copy_after(s, os.last()));
    }
}

/// Where no step fails and no link shows up, a copy never goes wrong: it is on its way or done.
pub proof fn a_copy_without_failures_goes_on(src: Seq<char>, dest: Seq<char>, os: Seq<CopyEvent>)
    requires
        forall|i: int|
            0 <= i < os.len() ==> (#[trigger] os[i]).error is None && os[i].broken is None
                && os[i].kind != SourceKind::Link,
    ensures
        ({
            let stage = copy_run(src, dest, os).state.stage;
            stage != CopyStage::Refused && stage != CopyStage::RemoveFile && stage
                != CopyStage::RemoveTree
        }),
    decreases os.len(),
{
    nothing_breaks(src, dest, os);
}

proof fn nothing_breaks(src: Seq<char>, dest: Seq<char>, os: Seq<CopyEvent>)
    requires
        forall|i: int|
            0 <= i < os.len() ==> (#[trigger] os[i]).error is None && os[i].broken is None
                && os[i].kind != SourceKind::Link,
    ensures
        is_well(copy_run(src, dest, os).state.stage),
        forall|i: int|
            0 <= i < copy_run(src, dest, os).state.folders.len() ==> (
            #[trigger] copy_run(src, dest, os).state.folders[i]).broken is None,
    decreases os.len(),
{
    if os.len() > 0 {
        let o = os[os.len() - 1];
        assert forall|i: int| 0 <= i < os.drop_last().len() implies (
        #[trigger] os.drop_last()[i]).error is None && os.drop_last()[i].broken is None
            && os.drop_last()[i].kind != SourceKind::Link by {
            assert(os.drop_last()[i] == os[i]);
        }
        nothing_breaks(src, dest, os.drop_last());
        let s = copy_run(src, dest, os.drop_last()).state;
        let t = copy_run(src, dest, os).state;
        assert(t == copy_after(s, o));
        let n = s.folders.len() - 1;
        if s.stage == CopyStage::SetPermissions && n >= 1 {
            assert(s.folders[n - 1].broken is None);
        }
        if n >= 0 {
            assert(s.folders[n].broken is None);
        }
        assert forall|i: int| 0 <= i < t.folders.len() implies (
        #[trigger] t.folders[i]).broken is None by {
            if i < s.folders.len() {
                assert(s.folders[i].broken is None);
            }
        }
    }
}

/// What a look shows to be a folder is gone on with as a folder, and a file as a file; a folder is listed
/// right behind its creation.
pub proof fn folders_are_copied_as_folders(s: CopyState, o: CopyEvent)
    ensures
        copy_after(s, o).stage == CopyStage::InspectFolder ==> o.kind == SourceKind::Folder
            && o.error is None && copy_after(s, o).src == s.src && copy_after(s, o).dest == s.dest,
        copy_after(s, o).stage == CopyStage::InspectFile ==> o.kind == SourceKind::File && o.error
            is None && copy_after(s, o).src == s.src && copy_after(s, o).dest == s.dest,
        copy_after(s, o).stage == CopyStage::CreateFolder ==> s.stage
            == CopyStage::InspectFolder && copy_after(s, o).dest == s.dest,
        copy_after(s, o).stage == CopyStage::CopyFile ==> s.stage == CopyStage::InspectFile
            && copy_after(s, o).dest == s.dest,
        copy_after(s, o).stage == CopyStage::ReadFolder ==> s.stage == CopyStage::CreateFolder
            && o.error is None,
        s.stage == CopyStage::CreateFolder && o.error is None ==> copy_after(s, o).stage
            == CopyStage::ReadFolder,
{
}

/// A folder or a file is copied only right behind a look at it that showed no link.
pub proof fn no_link_is_followed(s: CopyState, o: CopyEvent)
    requires
        copy_after(s, o).stage == CopyStage::CreateFolder || copy_after(s, o).stage
            == CopyStage::CopyFile,
    ensures
        s.stage == CopyStage::InspectFolder || s.stage == CopyStage::InspectFile,
        o.error is None,
        o.kind != SourceKind::Link,
        copy_after(s, o).src == s.src,
{
}

} // verus!
