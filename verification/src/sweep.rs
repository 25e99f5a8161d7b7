//! Sweeping the desktop: files go where the rules for their extensions say, and what could not be
//! moved is tried again.

use crate::config::SweepRule;
use crate::shortcut::{dotted_extension, ext_of};
use crate::text::{lowercase, same_text, to_lowercase};
use crate::tracking::Pending;
use crate::winpath::{a_name_splits_at_its_last_dot, is_plain, join, place, takes_names};
use vstd::prelude::*;
use vstd::string::*;

verus! {

/// Whether a rule is for files like `path`.
pub open spec fn is_for(rule: SweepRule, path: Seq<char>) -> bool {
    lowercase(rule.ext@) == dotted_extension(path)
}

/// The first rule for files like `path`.
pub open spec fn is_rule_for(rules: Seq<SweepRule>, path: Seq<char>, at: Option<usize>) -> bool {
    match at {
        Some(i) => i < rules.len() && is_for(rules[i as int], path) && forall|j: int|
            0 <= j < i ==> !is_for(#[trigger] rules[j], path),
        None => forall|j: int| 0 <= j < rules.len() ==> !is_for(#[trigger] rules[j], path),
    }
}

/// A rule for `.ext` is for the files `stem.ext` of a folder, whatever the case of either, and for no
/// file with another extension.
pub proof fn a_rule_is_for_its_extension(
    rule: SweepRule,
    own: Seq<char>,
    d: Seq<char>,
    stem: Seq<char>,
    ext: Seq<char>,
)
    requires
        takes_names(d),
        is_plain(stem + seq!['.'] + ext),
        stem.len() > 0,
        !ext.contains('.'),
        lowercase(rule.ext@) == seq!['.'] + own,
    ensures
        is_for(rule, join(d, stem + seq!['.'] + ext)) <==> own == lowercase(ext),
{
    a_name_splits_at_its_last_dot(d, stem, ext);
    reveal_strlit(".");
    assert("."@ =~= seq!['.']);
    let (a, b) = (seq!['.'] + own, seq!['.'] + lowercase(ext));
    assert(a.skip(1) =~= own);
    assert(b.skip(1) =~= lowercase(ext));
}

/// The first rule for a file decides: rules behind it, and rules for other files before it, change
/// nothing.
pub proof fn the_first_rule_decides(
    before: Seq<SweepRule>,
    rule: SweepRule,
    behind: Seq<SweepRule>,
    path: Seq<char>,
    at: Option<usize>,
)
    requires
        forall|j: int|
            0 <= j < before.len() ==> lowercase((#[trigger] before[j]).ext@) != dotted_extension(
                path,
            ),
        lowercase(rule.ext@) == dotted_extension(path),
        is_rule_for(before.push(rule) + behind, path, at),
    ensures
        at == Some(before.len() as usize),
        (before.push(rule) + behind)[at->0 as int] == rule,
{
    let rules = before.push(rule) + behind;
    let n = before.len() as int;
    assert(rules[n] == rule);
    assert(is_for(rules[n], path));
    if at is Some && at->0 < n {
        assert(rules[at->0 as int] == before[at->0 as int]);
    }
}

/// See [`is_rule_for`].
pub fn rule_for(rules: &Vec<SweepRule>, path: &str) -> (at: Option<usize>)
    ensures
        is_rule_for(rules@, path@, at),
{
    let ext = ext_of(path);
    for i in 0..rules.len()
        invariant
            ext@ == dotted_extension(path@),
            forall|j: int| 0 <= j < i ==> !is_for(#[trigger] rules@[j], path@),
    {
        let own = to_lowercase(rules[i].ext.as_str());
        if same_text(own.as_str(), ext.as_str()) {
            return Some(i);
        }
    }
    None
}

/// Whether one of `names` that changed on the desktop is to be swept.
pub fn calls_for_sweep(rules: &Vec<SweepRule>, names: &Vec<String>) -> (yes: bool)
    ensures
        yes == exists|i: int, j: int|
            0 <= i < names@.len() && 0 <= j < rules@.len() && is_for(
                #[trigger] rules@[j],
                #[trigger] names@[i]@,
            ),
{
    for i in 0..names.len()
        invariant
            forall|k: int, j: int|
                0 <= k < i && 0 <= j < rules@.len() ==> !is_for(
                    #[trigger] rules@[j],
                    #[trigger] names@[k]@,
                ),
    {
        let at = rule_for(rules, names[i].as_str());
        if let Some(r) = at {
            assert(is_for(rules@[r as int], names@[i as int]@));
            return true;
        }
    }
    false
}

/// What the sweep does with something on the desktop.
pub enum SweepStep {
    /// It stays.
    Stay,
    /// It is moved to this folder.
    MoveTo(String),
}

/// What the sweep does with `path`: a file goes where the first rule for it says, unless it is a
/// download that waits to be whole.
pub fn sweep_step(rules: &Vec<SweepRule>, path: &str, is_file: bool, downloads: &Pending) -> (step:
    SweepStep)
    requires
        downloads.wf(),
    ensures
        exists|at: Option<usize>| #[trigger]
            is_rule_for(rules@, path@, at) && match step {
                SweepStep::MoveTo(dest) => is_file && !downloads@.contains_key(place(path@)) && at is Some
                    && dest@ == rules@[at->0 as int].dest@,
                SweepStep::Stay => !is_file || downloads@.contains_key(place(path@)) || at is None,
            },
{
    let at = rule_for(rules, path);
    assert(is_rule_for(rules@, path@, at));
    if !is_file || downloads.contains(path) {
        return SweepStep::Stay;
    }
    match at {
        Some(i) => SweepStep::MoveTo(rules[i].dest.clone()),
        None => SweepStep::Stay,
    }
}

/// A move that is to be tried again.
pub struct Retry {
    pub src: String,
    pub dest: String,
}

/// What came of trying again.
#[derive(Clone, Copy, Debug, PartialEq, Eq, Structural)]
pub enum RetryOutcome {
    /// The file is no longer there.
    Gone,
    Moved,
    Failed,
}

/// The moves among the first `n` that failed again.
pub open spec fn failed_again(retries: Seq<Retry>, outcomes: Seq<RetryOutcome>, n: int) -> Seq<Retry>
    decreases n,
{
    if n <= 0 {
        Seq::empty()
    } else {
        let before = failed_again(retries, outcomes, n - 1);
        if outcomes[n - 1] == RetryOutcome::Failed {
            before.push(retries[n - 1])
        } else {
            before
        }
    }
}

/// Keeps only the moves that failed again, in their order.
pub fn sweep_retry_tick(retries: &mut Vec<Retry>, outcomes: &Vec<RetryOutcome>)
    requires
        outcomes@.len() == old(retries)@.len(),
    ensures
        final(retries)@ == failed_again(old(retries)@, outcomes@, outcomes@.len() as int),
{
    let mut keep: Vec<Retry> = Vec::new();
    let ghost all = retries@;
    for i in 0..outcomes.len()
        invariant
            all.len() == outcomes@.len(),
            retries@ == all,
            keep@ == failed_again(all, outcomes@, i as int),
    {
        if outcomes[i] == RetryOutcome::Failed {
            let again = Retry { src: retries[i].src.clone(), dest: retries[i].dest.clone() };
            assert(again == all[i as int]);
            keep.push(again);
        }
    }
    *retries = keep;
}

/// A move that failed is tried again, and one that was done or whose file is gone is not: as many are
/// kept as failed, and each of those that failed is among them.
pub proof fn a_failed_move_is_tried_again(
    retries: Seq<Retry>,
    outcomes: Seq<RetryOutcome>,
    n: int,
    i: int,
)
    requires
        0 <= i < n <= retries.len(),
        outcomes.len() == retries.len(),
    ensures
        outcomes[i] == RetryOutcome::Failed ==> failed_again(retries, outcomes, n).contains(
            retries[i],
        ),
        failed_again(retries, outcomes, n).len() == outcomes.take(n).filter(
            |o: RetryOutcome| o == RetryOutcome::Failed,
        ).len(),
    decreases n,
{
    let failed = |o: RetryOutcome| o == RetryOutcome::Failed;
    let now = failed_again(retries, outcomes, n);
    let before = failed_again(retries, outcomes, n - 1);
    reveal(Seq::filter);
    assert(outcomes.take(n).drop_last() =~= outcomes.take(n - 1));
    assert(outcomes.take(n).last() == outcomes[n - 1]);
    assert(outcomes.take(0).filter(failed).len() == 0);
    if i < n - 1 {
        a_failed_move_is_tried_again(retries, outcomes, n - 1, i);
        if outcomes[i] == RetryOutcome::Failed {
            let k = choose|k: int| 0 <= k < before.len() && before[k] == retries[i];
            assert(now[k] == retries[i]);
        }
    } else {
        if n > 1 {
            a_failed_move_is_tried_again(retries, outcomes, n - 1, 0);
        }
        if outcomes[i] == RetryOutcome::Failed {
            assert(now.last() == retries[i]);
        }
    }
}

} // verus!
