//! Which window of the shell carries the desktop.

use crate::text::same_text;
use vstd::prelude::*;

verus! {

/// The search for the window behind which fences are put: `Progman`, else the first `WorkerW`.
#[derive(Clone, Copy, Debug, PartialEq, Eq, Structural)]
pub struct InsertHostSearch {
    pub found: Option<isize>,
}

impl Default for InsertHostSearch {
    fn default() -> (search: Self)
        ensures
            search.found is None,
    {
        InsertHostSearch { found: None }
    }
}

/// What is found after a window `hwnd` of class `class`, and whether the search goes on.
pub open spec fn observed(found: Option<isize>, hwnd: isize, class: Seq<char>) -> (
    Option<isize>,
    bool,
) {
    if class == "Progman"@ {
        (Some(hwnd), false)
    } else if class == "WorkerW"@ && found is None {
        (Some(hwnd), true)
    } else {
        (found, true)
    }
}

impl InsertHostSearch {
    /// Takes in one window; whether the search goes on.
    pub fn observe(&mut self, hwnd: isize, class: &str) -> (go_on: bool)
        ensures
            (final(self).found, go_on) == observed(old(self).found, hwnd, class@),
    {
        if same_text(class, "Progman") {
            self.found = Some(hwnd);
            false
        } else if same_text(class, "WorkerW") && self.found.is_none() {
            self.found = Some(hwnd);
            true
        } else {
            true
        }
    }
}

/// What is found after the windows `seen`, in order, up to the one that ends the search.
pub open spec fn search(seen: Seq<(isize, Seq<char>)>) -> (Option<isize>, bool)
    decreases seen.len(),
{
    if seen.len() == 0 {
        (None, true)
    } else {
        let (found, go_on) = search(seen.drop_last());
        if go_on {
            observed(found, seen.last().0, seen.last().1)
        } else {
            (found, go_on)
        }
    }
}

/// The search ends at the first `Progman` and finds that; without one it finds the first `WorkerW`,
/// and nothing only where there is neither.
pub proof fn progman_comes_first(seen: Seq<(isize, Seq<char>)>)
    ensures
        ({
            let (found, go_on) = search(seen);
            &&& !go_on ==> exists|i: int|
                0 <= i < seen.len() && (#[trigger] seen[i]).1 == "Progman"@ && found == Some(
                    seen[i].0,
                ) && forall|j: int| 0 <= j < i ==> (#[trigger] seen[j]).1 != "Progman"@
            &&& go_on ==> forall|j: int|
                0 <= j < seen.len() ==> (#[trigger] seen[j]).1 != "Progman"@
            &&& go_on && found is None ==> forall|j: int|
                0 <= j < seen.len() ==> (#[trigger] seen[j]).1 != "WorkerW"@
            &&& go_on && found is Some ==> exists|i: int|
                0 <= i < seen.len() && (#[trigger] seen[i]).1 == "WorkerW"@ && found == Some(
                    seen[i].0,
                ) && forall|j: int| 0 <= j < i ==> (#[trigger] seen[j]).1 != "WorkerW"@
        }),
    decreases seen.len(),
{
    if seen.len() > 0 {
        let before = seen.drop_last();
        progman_comes_first(before);
        let (found, go_on) = search(before);
        let last = seen.len() - 1;
        assert(forall|j: int| 0 <= j < last ==> #[trigger] seen[j] == before[j]);
        assert(seen[last] == seen.last());
        if !go_on {
            let i = choose|i: int|
                0 <= i < before.len() && (#[trigger] before[i]).1 == "Progman"@ && found == Some(
                    before[i].0,
                ) && forall|j: int| 0 <= j < i ==> (#[trigger] before[j]).1 != "Progman"@;
            assert(seen[i].1 == "Progman"@);
        } else if found is Some {
            let i = choose|i: int|
                0 <= i < before.len() && (#[trigger] before[i]).1 == "WorkerW"@ && found == Some(
                    before[i].0,
                ) && forall|j: int| 0 <= j < i ==> (#[trigger] before[j]).1 != "WorkerW"@;
            assert(seen[i].1 == "WorkerW"@);
        }
    }
}

/// The next step in finding the window that carries the desktop's icons.
#[derive(Clone, Copy, Debug, PartialEq, Eq, Structural)]
pub enum HostStep {
    /// Look for a `WorkerW` with the icons' view in it.
    LookForWorker,
    /// Ask `Progman` to make one, and give it time.
    RequestWorker,
    /// Look once more.
    LookAgain,
    Found(isize),
    NotFound,
}

/// What is found out while looking for that window.
#[derive(Clone, Copy, Debug, PartialEq, Eq, Structural)]
pub struct HostFacts {
    /// `Progman`, where it is there.
    pub progman: Option<isize>,
    /// The `WorkerW` that the last look found.
    pub worker: Option<isize>,
    /// Whether `Progman` was asked before in this process.
    pub requested_before: bool,
}

/// The step behind `step`: a `WorkerW` wins; `Progman` is asked for one at most once in a process,
/// since each request makes it build its windows anew; without one `Progman` itself carries the
/// icons.
pub open spec fn next_host_step_of(step: HostStep, facts: HostFacts) -> HostStep {
    match step {
        HostStep::LookForWorker => if facts.progman is None {
            HostStep::NotFound
        } else if facts.worker is Some {
            HostStep::Found(facts.worker->0)
        } else if facts.requested_before {
            HostStep::LookAgain
        } else {
            HostStep::RequestWorker
        },
        HostStep::RequestWorker => HostStep::LookAgain,
        HostStep::LookAgain => if facts.worker is Some {
            HostStep::Found(facts.worker->0)
        } else if facts.progman is Some {
            HostStep::Found(facts.progman->0)
        } else {
            HostStep::NotFound
        },
        HostStep::Found(hwnd) => HostStep::Found(hwnd),
        HostStep::NotFound => HostStep::NotFound,
    }
}

/// See [`next_host_step_of`].
pub fn next_host_step(step: HostStep, facts: HostFacts) -> (next: HostStep)
    ensures
        next == next_host_step_of(step, facts),
{
    match step {
        HostStep::LookForWorker => match facts.progman {
            None => HostStep::NotFound,
            Some(_) => match facts.worker {
                Some(worker) => HostStep::Found(worker),
                None => if facts.requested_before {
                    HostStep::LookAgain
                } else {
                    HostStep::RequestWorker
                },
            },
        },
        HostStep::RequestWorker => HostStep::LookAgain,
        HostStep::LookAgain => match facts.worker {
            Some(worker) => HostStep::Found(worker),
            None => match facts.progman {
                Some(progman) => HostStep::Found(progman),
                None => HostStep::NotFound,
            },
        },
        HostStep::Found(hwnd) => HostStep::Found(hwnd),
        HostStep::NotFound => HostStep::NotFound,
    }
}

/// The search for the window that carries the icons ends with a `WorkerW` where a look found one, with
/// `Progman` where none did after it was asked, and with nothing only without `Progman`. It is asked at
/// most once, and never once it was before.
pub proof fn a_worker_is_asked_for_at_most_once(first: HostFacts, asked: HostFacts, again: HostFacts)
    requires
        first.progman == asked.progman,
        first.progman == again.progman,
    ensures
        ({
            let one = next_host_step_of(HostStep::LookForWorker, first);
            let two = next_host_step_of(one, if one == HostStep::RequestWorker {
                asked
            } else {
                again
            });
            let three = next_host_step_of(two, again);
            &&& first.requested_before ==> one != HostStep::RequestWorker
            &&& two != HostStep::RequestWorker && three != HostStep::RequestWorker
            &&& three matches HostStep::Found(hwnd) ==> Some(hwnd) == first.worker || Some(hwnd)
                == again.worker || Some(hwnd) == first.progman
            &&& three is Found || three is NotFound
            &&& three is NotFound <==> first.progman is None
            &&& first.progman is Some && first.worker is Some ==> three == HostStep::Found(
                first.worker->0,
            )
            &&& first.progman is Some && first.worker is None && again.worker is Some ==> three
                == HostStep::Found(again.worker->0)
            &&& first.progman is Some && first.worker is None && again.worker is None ==> three
                == HostStep::Found(first.progman->0)
        }),
{
}

} // verus!
