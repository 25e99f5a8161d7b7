//! What has to wait until the state can be changed: commands from watchers and windows, done one
//! after the other.

use std::collections::VecDeque;
use vstd::prelude::*;

verus! {

/// The message that commands wait.
pub const WM_APP_DISPATCH: u32 = 0x801E;

/// Something to do with the state.
#[derive(Clone, Copy, Debug, PartialEq, Eq, Structural)]
pub enum AppCommand {
    SweepDesktop,
    RefreshFence { id: u32 },
    /// The pointer action of the window `hwnd` was cut off.
    CancelFenceInteraction { hwnd: isize, capture_changed: bool },
    /// The window `hwnd` came to a screen of another DPI.
    ApplyFenceDpiChange { hwnd: isize, dpi: u32, left: i32, top: i32, right: i32, bottom: i32 },
    FenceWindowDestroyed { hwnd: isize },
}

/// Commands that wait, the oldest first.
pub struct CommandQueue {
    pub pending: VecDeque<AppCommand>,
}

impl Default for CommandQueue {
    fn default() -> (q: Self)
        ensures
            q@ == Seq::<AppCommand>::empty(),
    {
        CommandQueue { pending: VecDeque::new() }
    }
}

impl View for CommandQueue {
    type V = Seq<AppCommand>;

    open spec fn view(&self) -> Seq<AppCommand> {
        self.pending@
    }
}

/// What is left of the commands `s` when the oldest was taken.
pub open spec fn without_oldest(s: Seq<AppCommand>) -> Seq<AppCommand> {
    if s.len() == 0 {
        s
    } else {
        s.skip(1)
    }
}

impl CommandQueue {
    /// Lets `command` wait behind all others.
    pub fn push(&mut self, command: AppCommand)
        ensures
            final(self)@ == old(self)@.push(command),
    {
        self.pending.push_back(command);
    }

    /// Takes the oldest command.
    pub fn pop(&mut self) -> (command: Option<AppCommand>)
        ensures
            final(self)@ == without_oldest(old(self)@),
            match command {
                Some(c) => old(self)@.len() > 0 && c == old(self)@[0],
                None => old(self)@.len() == 0,
            },
    {
        let command = self.pending.pop_front();
        assert(self@ =~= without_oldest(old(self)@));
        command
    }
}

/// What is left of the commands `s` when the `n` oldest were taken.
pub open spec fn without_oldest_of(s: Seq<AppCommand>, n: nat) -> Seq<AppCommand>
    decreases n,
{
    if n == 0 {
        s
    } else {
        without_oldest(without_oldest_of(s, (n - 1) as nat))
    }
}

/// Commands are taken in the order in which they came: behind the ones that already waited, the
/// `i`th of the commands `posted` comes out as the `i`th, whatever is posted after it.
pub proof fn commands_come_out_in_order(
    waiting: Seq<AppCommand>,
    posted: Seq<AppCommand>,
    later: Seq<AppCommand>,
    i: nat,
)
    requires
        i < posted.len(),
    ensures
        ({
            let left = without_oldest_of(waiting + posted + later, waiting.len() + i);
            left.len() > 0 && left[0] == posted[i as int]
        }),
{
    lemma_without(waiting + posted + later, waiting.len() + i);
}

proof fn lemma_without(s: Seq<AppCommand>, n: nat)
    requires
        n <= s.len(),
    ensures
        without_oldest_of(s, n) == s.skip(n as int),
    decreases n,
{
    if n > 0 {
        lemma_without(s, (n - 1) as nat);
        assert(s.skip(n - 1).skip(1) =~= s.skip(n as int));
    } else {
        assert(s.skip(0) =~= s);
    }
}

/// Keeps commands from being done while one is.
#[derive(Clone, Copy, Debug, PartialEq, Eq, Structural)]
pub struct Dispatching {
    pub running: bool,
}

impl Dispatching {
    /// Nothing is being done.
    pub fn new() -> (d: Dispatching)
        ensures
            !d.running,
    {
        Dispatching { running: false }
    }

    /// Begins to do commands; whether that is allowed, which it is not while it is being done
    /// already.
    pub fn enter(&mut self) -> (allowed: bool)
        ensures
            allowed == !old(self).running,
            final(self).running,
    {
        let allowed: bool = !self.running;
        self.running = true;
        allowed
    }

    /// Ends doing commands.
    pub fn leave(&mut self)
        ensures
            !final(self).running,
    {
        self.running = false;
    }
}

} // verus!
