//! Progress of a batch of renames: every file is staged before any file is committed, and
//! a failed file is set aside while the others go on.
use vstd::prelude::*;

verus! {

/// Where one file of a batch stands.
#[derive(Clone, Copy, Debug, PartialEq, Eq, Structural)]
pub enum FileState {
    /// Still under its original name.
    Original,
    /// Moved to its temporary name.
    Staged,
    /// Moved to its final name and restamped.
    Committed,
    /// A rename failed; the file is left where it is.
    Failed,
}

/// The two passes of a batch.
#[derive(Clone, Copy, Debug, PartialEq, Eq, Structural)]
pub enum Phase {
    Stage,
    Commit,
}

/// The next rename to carry out: file `index`, in pass `phase`.
#[derive(Clone, Copy, Debug, PartialEq, Eq, Structural)]
pub struct Action {
    pub index: usize,
    pub phase: Phase,
}

/// Index of the first file of `s` in state `st`, or `s.len()` when there is none.
pub open spec fn first_in(s: Seq<FileState>, st: FileState) -> nat
    decreases s.len(),
{
    if s.len() == 0 {
        0
    } else if s[0] == st {
        0
    } else {
        1 + first_in(s.drop_first(), st)
    }
}

/// The action a batch in states `s` takes next: stage the first original file; once none
/// is left, commit the first staged file; once none is left either, nothing.
pub open spec fn next_of(s: Seq<FileState>) -> Option<Action> {
    let i = first_in(s, FileState::Original);
    let j = first_in(s, FileState::Staged);
    if i < s.len() {
        Some(Action { index: i as usize, phase: Phase::Stage })
    } else if j < s.len() {
        Some(Action { index: j as usize, phase: Phase::Commit })
    } else {
        None
    }
}

/// The state of a file after a rename from state `st` succeeded or failed.
pub open spec fn after(st: FileState, succeeded: bool) -> FileState {
    if !succeeded {
        FileState::Failed
    } else if st == FileState::Original {
        FileState::Staged
    } else {
        FileState::Committed
    }
}

/// Every file of the batch is committed or has failed.
pub open spec fn finished(s: Seq<FileState>) -> bool {
    forall|i: int|
        0 <= i < s.len() ==> #[trigger] s[i] == FileState::Committed || s[i] == FileState::Failed
}

/// If no file before `i` is in state `st` and `i` is, or is the end, `i` is the first.
pub proof fn lemma_first_in(s: Seq<FileState>, st: FileState, i: int)
    requires
        0 <= i <= s.len(),
        forall|j: int| 0 <= j < i ==> s[j] != st,
        i == s.len() || s[i] == st,
    ensures
        first_in(s, st) == i,
    decreases i,
{
    if i > 0 {
        let t = s.drop_first();
        assert forall|j: int| 0 <= j < i - 1 implies t[j] != st by {
            assert(t[j] == s[j + 1]);
        }
        if i < s.len() {
            assert(t[i - 1] == s[i]);
        }
        lemma_first_in(t, st, i - 1);
    }
}

/// The first file of `s` in state `st` comes before every other such file.
pub proof fn lemma_first_in_least(s: Seq<FileState>, st: FileState, k: int)
    requires
        0 <= k < s.len(),
        s[k] == st,
    ensures
        first_in(s, st) <= k,
        first_in(s, st) < s.len(),
        s[first_in(s, st) as int] == st,
    decreases k,
{
    if k > 0 && s[0] != st {
        let t = s.drop_first();
        assert(t[k - 1] == s[k]);
        lemma_first_in_least(t, st, k - 1);
        assert(s[first_in(s, st) as int] == t[first_in(t, st) as int]);
    }
}

/// A batch never commits while a file still waits to be staged; and it stops only when
/// every file is committed or has failed.
pub proof fn lemma_stage_barrier(s: Seq<FileState>)
    ensures
        next_of(s) matches Some(a) && a.phase == Phase::Commit ==> forall|k: int|
            0 <= k < s.len() ==> s[k] != FileState::Original,
        next_of(s) matches Some(a) ==> a.index < s.len(),
        next_of(s) is None <==> finished(s),
{
    if next_of(s) matches Some(a) && a.phase == Phase::Commit {
        assert forall|k: int| 0 <= k < s.len() implies s[k] != FileState::Original by {
            if s[k] == FileState::Original {
                lemma_first_in_least(s, FileState::Original, k);
            }
        }
    }
    if next_of(s) is None {
        assert forall|k: int| 0 <= k < s.len() implies #[trigger] s[k] == FileState::Committed
            || s[k] == FileState::Failed by {
            if s[k] == FileState::Original {
                lemma_first_in_least(s, FileState::Original, k);
            }
            if s[k] == FileState::Staged {
                lemma_first_in_least(s, FileState::Staged, k);
            }
        }
    }
    if finished(s) {
        lemma_first_in(s, FileState::Original, s.len() as int);
        lemma_first_in(s, FileState::Staged, s.len() as int);
    }
    if next_of(s) matches Some(a) {
        lemma_first_in_bound(s, FileState::Original);
        lemma_first_in_bound(s, FileState::Staged);
    }
}

proof fn lemma_first_in_bound(s: Seq<FileState>, st: FileState)
    ensures
        first_in(s, st) <= s.len(),
        first_in(s, st) < s.len() ==> s[first_in(s, st) as int] == st,
    decreases s.len(),
{
    if s.len() > 0 && s[0] != st {
        lemma_first_in_bound(s.drop_first(), st);
    }
}

/// Renames still owed to a file in state `st`.
pub open spec fn owed(st: FileState) -> nat {
    if st == FileState::Original {
        2
    } else if st == FileState::Staged {
        1
    } else {
        0
    }
}

/// Renames still owed to the whole batch.
pub open spec fn pending(s: Seq<FileState>) -> nat
    decreases s.len(),
{
    if s.len() == 0 {
        0
    } else {
        pending(s.drop_last()) + owed(s.last())
    }
}

proof fn lemma_pending_update(s: Seq<FileState>, i: int, st: FileState)
    requires
        0 <= i < s.len(),
    ensures
        pending(s.update(i, st)) + owed(s[i]) == pending(s) + owed(st),
    decreases s.len(),
{
    let t = s.update(i, st);
    if i < s.len() - 1 {
        assert(t.drop_last() =~= s.drop_last().update(i, st));
        lemma_pending_update(s.drop_last(), i, st);
    } else {
        assert(t.drop_last() =~= s.drop_last());
    }
}

proof fn lemma_pending_bound(s: Seq<FileState>)
    ensures
        pending(s) <= 2 * s.len(),
    decreases s.len(),
{
    if s.len() > 0 {
        lemma_pending_bound(s.drop_last());
    }
}

/// Carrying out the next action and recording its outcome, success or failure, leaves the
/// batch strictly fewer renames to do; a batch of `n` files owes at most `2 * n`. So a
/// batch is finished after at most two steps per file, whichever renames fail.
pub proof fn lemma_run_progress(s: Seq<FileState>, succeeded: bool)
    requires
        next_of(s) is Some,
        s.len() <= usize::MAX,
    ensures
        pending(s) <= 2 * s.len(),
        ({
            let a = next_of(s)->Some_0;
            pending(s.update(a.index as int, after(s[a.index as int], succeeded))) < pending(s)
        }),
{
    lemma_stage_barrier(s);
    lemma_pending_bound(s);
    lemma_first_in_bound(s, FileState::Original);
    lemma_first_in_bound(s, FileState::Staged);
    let a = next_of(s)->Some_0;
    let i = a.index as int;
    if a.phase == Phase::Stage {
        assert(i == first_in(s, FileState::Original));
        assert(s[i] == FileState::Original);
    } else {
        assert(i == first_in(s, FileState::Staged));
        assert(s[i] == FileState::Staged);
    }
    lemma_pending_update(s, i, after(s[i], succeeded));
}

/// The states of the files of one batch.
pub struct BatchRun {
    states: Vec<FileState>,
}

impl View for BatchRun {
    type V = Seq<FileState>;

    closed spec fn view(&self) -> Seq<FileState> {
        self.states@
    }
}

impl BatchRun {
    /// A batch of `n` files, all under their original names.
    pub fn new(n: usize) -> (r: Self)
        ensures
            r@ == Seq::new(n as nat, |i: int| FileState::Original),
    {
        let mut states: Vec<FileState> = Vec::new();
        let mut k: usize = 0;
        while k < n
            invariant
                k <= n,
                states@ == Seq::new(k as nat, |i: int| FileState::Original),
            decreases n - k,
        {
            states.push(FileState::Original);
            k = k + 1;
            assert(states@ =~= Seq::new(k as nat, |i: int| FileState::Original));
        }
        BatchRun { states }
    }

    /// Number of files in the batch.
    pub fn len(&self) -> (r: usize)
        ensures
            r == self@.len(),
    {
        self.states.len()
    }

    /// Where file `index` stands.
    pub fn state(&self, index: usize) -> (r: FileState)
        requires
            index < self@.len(),
        ensures
            r == self@[index as int],
    {
        self.states[index]
    }

    fn first_index(&self, st: FileState) -> (r: usize)
        ensures
            r == first_in(self@, st),
    {
        let mut i: usize = 0;
        while i < self.states.len() && self.states[i] != st
            invariant
                i <= self@.len(),
                forall|j: int| 0 <= j < i ==> self@[j] != st,
            decreases self@.len() - i,
        {
            i = i + 1;
        }
        proof {
            lemma_first_in(self@, st, i as int);
        }
        i
    }

    /// The rename to carry out next, `None` once every file is committed or has failed.
    pub fn next_action(&self) -> (r: Option<Action>)
        ensures
            r == next_of(self@),
    {
        let i = self.first_index(FileState::Original);
        if i < self.states.len() {
            return Some(Action { index: i, phase: Phase::Stage });
        }
        let j = self.first_index(FileState::Staged);
        if j < self.states.len() {
            Some(Action { index: j, phase: Phase::Commit })
        } else {
            None
        }
    }

    /// Records the outcome of the rename of file `index`: an original file becomes staged,
    /// a staged one committed, and either becomes failed when its rename failed.
    pub fn record(&mut self, index: usize, succeeded: bool)
        requires
            index < old(self)@.len(),
            old(self)@[index as int] == FileState::Original || old(self)@[index as int]
                == FileState::Staged,
        ensures
            final(self)@ == old(self)@.update(index as int, after(old(self)@[index as int], succeeded)),
    {
        let st = self.states[index];
        let next = if !succeeded {
            FileState::Failed
        } else if st == FileState::Original {
            FileState::Staged
        } else {
            FileState::Committed
        };
        self.states.set(index, next);
    }

    /// Every file is committed or has failed.
    pub fn is_finished(&self) -> (r: bool)
        ensures
            r == finished(self@),
    {
        let r = self.next_action().is_none();
        proof {
            lemma_stage_barrier(self@);
        }
        r
    }
}

} // verus!
