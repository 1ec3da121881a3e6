//! The scan session: its lifecycle, its progress counters, the decisions of
//! one worker step, and the snapshot from which a session is taken up again.

use vstd::prelude::*;
use crate::wire::copy_bytes;
use crate::scoring::{
    admits, after_submit, entries_view, is_sorted_descending, sorted_descending, ConfigError,
    RankedEntry, ScoringWeights, TopScoreTracker,
};

verus! {

/// How many candidates a session ranks unless told otherwise.
pub const DEFAULT_TOP_CAPACITY: usize = 100;

/// Where a session stands in its life.
#[derive(Clone, Copy, Debug, PartialEq, Eq, Structural)]
pub enum SessionState {
    Idle,
    Running,
    Paused,
    Stopped,
}

/// What an operator can ask of a session.
#[derive(Clone, Copy, Debug, PartialEq, Eq, Structural)]
pub enum Command {
    Start,
    Stop,
    Pause,
    Resume,
}

/// Why a session refused a call.
#[derive(Clone, Copy, Debug, PartialEq, Eq, Structural)]
pub enum SessionError {
    /// The weight set does not conform.
    Config(ConfigError),
    /// The command is not valid in the session's state.
    InvalidTransition,
}

/// The state a command leads to, where the command is valid: a session starts
/// from idle, pauses while running, resumes while paused, and stops while
/// running or paused. A stopped session accepts nothing.
pub open spec fn next_state(state: SessionState, command: Command) -> Option<SessionState> {
    match (state, command) {
        (SessionState::Idle, Command::Start) => Some(SessionState::Running),
        (SessionState::Running, Command::Pause) => Some(SessionState::Paused),
        (SessionState::Paused, Command::Resume) => Some(SessionState::Running),
        (SessionState::Running, Command::Stop) => Some(SessionState::Stopped),
        (SessionState::Paused, Command::Stop) => Some(SessionState::Stopped),
        _ => None,
    }
}

/// What a worker does next.
#[derive(Clone, Copy, Debug, PartialEq, Eq, Structural)]
pub enum WorkerAction {
    /// Generate, derive, score and report one candidate.
    Proceed,
    /// Hold still and ask again.
    Wait,
    /// Leave the loop.
    Exit,
}

/// What became of a reported candidate.
#[derive(Clone, Copy, Debug, PartialEq, Eq, Structural)]
pub enum StepOutcome {
    /// The session is not running: nothing was counted or ranked.
    Ignored,
    /// The candidate was counted. `accepted` says whether the ranking took
    /// it, `verify` whether its balance is to be looked up.
    Counted { accepted: bool, verify: bool },
}

/// Scan session state.
#[derive(Clone, Debug)]
pub struct ScanSession {
    pub session_id: String,
    pub state: SessionState,
    pub keys_tested: u64,
    pub seeds_tested: u64,
    pub hits: u64,
    pub weights: ScoringWeights,
    /// The rank key from which on a candidate's balance is looked up.
    pub balance_threshold: u64,
    /// The key of the candidate counted last: where generation goes on.
    pub last_key: Vec<u8>,
    pub tracker: TopScoreTracker,
}

impl ScanSession {
    /// The ranking held is well formed.
    pub open spec fn wf(&self) -> bool {
        self.tracker.wf()
    }

    /// Whether the ranking held is well formed.
    pub fn is_wf(&self) -> (ok: bool)
        ensures
            ok == self.wf(),
    {
        self.tracker.is_wf()
    }

    /// Everything but the lifecycle state is as in `other`.
    pub open spec fn same_progress(&self, other: &ScanSession) -> bool {
        &&& self.session_id == other.session_id
        &&& self.keys_tested == other.keys_tested
        &&& self.seeds_tested == other.seeds_tested
        &&& self.hits == other.hits
        &&& self.weights == other.weights
        &&& self.balance_threshold == other.balance_threshold
        &&& self.last_key == other.last_key
        &&& self.tracker == other.tracker
    }

    /// An idle session with the standard weights, a ranking of
    /// `DEFAULT_TOP_CAPACITY` entries and no balance look-ups below the
    /// highest key.
    pub fn new(session_id: String) -> (session: Self)
        ensures
            session.wf(),
            session.session_id == session_id,
            session.state == SessionState::Idle,
            session.keys_tested == 0,
            session.seeds_tested == 0,
            session.hits == 0,
            session.weights == ScoringWeights::standard(),
            session.weights.is_valid(),
            session.balance_threshold == u64::MAX,
            session.last_key@ == Seq::<u8>::empty(),
            session.tracker.capacity == DEFAULT_TOP_CAPACITY,
            session.tracker@.entries == Seq::<RankedEntry>::empty(),
    {
        ScanSession {
            session_id,
            state: SessionState::Idle,
            keys_tested: 0,
            seeds_tested: 0,
            hits: 0,
            weights: ScoringWeights::default(),
            balance_threshold: u64::MAX,
            last_key: Vec::new(),
            tracker: TopScoreTracker::new(DEFAULT_TOP_CAPACITY),
        }
    }

    /// An idle session with the given configuration; a weight set that does
    /// not conform is refused.
    pub fn with_config(
        session_id: String,
        weights: ScoringWeights,
        capacity: usize,
        balance_threshold: u64,
    ) -> (made: Result<Self, SessionError>)
        ensures
            made is Ok <==> weights.is_valid(),
            made is Err ==> weights.validation() is Err && made->Err_0 == SessionError::Config(
                weights.validation()->Err_0,
            ),
            made is Ok ==> ({
                let session = made->Ok_0;
                &&& session.wf()
                &&& session.session_id == session_id
                &&& session.state == SessionState::Idle
                &&& session.keys_tested == 0
                &&& session.seeds_tested == 0
                &&& session.hits == 0
                &&& session.weights == weights
                &&& session.balance_threshold == balance_threshold
                &&& session.last_key@ == Seq::<u8>::empty()
                &&& session.tracker.capacity == capacity
                &&& session.tracker@.entries == Seq::<RankedEntry>::empty()
            }),
    {
        match weights.validate() {
            Err(e) => Err(SessionError::Config(e)),
            Ok(()) => Ok(
                ScanSession {
                    session_id,
                    state: SessionState::Idle,
                    keys_tested: 0,
                    seeds_tested: 0,
                    hits: 0,
                    weights,
                    balance_threshold,
                    last_key: Vec::new(),
                    tracker: TopScoreTracker::new(capacity),
                },
            ),
        }
    }

    /// Applies a command: where it is valid in the session's state the state
    /// changes as `next_state` says, else the call is refused. Starting also
    /// refuses a weight set that does not conform, and the session then stays
    /// idle. Nothing but the state ever changes.
    pub fn apply(&mut self, command: Command) -> (done: Result<(), SessionError>)
        ensures
            final(self).same_progress(old(self)),
            next_state(old(self).state, command) is None ==> done == Err::<(), SessionError>(
                SessionError::InvalidTransition,
            ),
            next_state(old(self).state, command) is Some && command == Command::Start && !old(
                self,
            ).weights.is_valid() ==> done == Err::<(), SessionError>(
                SessionError::Config(old(self).weights.validation()->Err_0),
            ),
            done is Ok <==> next_state(old(self).state, command) is Some && (command
                == Command::Start ==> old(self).weights.is_valid()),
            done is Ok ==> final(self).state == next_state(old(self).state, command)->Some_0,
            done is Err ==> final(self).state == old(self).state,
            old(self).weights.is_valid() ==> final(self).state == state_after(
                old(self).state,
                Event::Control(command),
            ),
    {
        let target = match (self.state, command) {
            (SessionState::Idle, Command::Start) => Some(SessionState::Running),
            (SessionState::Running, Command::Pause) => Some(SessionState::Paused),
            (SessionState::Paused, Command::Resume) => Some(SessionState::Running),
            (SessionState::Running, Command::Stop) => Some(SessionState::Stopped),
            (SessionState::Paused, Command::Stop) => Some(SessionState::Stopped),
            _ => None,
        };
        match target {
            None => Err(SessionError::InvalidTransition),
            Some(state) => {
                if let Command::Start = command {
                    if let Err(e) = self.weights.validate() {
                        return Err(SessionError::Config(e));
                    }
                }
                self.state = state;
                Ok(())
            },
        }
    }

    /// Starts an idle session: `apply` with `Command::Start`.
    pub fn start(&mut self) -> (done: Result<(), SessionError>)
        ensures
            final(self).same_progress(old(self)),
            done is Ok <==> old(self).state == SessionState::Idle && old(self).weights.is_valid(),
            done is Ok ==> final(self).state == SessionState::Running,
            done is Err ==> final(self).state == old(self).state,
            old(self).state != SessionState::Idle ==> done == Err::<(), SessionError>(
                SessionError::InvalidTransition,
            ),
            old(self).state == SessionState::Idle && !old(self).weights.is_valid() ==> done
                == Err::<(), SessionError>(
                SessionError::Config(old(self).weights.validation()->Err_0),
            ),
    {
        self.apply(Command::Start)
    }

    /// Stops a running or paused session for good: `apply` with
    /// `Command::Stop`.
    pub fn stop(&mut self) -> (done: Result<(), SessionError>)
        ensures
            final(self).same_progress(old(self)),
            done is Ok <==> old(self).state == SessionState::Running || old(self).state
                == SessionState::Paused,
            done is Ok ==> final(self).state == SessionState::Stopped,
            done is Err ==> final(self).state == old(self).state && done == Err::<
                (),
                SessionError,
            >(SessionError::InvalidTransition),
    {
        self.apply(Command::Stop)
    }

    /// Suspends a running session: `apply` with `Command::Pause`.
    pub fn pause(&mut self) -> (done: Result<(), SessionError>)
        ensures
            final(self).same_progress(old(self)),
            done is Ok <==> old(self).state == SessionState::Running,
            done is Ok ==> final(self).state == SessionState::Paused,
            done is Err ==> final(self).state == old(self).state && done == Err::<
                (),
                SessionError,
            >(SessionError::InvalidTransition),
    {
        self.apply(Command::Pause)
    }

    /// Takes a paused session up again: `apply` with `Command::Resume`.
    pub fn resume(&mut self) -> (done: Result<(), SessionError>)
        ensures
            final(self).same_progress(old(self)),
            done is Ok <==> old(self).state == SessionState::Paused,
            done is Ok ==> final(self).state == SessionState::Running,
            done is Err ==> final(self).state == old(self).state && done == Err::<
                (),
                SessionError,
            >(SessionError::InvalidTransition),
    {
        self.apply(Command::Resume)
    }

    /// What a worker does at the top of its loop: it goes on while the
    /// session runs, holds still while it is paused, and leaves once it is
    /// stopped (or was never started).
    pub fn poll(&self) -> (action: WorkerAction)
        ensures
            action == worker_action(self.state),
    {
        match self.state {
            SessionState::Running => WorkerAction::Proceed,
            SessionState::Paused => WorkerAction::Wait,
            SessionState::Idle => WorkerAction::Exit,
            SessionState::Stopped => WorkerAction::Exit,
        }
    }

    /// Takes in one scored candidate. Unless the session is running, nothing
    /// changes. While it runs, the candidate is counted exactly once (as a
    /// key, and as a seed too where it came from one), its key becomes the
    /// resumption marker, it is offered to the ranking, and the outcome says
    /// whether the ranking took it and whether its score reaches the
    /// balance threshold.
    pub fn record(&mut self, key: Vec<u8>, from_seed: bool, address: String, score: u64) -> (outcome:
        StepOutcome)
        requires
            old(self).wf(),
            old(self).state == SessionState::Running ==> old(self).keys_tested < u64::MAX,
            old(self).state == SessionState::Running && from_seed ==> old(self).seeds_tested
                < u64::MAX,
        ensures
            final(self).wf(),
            final(self).session_id == old(self).session_id,
            final(self).state == old(self).state,
            final(self).hits == old(self).hits,
            final(self).weights == old(self).weights,
            final(self).balance_threshold == old(self).balance_threshold,
            final(self).tracker.capacity == old(self).tracker.capacity,
            final(self).keys_tested == keys_after(
                old(self).state,
                old(self).keys_tested as int,
                Event::Candidate,
            ),
            old(self).state != SessionState::Running ==> *final(self) == *old(self) && outcome
                == StepOutcome::Ignored,
            old(self).state == SessionState::Running ==> ({
                &&& final(self).keys_tested == old(self).keys_tested + 1
                &&& final(self).seeds_tested == old(self).seeds_tested + if from_seed {
                    1int
                } else {
                    0int
                }
                &&& final(self).last_key == key
                &&& final(self).tracker@.entries == after_submit(
                    old(self).tracker@.entries,
                    old(self).tracker.capacity as int,
                    (address@, score),
                )
                &&& outcome == (StepOutcome::Counted {
                    accepted: admits(old(self).tracker@.entries, old(self).tracker.capacity as int, score),
                    verify: score >= old(self).balance_threshold,
                })
            }),
    {
        match self.state {
            SessionState::Running => {
                self.keys_tested = self.keys_tested + 1;
                if from_seed {
                    self.seeds_tested = self.seeds_tested + 1;
                }
                self.last_key = key;
                let accepted = self.tracker.submit(address, score);
                StepOutcome::Counted { accepted, verify: score >= self.balance_threshold }
            },
            _ => StepOutcome::Ignored,
        }
    }

    /// Counts one candidate found to hold a balance.
    pub fn record_hit(&mut self)
        requires
            old(self).hits < u64::MAX,
        ensures
            final(self).hits == old(self).hits + 1,
            final(self).session_id == old(self).session_id,
            final(self).state == old(self).state,
            final(self).keys_tested == old(self).keys_tested,
            final(self).seeds_tested == old(self).seeds_tested,
            final(self).weights == old(self).weights,
            final(self).balance_threshold == old(self).balance_threshold,
            final(self).last_key == old(self).last_key,
            final(self).tracker == old(self).tracker,
    {
        self.hits = self.hits + 1;
    }

    /// A session that goes on where the snapshot was taken: idle, with the
    /// snapshot's identifier, key count, marker and ranking, and with the
    /// configuration of a new session otherwise.
    pub fn resume_from_checkpoint(checkpoint: &Checkpoint) -> (session: Self)
        requires
            checkpoint.wf(),
        ensures
            session.wf(),
            session.continues(checkpoint),
    {
        let session = ScanSession {
            session_id: checkpoint.session_id.clone(),
            state: SessionState::Idle,
            keys_tested: checkpoint.keys_tested,
            seeds_tested: 0,
            hits: 0,
            weights: ScoringWeights::default(),
            balance_threshold: u64::MAX,
            last_key: copy_bytes(checkpoint.last_key.as_slice()),
            tracker: TopScoreTracker {
                capacity: checkpoint.top_capacity,
                scores: copy_entries(checkpoint.top_scores.as_slice()),
            },
        };
        session
    }

    /// The session is the one that `resume_from_checkpoint` makes of the
    /// snapshot.
    pub open spec fn continues(&self, checkpoint: &Checkpoint) -> bool {
        &&& self.session_id@ == checkpoint.session_id@
        &&& self.state == SessionState::Idle
        &&& self.keys_tested == checkpoint.keys_tested
        &&& self.seeds_tested == 0
        &&& self.hits == 0
        &&& self.weights == ScoringWeights::standard()
        &&& self.balance_threshold == u64::MAX
        &&& self.last_key@ == checkpoint.last_key@
        &&& self.tracker.capacity == checkpoint.top_capacity
        &&& self.tracker@.entries == entries_view(checkpoint.top_scores@)
    }
}

/// What a worker does in a session of the given state.
pub open spec fn worker_action(state: SessionState) -> WorkerAction {
    match state {
        SessionState::Running => WorkerAction::Proceed,
        SessionState::Paused => WorkerAction::Wait,
        SessionState::Idle => WorkerAction::Exit,
        SessionState::Stopped => WorkerAction::Exit,
    }
}

/// What happens to a session: an operator's command, or a worker reporting
/// a scored candidate.
pub enum Event {
    Control(Command),
    Candidate,
}

/// The state after an event: a valid command moves the session on, and
/// nothing else does.
pub open spec fn state_after(state: SessionState, event: Event) -> SessionState {
    match event {
        Event::Control(command) => match next_state(state, command) {
            Some(next) => next,
            None => state,
        },
        Event::Candidate => state,
    }
}

/// The key count after an event: a candidate reported to a running session
/// counts once, and nothing else counts.
pub open spec fn keys_after(state: SessionState, keys: int, event: Event) -> int {
    match event {
        Event::Candidate => if state == SessionState::Running {
            keys + 1
        } else {
            keys
        },
        Event::Control(_) => keys,
    }
}

/// The state after a run of events.
pub open spec fn state_after_all(state: SessionState, events: Seq<Event>) -> SessionState
    decreases events.len(),
{
    if events.len() == 0 {
        state
    } else {
        state_after(state_after_all(state, events.drop_last()), events.last())
    }
}

/// The key count after a run of events.
pub open spec fn keys_after_all(state: SessionState, keys: int, events: Seq<Event>) -> int
    decreases events.len(),
{
    if events.len() == 0 {
        keys
    } else {
        keys_after(
            state_after_all(state, events.drop_last()),
            keys_after_all(state, keys, events.drop_last()),
            events.last(),
        )
    }
}

/// The key count never decreases, whatever happens.
pub proof fn lemma_keys_never_decrease(state: SessionState, keys: int, events: Seq<Event>)
    ensures
        keys_after_all(state, keys, events) >= keys,
    decreases events.len(),
{
    if events.len() > 0 {
        lemma_keys_never_decrease(state, keys, events.drop_last());
    }
}

/// A run of events followed by another is the second run taken from where
/// the first one ended.
pub proof fn lemma_runs_compose(
    state: SessionState,
    keys: int,
    first: Seq<Event>,
    second: Seq<Event>,
)
    ensures
        state_after_all(state, first + second) == state_after_all(
            state_after_all(state, first),
            second,
        ),
        keys_after_all(state, keys, first + second) == keys_after_all(
            state_after_all(state, first),
            keys_after_all(state, keys, first),
            second,
        ),
    decreases second.len(),
{
    if second.len() == 0 {
        assert(first + second =~= first);
    } else {
        assert((first + second).drop_last() =~= first + second.drop_last());
        assert((first + second).last() == second.last());
        lemma_runs_compose(state, keys, first, second.drop_last());
    }
}

/// While a session is not running, candidates reported to it change neither
/// its state nor its key count.
pub proof fn lemma_no_growth_unless_running(state: SessionState, keys: int, reports: Seq<Event>)
    requires
        state != SessionState::Running,
        forall|i: int| 0 <= i < reports.len() ==> reports[i] == Event::Candidate,
    ensures
        state_after_all(state, reports) == state,
        keys_after_all(state, keys, reports) == keys,
    decreases reports.len(),
{
    if reports.len() > 0 {
        let earlier = reports.drop_last();
        assert forall|i: int| 0 <= i < earlier.len() implies earlier[i] == Event::Candidate by {
            assert(earlier[i] == reports[i]);
        }
        lemma_no_growth_unless_running(state, keys, earlier);
    }
}

/// A pause, whatever is reported during it, and the resume that ends it leave
/// no trace in the count: a running session that goes through the cycle and
/// then through `work` ends where it would have ended going through `work`
/// alone. Nothing is lost and nothing is counted twice.
pub proof fn lemma_pause_resume_cycle(keys: int, during_pause: Seq<Event>, work: Seq<Event>)
    requires
        forall|i: int| 0 <= i < during_pause.len() ==> during_pause[i] == Event::Candidate,
    ensures
        state_after_all(
            SessionState::Running,
            seq![Event::Control(Command::Pause)] + during_pause + seq![
                Event::Control(Command::Resume),
            ] + work,
        ) == state_after_all(SessionState::Running, work),
        keys_after_all(
            SessionState::Running,
            keys,
            seq![Event::Control(Command::Pause)] + during_pause + seq![
                Event::Control(Command::Resume),
            ] + work,
        ) == keys_after_all(SessionState::Running, keys, work),
{
    let running = SessionState::Running;
    let pause = seq![Event::Control(Command::Pause)];
    let resume = seq![Event::Control(Command::Resume)];
    let nothing = Seq::<Event>::empty();
    assert(pause.drop_last() =~= nothing);
    assert(resume.drop_last() =~= nothing);
    assert(state_after_all(running, nothing) == running);
    assert(keys_after_all(running, keys, nothing) == keys);
    assert(state_after_all(SessionState::Paused, nothing) == SessionState::Paused);
    assert(keys_after_all(SessionState::Paused, keys, nothing) == keys);
    assert(state_after_all(running, pause) == SessionState::Paused);
    assert(keys_after_all(running, keys, pause) == keys);
    lemma_no_growth_unless_running(SessionState::Paused, keys, during_pause);
    lemma_runs_compose(running, keys, pause, during_pause);
    assert(state_after_all(SessionState::Paused, resume) == running);
    assert(keys_after_all(SessionState::Paused, keys, resume) == keys);
    lemma_runs_compose(running, keys, pause + during_pause, resume);
    lemma_runs_compose(running, keys, pause + during_pause + resume, work);
}

/// A resume restores growth: a running session that was paused and resumed
/// is running again, and the next candidate reported to it is counted, so
/// that the count is then one more than it was when the pause began.
pub proof fn lemma_resume_restores_growth(keys: int, during_pause: Seq<Event>)
    requires
        forall|i: int| 0 <= i < during_pause.len() ==> during_pause[i] == Event::Candidate,
    ensures
        state_after_all(
            SessionState::Running,
            seq![Event::Control(Command::Pause)] + during_pause + seq![
                Event::Control(Command::Resume),
            ],
        ) == SessionState::Running,
        keys_after_all(
            SessionState::Running,
            keys,
            seq![Event::Control(Command::Pause)] + during_pause + seq![
                Event::Control(Command::Resume),
            ] + seq![Event::Candidate],
        ) == keys + 1,
{
    let running = SessionState::Running;
    let nothing = Seq::<Event>::empty();
    let report = seq![Event::Candidate];
    let cycle = seq![Event::Control(Command::Pause)] + during_pause + seq![
        Event::Control(Command::Resume),
    ];
    lemma_pause_resume_cycle(keys, during_pause, nothing);
    lemma_pause_resume_cycle(keys, during_pause, report);
    assert(cycle + nothing =~= cycle);
    assert(report.drop_last() =~= nothing);
    assert(state_after_all(running, nothing) == running);
    assert(keys_after_all(running, keys, nothing) == keys);
    assert(keys_after_all(running, keys, report) == keys + 1);
}

/// The running time of a session in milliseconds, paused intervals left
/// out. Time comes in as readings of a millisecond clock; a reading earlier
/// than one seen before counts as that earlier-seen one.
#[derive(Clone, Copy, Debug, PartialEq, Eq, Structural)]
pub struct RunClock {
    /// The latest reading seen.
    pub latest: u64,
    /// The reading at which the current running interval began, if one is
    /// under way.
    pub running_since: Option<u64>,
    /// The length of the running intervals that have ended.
    pub ran_for: u64,
}

/// The later of a reading and the latest one seen before.
pub open spec fn reading(latest: u64, now: u64) -> u64 {
    if now >= latest {
        now
    } else {
        latest
    }
}

impl RunClock {
    /// The intervals that have ended fit before the current one, and the
    /// current one began no later than the latest reading.
    pub open spec fn wf(&self) -> bool {
        match self.running_since {
            Some(since) => self.ran_for <= since <= self.latest,
            None => self.ran_for <= self.latest,
        }
    }

    /// Whether the clock is well formed.
    pub fn is_wf(&self) -> (ok: bool)
        ensures
            ok == self.wf(),
    {
        match self.running_since {
            Some(since) => self.ran_for <= since && since <= self.latest,
            None => self.ran_for <= self.latest,
        }
    }

    /// The running time as of the reading `now`.
    pub open spec fn elapsed_at(&self, now: u64) -> int {
        match self.running_since {
            Some(since) => self.ran_for + (reading(self.latest, now) - since),
            None => self.ran_for as int,
        }
    }

    /// A clock that has not run yet.
    pub fn new() -> (clock: Self)
        ensures
            clock.wf(),
            clock.latest == 0,
            clock.running_since is None,
            clock.ran_for == 0,
    {
        RunClock { latest: 0, running_since: None, ran_for: 0 }
    }

    /// Begins a running interval at `now`, unless one is under way. The
    /// running time as of `now` is what it was.
    pub fn run(&mut self, now: u64)
        requires
            old(self).wf(),
        ensures
            final(self).wf(),
            final(self).latest == reading(old(self).latest, now),
            final(self).ran_for == old(self).ran_for,
            final(self).running_since == match old(self).running_since {
                Some(since) => Some(since),
                None => Some(reading(old(self).latest, now)),
            },
            final(self).elapsed_at(now) == old(self).elapsed_at(now),
    {
        if now > self.latest {
            self.latest = now;
        }
        if self.running_since.is_none() {
            self.running_since = Some(self.latest);
        }
    }

    /// Ends the running interval at `now`, if one is under way. The running
    /// time as of `now` is what it was, and from now on it stands still.
    pub fn halt(&mut self, now: u64)
        requires
            old(self).wf(),
        ensures
            final(self).wf(),
            final(self).latest == reading(old(self).latest, now),
            final(self).running_since is None,
            final(self).ran_for == old(self).elapsed_at(now),
            forall|later: u64| #[trigger] final(self).elapsed_at(later) == old(self).elapsed_at(now),
    {
        if now > self.latest {
            self.latest = now;
        }
        if let Some(since) = self.running_since {
            self.ran_for = self.ran_for + (self.latest - since);
            self.running_since = None;
        }
    }

    /// The running time as of `now`, in milliseconds.
    pub fn elapsed(&self, now: u64) -> (millis: u64)
        requires
            self.wf(),
        ensures
            millis == self.elapsed_at(now),
    {
        let seen: u64 = if now > self.latest {
            now
        } else {
            self.latest
        };
        match self.running_since {
            Some(since) => self.ran_for + (seen - since),
            None => self.ran_for,
        }
    }
}

/// While a clock runs, its running time grows with the readings, by exactly
/// the time that passed between them; while it is halted, it does not grow.
pub proof fn lemma_clock_grows_only_while_running(clock: RunClock, earlier: u64, later: u64)
    requires
        clock.wf(),
        clock.latest <= earlier <= later,
    ensures
        clock.running_since is Some ==> clock.elapsed_at(later) == clock.elapsed_at(earlier) + (
        later - earlier),
        clock.running_since is None ==> clock.elapsed_at(later) == clock.elapsed_at(earlier),
{
}

/// A copy of the entries.
pub fn copy_entries(entries: &[(String, u64)]) -> (copy: Vec<(String, u64)>)
    ensures
        copy@ == entries@,
{
    let mut copy: Vec<(String, u64)> = Vec::new();
    let mut i: usize = 0;
    while i < entries.len()
        invariant
            0 <= i <= entries@.len(),
            copy@ == entries@.take(i as int),
        decreases entries@.len() - i,
    {
        copy.push((entries[i].0.clone(), entries[i].1));
        i = i + 1;
        assert(copy@ =~= entries@.take(i as int));
    }
    assert(entries@.take(i as int) =~= entries@);
    copy
}

/// Checkpoint data for resume capability: what a session has covered and the
/// ranking it held.
#[derive(Clone, Debug)]
pub struct Checkpoint {
    pub session_id: String,
    pub keys_tested: u64,
    /// The key of the candidate counted last: generation goes on behind it.
    pub last_key: Vec<u8>,
    pub top_capacity: usize,
    pub top_scores: Vec<(String, u64)>,
}

/// What a snapshot is to the contracts.
pub struct CheckpointView {
    pub session_id: Seq<char>,
    pub keys_tested: u64,
    pub last_key: Seq<u8>,
    pub top_capacity: usize,
    pub top_scores: Seq<RankedEntry>,
}

impl View for Checkpoint {
    type V = CheckpointView;

    open spec fn view(&self) -> CheckpointView {
        CheckpointView {
            session_id: self.session_id@,
            keys_tested: self.keys_tested,
            last_key: self.last_key@,
            top_capacity: self.top_capacity,
            top_scores: entries_view(self.top_scores@),
        }
    }
}

impl Checkpoint {
    /// The ranking held is within its capacity and sorted best first.
    pub open spec fn wf(&self) -> bool {
        &&& self.top_scores@.len() <= self.top_capacity
        &&& sorted_descending(entries_view(self.top_scores@))
    }

    /// Whether the ranking held is within its capacity and sorted best first.
    pub fn is_wf(&self) -> (ok: bool)
        ensures
            ok == self.wf(),
    {
        self.top_scores.len() <= self.top_capacity && is_sorted_descending(&self.top_scores)
    }

    /// The snapshot is the one that `save` takes of the session.
    pub open spec fn captures(&self, session: &ScanSession) -> bool {
        &&& self.session_id@ == session.session_id@
        &&& self.keys_tested == session.keys_tested
        &&& self.last_key@ == session.last_key@
        &&& self.top_capacity == session.tracker.capacity
        &&& entries_view(self.top_scores@) == session.tracker@.entries
    }

    /// Takes a snapshot of the session: its identifier, its key count, its
    /// resumption marker and its whole ranking. The session is left as it is.
    pub fn save(session: &ScanSession) -> (checkpoint: Self)
        requires
            session.wf(),
        ensures
            checkpoint.wf(),
            checkpoint.captures(session),
    {
        Checkpoint {
            session_id: session.session_id.clone(),
            keys_tested: session.keys_tested,
            last_key: copy_bytes(session.last_key.as_slice()),
            top_capacity: session.tracker.capacity,
            top_scores: copy_entries(session.tracker.top()),
        }
    }
}

/// A session saved and taken up again has counted as many keys as the
/// session had when it was saved, goes on behind the same marker and holds
/// the same ranking, entry for entry.
pub proof fn lemma_checkpoint_round_trip(
    session: ScanSession,
    checkpoint: Checkpoint,
    resumed: ScanSession,
)
    requires
        checkpoint.captures(&session),
        resumed.continues(&checkpoint),
    ensures
        resumed.session_id@ == session.session_id@,
        resumed.keys_tested == session.keys_tested,
        resumed.last_key@ == session.last_key@,
        resumed.tracker@ == session.tracker@,
{
}
} // verus!
