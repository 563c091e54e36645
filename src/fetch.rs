//! The lookup of one unit as a sequence of remote calls, and the
//! all-or-nothing collation of the lookups of a run.
//!
//! A lookup never performs a call itself: it names the next call to make
//! (an [`Action`]) and is told what came back (an [`Event`]). Whoever owns
//! the connection to the service manager drives it.

use vstd::prelude::*;
use crate::results::ResultSet;
use crate::unit::{
    elapsed_secs, fix_unit_name, normalized, parse_state, stamp_for, time_since_transition,
    transition_stamp, ActiveState, TimestampKind, UnitInfo, UnitState,
};

verus! {

/// How a remote call failed.
#[derive(Clone, Copy, Debug, PartialEq, Eq, Structural)]
pub enum CallError {
    /// The manager does not know the unit.
    NotFound,
    /// The call did not complete: connection loss, timeout, bad reply.
    Transport,
}

/// Why a run fails.
#[derive(Clone, Debug, PartialEq, Eq)]
pub enum FetchError {
    /// The manager could not resolve a unit name.
    NotFound,
    /// A remote call failed.
    Transport,
    /// The manager reported a coarse state outside the known set; the text is
    /// what it sent.
    UnrecognizedState(String),
}

/// The error that a failed call turns into.
pub open spec fn call_failure(e: CallError) -> FetchError {
    match e {
        CallError::NotFound => FetchError::NotFound,
        CallError::Transport => FetchError::Transport,
    }
}

/// Where the lookup of one unit stands.
#[derive(Clone, Debug, PartialEq, Eq)]
pub enum Stage {
    /// Waiting for the manager to resolve the name to a handle.
    Resolving,
    /// Waiting for a view of the unit to be bound to the handle.
    Binding,
    /// Waiting for the coarse state.
    ReadingState,
    /// Waiting for the sub-state.
    ReadingSubState(ActiveState),
    /// Waiting for the timestamp of the entry into the coarse state.
    ReadingStamp(ActiveState, String),
    /// Done.
    Finished(UnitInfo),
    /// Given up.
    Failed(FetchError),
}

/// What a remote call handed back.
#[derive(Clone, Debug, PartialEq, Eq)]
pub enum Event {
    /// The name was resolved to a handle.
    Resolved,
    /// A view was bound to the handle.
    Bound,
    /// A text property was read.
    Text(String),
    /// A timestamp was read, in microseconds of the monotonic clock.
    Stamp(u64),
    /// The call failed.
    Failed(CallError),
}

/// The next thing to do for a lookup.
#[derive(Clone, Copy, Debug, PartialEq, Eq, Structural)]
pub enum Action {
    /// Ask the manager for the unit's handle.
    ResolveUnit,
    /// Bind a view of the unit to its handle.
    BindUnit,
    /// Read the unit's coarse state.
    ReadActiveState,
    /// Read the unit's sub-state.
    ReadSubState,
    /// Read the given transition timestamp.
    ReadStamp(TimestampKind),
    /// Nothing more to do: the lookup succeeded.
    Finish,
    /// Nothing more to do: the lookup failed.
    Abort,
}

/// The call that a stage waits for.
pub open spec fn action_of(stage: Stage) -> Action {
    match stage {
        Stage::Resolving => Action::ResolveUnit,
        Stage::Binding => Action::BindUnit,
        Stage::ReadingState => Action::ReadActiveState,
        Stage::ReadingSubState(_) => Action::ReadSubState,
        Stage::ReadingStamp(st, _) => Action::ReadStamp(stamp_for(st)),
        Stage::Finished(_) => Action::Finish,
        Stage::Failed(_) => Action::Abort,
    }
}

/// The stage after `event`, with `now_usec` the clock sample of the run.
/// Any failed call ends the lookup; an event that does not answer the
/// pending call leaves the stage as it is.
pub open spec fn next_stage(stage: Stage, now_usec: u64, event: Event) -> Stage {
    match stage {
        Stage::Finished(_) | Stage::Failed(_) => stage,
        _ => match event {
            Event::Failed(e) => Stage::Failed(call_failure(e)),
            Event::Resolved => if stage is Resolving { Stage::Binding } else { stage },
            Event::Bound => if stage is Binding { Stage::ReadingState } else { stage },
            Event::Text(text) => match stage {
                Stage::ReadingState => match parse_state(text@) {
                    Some(st) => Stage::ReadingSubState(st),
                    None => Stage::Failed(FetchError::UnrecognizedState(text)),
                },
                Stage::ReadingSubState(st) => Stage::ReadingStamp(st, text),
                _ => stage,
            },
            Event::Stamp(t) => match stage {
                Stage::ReadingStamp(st, sub) => Stage::Finished(
                    UnitInfo {
                        state: UnitState { state: st, sub_state: sub },
                        time_since_state_change: elapsed_secs(now_usec, t),
                    },
                ),
                _ => stage,
            },
        },
    }
}

/// A timestamp is read only while waiting for the entry into a known
/// state, and it is the one that marks the entry into that state; the
/// elapsed time is measured from that reading alone.
pub proof fn lemma_stamp_consulted(stage: Stage, now_usec: u64, t: u64)
    ensures
        forall|k: TimestampKind| action_of(stage) == Action::ReadStamp(k) ==> (match stage {
            Stage::ReadingStamp(st, _) => k == stamp_for(st),
            _ => false,
        }),
        match stage {
            Stage::ReadingStamp(st, sub) => next_stage(stage, now_usec, Event::Stamp(t)) == Stage::Finished(
                UnitInfo {
                    state: UnitState { state: st, sub_state: sub },
                    time_since_state_change: elapsed_secs(now_usec, t),
                },
            ),
            _ => true,
        },
{
}

/// A coarse-state text outside the known set ends the lookup with an error
/// that carries the text; it is never read as some state.
pub proof fn lemma_unrecognized_state_fails(now_usec: u64, text: String)
    requires
        !crate::unit::is_state_name(text@),
    ensures
        next_stage(Stage::ReadingState, now_usec, Event::Text(text)) == Stage::Failed(
            FetchError::UnrecognizedState(text),
        ),
{
}

/// The lookup of one unit.
#[derive(Clone, Debug)]
pub struct UnitLookup {
    /// The normalised identifier of the unit.
    pub unit: String,
    /// The monotonic clock, sampled once for the whole run, in microseconds.
    pub now_usec: u64,
    pub stage: Stage,
}

impl UnitLookup {
    /// Starts the lookup of the unit that `raw_name` names.
    pub fn new(raw_name: String, now_usec: u64) -> (r: UnitLookup)
        ensures
            r.unit@ == normalized(raw_name@),
            r.now_usec == now_usec,
            r.stage == Stage::Resolving,
    {
        UnitLookup { unit: fix_unit_name(raw_name), now_usec, stage: Stage::Resolving }
    }

    /// The call that the lookup waits for.
    pub fn action(&self) -> (r: Action)
        ensures
            r == action_of(self.stage),
    {
        match &self.stage {
            Stage::Resolving => Action::ResolveUnit,
            Stage::Binding => Action::BindUnit,
            Stage::ReadingState => Action::ReadActiveState,
            Stage::ReadingSubState(_) => Action::ReadSubState,
            Stage::ReadingStamp(st, _) => Action::ReadStamp(transition_stamp(*st)),
            Stage::Finished(_) => Action::Finish,
            Stage::Failed(_) => Action::Abort,
        }
    }

    /// Takes in what the pending call handed back and returns the next call.
    pub fn step(&mut self, event: Event) -> (r: Action)
        ensures
            final(self).unit == old(self).unit,
            final(self).now_usec == old(self).now_usec,
            final(self).stage == next_stage(old(self).stage, old(self).now_usec, event),
            r == action_of(final(self).stage),
    {
        let mut stage = Stage::Resolving;
        core::mem::swap(&mut stage, &mut self.stage);
        let next = match stage {
            Stage::Finished(info) => Stage::Finished(info),
            Stage::Failed(e) => Stage::Failed(e),
            stage => match event {
                Event::Failed(CallError::NotFound) => Stage::Failed(FetchError::NotFound),
                Event::Failed(CallError::Transport) => Stage::Failed(FetchError::Transport),
                Event::Resolved => match stage {
                    Stage::Resolving => Stage::Binding,
                    other => other,
                },
                Event::Bound => match stage {
                    Stage::Binding => Stage::ReadingState,
                    other => other,
                },
                Event::Text(text) => match stage {
                    Stage::ReadingState => match ActiveState::try_from(text.as_str()) {
                        Ok(st) => Stage::ReadingSubState(st),
                        Err(_) => Stage::Failed(FetchError::UnrecognizedState(text)),
                    },
                    Stage::ReadingSubState(st) => Stage::ReadingStamp(st, text),
                    other => other,
                },
                Event::Stamp(t) => match stage {
                    Stage::ReadingStamp(st, sub) => Stage::Finished(
                        UnitInfo {
                            state: UnitState { state: st, sub_state: sub },
                            time_since_state_change: time_since_transition(self.now_usec, t),
                        },
                    ),
                    other => other,
                },
            },
        };
        self.stage = next;
        self.action()
    }

    /// The identifier with the outcome of the lookup, once it is over.
    pub fn into_outcome(self) -> (r: (String, Option<Result<UnitInfo, FetchError>>))
        ensures
            r.0 == self.unit,
            r.1 == match self.stage {
                Stage::Finished(info) => Some(Ok(info)),
                Stage::Failed(e) => Some(Err(e)),
                _ => None::<Result<UnitInfo, FetchError>>,
            },
    {
        let out = match self.stage {
            Stage::Finished(info) => Some(Ok(info)),
            Stage::Failed(e) => Some(Err(e)),
            _ => None,
        };
        (self.unit, out)
    }
}

/// Starts one lookup per name given by the user, all measured against the
/// same clock sample.
pub fn start_lookups(raw_names: Vec<String>, now_usec: u64) -> (r: Vec<UnitLookup>)
    ensures
        r@.len() == raw_names@.len(),
        forall|i: int| 0 <= i < r@.len() ==> {
            &&& (#[trigger] r@[i]).unit@ == normalized(raw_names@[i]@)
            &&& r@[i].now_usec == now_usec
            &&& r@[i].stage == Stage::Resolving
        },
{
    let ghost names = raw_names@;
    let n = raw_names.len();
    let mut rest = raw_names;
    let mut out: Vec<UnitLookup> = Vec::new();
    let mut i: usize = 0;
    while rest.len() > 0
        invariant
            names == raw_names@,
            names.len() == n,
            i + rest@.len() == n,
            rest@ == names.subrange(i as int, n as int),
            out@.len() == i,
            forall|j: int| 0 <= j < i ==> {
                &&& (#[trigger] out@[j]).unit@ == normalized(names[j]@)
                &&& out@[j].now_usec == now_usec
                &&& out@[j].stage == Stage::Resolving
            },
        decreases rest@.len(),
    {
        let name = rest.remove(0);
        assert(name == names[i as int]);
        out.push(UnitLookup::new(name, now_usec));
        i = i + 1;
    }
    out
}

/// The first error among the outcomes, in the order given, with the
/// identifier of the unit whose lookup it ended.
pub open spec fn first_error(s: Seq<(String, Result<UnitInfo, FetchError>)>) -> Option<(String, FetchError)>
    decreases s.len(),
{
    if s.len() == 0 {
        None
    } else {
        match first_error(s.drop_last()) {
            Some(e) => Some(e),
            None => match s.last().1 {
                Err(e) => Some((s.last().0, e)),
                Ok(_) => None,
            },
        }
    }
}

/// The successful outcomes, keyed by identifier; a later outcome for the
/// same identifier replaces an earlier one.
pub open spec fn collected(s: Seq<(String, Result<UnitInfo, FetchError>)>) -> Map<Seq<char>, UnitInfo>
    decreases s.len(),
{
    if s.len() == 0 {
        Map::empty()
    } else {
        match s.last().1 {
            Ok(info) => collected(s.drop_last()).insert(s.last().0@, info),
            Err(_) => collected(s.drop_last()),
        }
    }
}

/// Gathers the outcomes of a run, given in the order in which the lookups
/// completed: the first error if there is one, with its unit and nothing
/// else kept; otherwise every unit's result under its identifier.
pub fn collate(outcomes: Vec<(String, Result<UnitInfo, FetchError>)>) -> (r: Result<ResultSet, (String, FetchError)>)
    ensures
        match r {
            Ok(set) => first_error(outcomes@) is None && set.wf() && set@ == collected(outcomes@),
            Err(e) => first_error(outcomes@) == Some(e),
        },
{
    let ghost all = outcomes@;
    let n = outcomes.len();
    let mut rest = outcomes;
    let mut set = ResultSet::new();
    let mut i: usize = 0;
    while rest.len() > 0
        invariant
            i + rest@.len() == all.len(),
            all.len() == n,
            all == outcomes@,
            rest@ == all.subrange(i as int, all.len() as int),
            set.wf(),
            first_error(all.subrange(0, i as int)) is None,
            set@ == collected(all.subrange(0, i as int)),
        decreases rest@.len(),
    {
        let ghost p = all.subrange(0, i + 1);
        let (unit, outcome) = rest.remove(0);
        proof {
            assert(p.drop_last() =~= all.subrange(0, i as int));
            assert(p.last() == all[i as int]);
            assert((unit, outcome) == all[i as int]);
        }
        match outcome {
            Ok(info) => {
                set.insert(unit, info);
            },
            Err(e) => {
                proof {
                    assert(first_error(p) == Some((unit, e)));
                    lemma_first_error_prefix(all, i + 1);
                }
                return Err((unit, e));
            },
        }
        i = i + 1;
    }
    assert(all.subrange(0, i as int) =~= all);
    Ok(set)
}

/// Once a prefix holds an error, the first error of the whole is that of
/// the prefix.
pub proof fn lemma_first_error_prefix(s: Seq<(String, Result<UnitInfo, FetchError>)>, n: int)
    requires
        0 <= n <= s.len(),
        first_error(s.subrange(0, n)) is Some,
    ensures
        first_error(s) == first_error(s.subrange(0, n)),
    decreases s.len() - n,
{
    if n < s.len() {
        assert(s.subrange(0, n + 1).drop_last() =~= s.subrange(0, n));
        lemma_first_error_prefix(s, n + 1);
    } else {
        assert(s.subrange(0, n) =~= s);
    }
}

} // verus!

verus! {

/// A run succeeds exactly when every lookup succeeded: a single error, of
/// any kind, fails the whole run.
pub proof fn lemma_any_error_fails_run(s: Seq<(String, Result<UnitInfo, FetchError>)>)
    ensures
        first_error(s) is None <==> forall|i: int| 0 <= i < s.len() ==> (#[trigger] s[i]).1 is Ok,
    decreases s.len(),
{
    if s.len() > 0 {
        let p = s.drop_last();
        lemma_any_error_fails_run(p);
        if first_error(s) is None {
            assert forall|i: int| 0 <= i < s.len() implies (#[trigger] s[i]).1 is Ok by {
                if i < p.len() {
                    assert(p[i] == s[i]);
                }
            }
        } else {
            if first_error(p) is Some {
                let i = choose|i: int| 0 <= i < p.len() && !((#[trigger] p[i]).1 is Ok);
                assert(p[i] == s[i]);
            }
        }
    }
}

/// The identifiers of a run's results are exactly those of its lookups.
pub proof fn lemma_collected_keys(s: Seq<(String, Result<UnitInfo, FetchError>)>)
    requires
        first_error(s) is None,
    ensures
        forall|k: Seq<char>| #[trigger] collected(s).contains_key(k) <==> exists|i: int| 0 <= i < s.len() && s[i].0@ == k,
    decreases s.len(),
{
    if s.len() > 0 {
        let p = s.drop_last();
        lemma_collected_keys(p);
        assert(s.last().1 is Ok);
        assert(collected(s) == collected(p).insert(s.last().0@, s.last().1->Ok_0));
        assert forall|k: Seq<char>| #[trigger] collected(s).contains_key(k) <==> exists|i: int| 0 <= i < s.len() && s[i].0@ == k by {
            if collected(s).contains_key(k) && k != s.last().0@ {
                let i = choose|i: int| 0 <= i < p.len() && p[i].0@ == k;
                assert(p[i] == s[i]);
            }
            if exists|i: int| 0 <= i < s.len() && s[i].0@ == k {
                let i = choose|i: int| 0 <= i < s.len() && s[i].0@ == k;
                if i < p.len() {
                    assert(p[i] == s[i]);
                }
            }
        }
    }
}

/// Two names that normalise to the same identifier give one entry in the
/// results, holding what the later lookup found.
pub proof fn lemma_same_identifier_one_entry(
    a: Seq<char>,
    b: Seq<char>,
    s: Seq<(String, Result<UnitInfo, FetchError>)>,
)
    requires
        normalized(a) == normalized(b),
        s.len() == 2,
        s[0].0@ == normalized(a),
        s[1].0@ == normalized(b),
        s[0].1 is Ok,
        s[1].1 is Ok,
    ensures
        collected(s).dom() == set![normalized(a)],
        collected(s)[normalized(a)] == s[1].1->Ok_0,
{
    assert(s.drop_last().drop_last() =~= Seq::<(String, Result<UnitInfo, FetchError>)>::empty());
    let p = s.drop_last();
    assert(p.last() == s[0]);
    assert(collected(p.drop_last()) == Map::<Seq<char>, UnitInfo>::empty());
    assert(collected(p) == Map::<Seq<char>, UnitInfo>::empty().insert(s[0].0@, s[0].1->Ok_0));
    assert(collected(s) == collected(p).insert(s[1].0@, s[1].1->Ok_0));
    assert(collected(s).dom() =~= set![normalized(a)]);
}

} // verus!
