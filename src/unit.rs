//! Unit names, coarse unit states and the elapsed time since a state change.

use vstd::prelude::*;

verus! {

/// The unit-type suffixes that the service manager recognises.
pub open spec fn unit_suffixes() -> Seq<Seq<char>> {
    seq![
        ".service"@, ".socket"@, ".device"@, ".mount"@, ".automount"@, ".swap"@,
        ".target"@, ".path"@, ".timer"@, ".slice"@, ".scope"@,
    ]
}

/// `s` ends with `suffix`.
pub open spec fn ends_with(s: Seq<char>, suffix: Seq<char>) -> bool {
    suffix.len() <= s.len() && s.subrange(s.len() - suffix.len(), s.len() as int) == suffix
}

/// `name` ends with one of the recognised unit-type suffixes.
pub open spec fn has_unit_suffix(name: Seq<char>) -> bool {
    exists|i: int| 0 <= i < unit_suffixes().len() && ends_with(name, #[trigger] unit_suffixes()[i])
}

/// The canonical unit identifier for a name given by the user.
pub open spec fn normalized(name: Seq<char>) -> Seq<char> {
    if has_unit_suffix(name) {
        name
    } else {
        name + ".service"@
    }
}

/// The number of recognised unit-type suffixes.
pub const SUFFIX_COUNT: usize = 11;

fn suffix_at(i: usize) -> (s: &'static str)
    requires
        i < SUFFIX_COUNT,
    ensures
        s@ == unit_suffixes()[i as int],
{
    match i {
        0 => ".service",
        1 => ".socket",
        2 => ".device",
        3 => ".mount",
        4 => ".automount",
        5 => ".swap",
        6 => ".target",
        7 => ".path",
        8 => ".timer",
        9 => ".slice",
        _ => ".scope",
    }
}

/// Whether `s` ends with `suffix`, compared character by character.
pub fn str_ends_with(s: &str, suffix: &str) -> (r: bool)
    ensures
        r == ends_with(s@, suffix@),
{
    let n = s.unicode_len();
    let m = suffix.unicode_len();
    if m > n {
        return false;
    }
    let off: usize = n - m;
    let mut j: usize = 0;
    while j < m
        invariant
            n == s@.len(),
            m == suffix@.len(),
            off + m == n,
            j <= m,
            forall|k: int| 0 <= k < j ==> s@[off + k] == suffix@[k],
        decreases m - j,
    {
        if s.get_char(off + j) != suffix.get_char(j) {
            assert(s@.subrange(off as int, n as int)[j as int] != suffix@[j as int]);
            return false;
        }
        j = j + 1;
    }
    assert(s@.subrange(off as int, n as int) =~= suffix@);
    true
}

/// Whether `name` already ends with a recognised unit-type suffix.
pub fn is_valid_unit_name(name: &str) -> (r: bool)
    ensures
        r == has_unit_suffix(name@),
{
    let mut i: usize = 0;
    while i < SUFFIX_COUNT
        invariant
            i <= SUFFIX_COUNT,
            unit_suffixes().len() == SUFFIX_COUNT,
            forall|k: int| 0 <= k < i ==> !ends_with(name@, #[trigger] unit_suffixes()[k]),
        decreases SUFFIX_COUNT - i,
    {
        if str_ends_with(name, suffix_at(i)) {
            return true;
        }
        i = i + 1;
    }
    false
}

/// The canonical unit identifier for `name`: unchanged when it already ends
/// with a recognised suffix, otherwise with `.service` appended.
pub fn fix_unit_name(name: String) -> (r: String)
    ensures
        r@ == normalized(name@),
{
    if is_valid_unit_name(name.as_str()) {
        name
    } else {
        name.concat(".service")
    }
}

/// A name that already ends with a recognised suffix is its own identifier.
pub proof fn lemma_normalized_keeps_suffixed(name: Seq<char>)
    requires
        has_unit_suffix(name),
    ensures
        normalized(name) == name,
{
}

/// A name without a recognised suffix gets `.service` appended.
pub proof fn lemma_normalized_appends_service(name: Seq<char>)
    requires
        !has_unit_suffix(name),
    ensures
        normalized(name) == name + ".service"@,
{
}

/// Every identifier ends with a recognised suffix, and normalising it again
/// changes nothing.
pub proof fn lemma_normalized_is_identifier(name: Seq<char>)
    ensures
        has_unit_suffix(normalized(name)),
        normalized(normalized(name)) == normalized(name),
{
    if !has_unit_suffix(name) {
        let r = name + ".service"@;
        let sfx = unit_suffixes()[0];
        assert(r.subrange(r.len() - sfx.len(), r.len() as int) =~= sfx);
        assert(ends_with(r, unit_suffixes()[0]));
    }
}

/// A coarse unit state, as reported by the service manager.
#[derive(Clone, Copy, Debug, PartialEq, Eq, Structural)]
pub enum ActiveState {
    Active,
    Activating,
    Deactivating,
    Failed,
    Inactive,
    Reloading,
}

/// The wire name of each coarse state.
pub open spec fn state_name(st: ActiveState) -> Seq<char> {
    match st {
        ActiveState::Active => "active"@,
        ActiveState::Activating => "activating"@,
        ActiveState::Deactivating => "deactivating"@,
        ActiveState::Failed => "failed"@,
        ActiveState::Inactive => "inactive"@,
        ActiveState::Reloading => "reloading"@,
    }
}

/// `text` is the wire name of some coarse state.
pub open spec fn is_state_name(text: Seq<char>) -> bool {
    exists|st: ActiveState| #[trigger] state_name(st) == text
}

/// No two coarse states share a wire name.
pub proof fn lemma_state_name_injective(a: ActiveState, b: ActiveState)
    ensures
        state_name(a) == state_name(b) ==> a == b,
{
    reveal_strlit("active");
    reveal_strlit("activating");
    reveal_strlit("deactivating");
    reveal_strlit("failed");
    reveal_strlit("inactive");
    reveal_strlit("reloading");
    if state_name(a) == state_name(b) {
        assert(state_name(a).len() == state_name(b).len());
        assert(state_name(a)[0] == state_name(b)[0]);
        assert(state_name(a)[2] == state_name(b)[2]);
    }
}

/// The coarse state that a wire name names, if any.
pub open spec fn parse_state(text: Seq<char>) -> Option<ActiveState> {
    if is_state_name(text) {
        Some(choose|st: ActiveState| state_name(st) == text)
    } else {
        None
    }
}

/// A coarse-state string from the service manager that names none of the
/// known states.
#[derive(Clone, Debug, PartialEq, Eq)]
pub struct UnrecognizedState {
    pub text: String,
}

/// Whether two strings hold the same characters.
pub fn str_equal(a: &str, b: &str) -> (r: bool)
    ensures
        r == (a@ == b@),
{
    let n = a.unicode_len();
    if n != b.unicode_len() {
        return false;
    }
    let mut j: usize = 0;
    while j < n
        invariant
            n == a@.len(),
            n == b@.len(),
            j <= n,
            forall|k: int| 0 <= k < j ==> a@[k] == b@[k],
        decreases n - j,
    {
        if a.get_char(j) != b.get_char(j) {
            return false;
        }
        j = j + 1;
    }
    assert(a@ =~= b@);
    true
}

impl ActiveState {
    /// The wire name of this state.
    pub fn name(&self) -> (r: &'static str)
        ensures
            r@ == state_name(*self),
    {
        match self {
            ActiveState::Active => "active",
            ActiveState::Activating => "activating",
            ActiveState::Deactivating => "deactivating",
            ActiveState::Failed => "failed",
            ActiveState::Inactive => "inactive",
            ActiveState::Reloading => "reloading",
        }
    }

    /// Reads a coarse state from its wire name; any other text is refused.
    pub fn try_from(value: &str) -> (r: Result<ActiveState, UnrecognizedState>)
        ensures
            match r {
                Ok(st) => parse_state(value@) == Some(st) && state_name(st) == value@,
                Err(e) => parse_state(value@) is None && e.text@ == value@,
            },
    {
        let all: [ActiveState; 6] = [
            ActiveState::Active,
            ActiveState::Activating,
            ActiveState::Deactivating,
            ActiveState::Failed,
            ActiveState::Inactive,
            ActiveState::Reloading,
        ];
        let mut i: usize = 0;
        while i < 6
            invariant
                i <= 6,
                all@ == seq![
                    ActiveState::Active,
                    ActiveState::Activating,
                    ActiveState::Deactivating,
                    ActiveState::Failed,
                    ActiveState::Inactive,
                    ActiveState::Reloading,
                ],
                forall|k: int| 0 <= k < i ==> state_name(#[trigger] all@[k]) != value@,
            decreases 6 - i,
        {
            let st = all[i];
            if str_equal(st.name(), value) {
                proof {
                    let c = choose|c: ActiveState| state_name(c) == value@;
                    lemma_state_name_injective(c, st);
                }
                return Ok(st);
            }
            i = i + 1;
        }
        assert forall|st: ActiveState| state_name(st) != value@ by {
            match st {
                ActiveState::Active => assert(state_name(all@[0]) != value@),
                ActiveState::Activating => assert(state_name(all@[1]) != value@),
                ActiveState::Deactivating => assert(state_name(all@[2]) != value@),
                ActiveState::Failed => assert(state_name(all@[3]) != value@),
                ActiveState::Inactive => assert(state_name(all@[4]) != value@),
                ActiveState::Reloading => assert(state_name(all@[5]) != value@),
            }
        }
        Err(UnrecognizedState { text: value.to_string() })
    }
}

/// The four monotonic transition timestamps that the service manager keeps
/// for each unit.
#[derive(Clone, Copy, Debug, PartialEq, Eq, Structural)]
pub enum TimestampKind {
    InactiveExit,
    ActiveEnter,
    ActiveExit,
    InactiveEnter,
}

/// The timestamp that marks the entry into each coarse state.
pub open spec fn stamp_for(st: ActiveState) -> TimestampKind {
    match st {
        ActiveState::Active => TimestampKind::ActiveEnter,
        ActiveState::Activating => TimestampKind::InactiveExit,
        ActiveState::Deactivating => TimestampKind::ActiveExit,
        ActiveState::Failed => TimestampKind::InactiveEnter,
        ActiveState::Inactive => TimestampKind::InactiveEnter,
        ActiveState::Reloading => TimestampKind::ActiveEnter,
    }
}

/// The timestamp to read for a unit in state `state`.
pub fn transition_stamp(state: ActiveState) -> (r: TimestampKind)
    ensures
        r == stamp_for(state),
{
    match state {
        ActiveState::Active => TimestampKind::ActiveEnter,
        ActiveState::Activating => TimestampKind::InactiveExit,
        ActiveState::Deactivating => TimestampKind::ActiveExit,
        ActiveState::Failed => TimestampKind::InactiveEnter,
        ActiveState::Inactive => TimestampKind::InactiveEnter,
        ActiveState::Reloading => TimestampKind::ActiveEnter,
    }
}

/// Whole seconds from `transition_usec` to `now_usec`; zero where the
/// transition lies after the sample of the clock.
pub open spec fn elapsed_secs(now_usec: u64, transition_usec: u64) -> u64 {
    if transition_usec <= now_usec {
        ((now_usec - transition_usec) / 1_000_000) as u64
    } else {
        0
    }
}

/// Seconds elapsed since a transition, truncated, clamped at zero.
pub fn time_since_transition(now_usec: u64, transition_usec: u64) -> (r: u64)
    ensures
        r == elapsed_secs(now_usec, transition_usec),
{
    if transition_usec <= now_usec {
        (now_usec - transition_usec) / 1_000_000
    } else {
        0
    }
}

/// A unit's coarse state with the manager's finer sub-state, kept as text.
#[derive(Clone, Debug, PartialEq, Eq)]
pub struct UnitState {
    pub state: ActiveState,
    pub sub_state: String,
}

/// The status text `"{state} ({sub-state})"`.
pub open spec fn status_text(state: ActiveState, sub_state: Seq<char>) -> Seq<char> {
    state_name(state) + " ("@ + sub_state + ")"@
}

impl UnitState {
    /// The status text of this state, as shown to operators.
    pub fn to_string(&self) -> (r: String)
        ensures
            r@ == status_text(self.state, self.sub_state@),
    {
        let r = String::from_str(self.state.name());
        let r = r.concat(" (");
        let r = r.concat(self.sub_state.as_str());
        r.concat(")")
    }
}

/// What is reported of one unit: its state and the whole seconds since it
/// entered that state.
#[derive(Clone, Debug, PartialEq, Eq)]
pub struct UnitInfo {
    pub state: UnitState,
    pub time_since_state_change: u64,
}

} // verus!
