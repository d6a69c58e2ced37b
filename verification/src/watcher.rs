//! The change debouncer: a trailing-edge quiet-period state machine.

use vstd::prelude::*;

verus! {

/// What the debouncer is waiting for.
#[derive(Clone, Copy, Debug, PartialEq, Eq, Structural)]
pub enum DebounceState {
    /// No change has been seen since the last trigger.
    Idle,
    /// A change has been seen and the quiet timer is running.
    PendingQuiet,
}

/// What the debouncer is told.
#[derive(Clone, Copy, Debug, PartialEq, Eq, Structural)]
pub enum DebounceEvent {
    /// A watched path changed.
    Change,
    /// The quiet timer ran out with no change since it was last set.
    Tick,
}

/// What the engine has to do after a step.
#[derive(Clone, Copy, Debug, PartialEq, Eq, Structural)]
pub enum DebounceAction {
    /// Nothing.
    Ignore,
    /// Start the quiet timer anew, for the whole delay.
    ResetTimer,
    /// Create a backup now.
    BackupTrigger,
}

/// The transition table of the debouncer.
pub open spec fn step_spec(state: DebounceState, event: DebounceEvent) -> (DebounceState, DebounceAction) {
    match (state, event) {
        (_, DebounceEvent::Change) => (DebounceState::PendingQuiet, DebounceAction::ResetTimer),
        (DebounceState::PendingQuiet, DebounceEvent::Tick) => (DebounceState::Idle, DebounceAction::BackupTrigger),
        (DebounceState::Idle, DebounceEvent::Tick) => (DebounceState::Idle, DebounceAction::Ignore),
    }
}

/// One step of the debouncer: the next state and the action to take.
pub fn step(state: DebounceState, event: DebounceEvent) -> (r: (DebounceState, DebounceAction))
    ensures
        r == step_spec(state, event),
{
    match event {
        DebounceEvent::Change => (DebounceState::PendingQuiet, DebounceAction::ResetTimer),
        DebounceEvent::Tick => match state {
            DebounceState::PendingQuiet => (DebounceState::Idle, DebounceAction::BackupTrigger),
            DebounceState::Idle => (DebounceState::Idle, DebounceAction::Ignore),
        },
    }
}

/// Some path of the event is among the included paths.
pub open spec fn touches(paths: Seq<String>, included: Seq<String>) -> bool {
    exists|i: int, j: int|
        0 <= i < paths.len() && 0 <= j < included.len() && (#[trigger] paths[i])@ == (
        #[trigger] included[j])@
}

/// Whether a filesystem event, which names these paths, concerns the
/// profile: whether one of them is among the paths that its include
/// patterns match right now.
pub fn touches_included(paths: &Vec<String>, included: &Vec<String>) -> (r: bool)
    ensures
        r == touches(paths@, included@),
{
    let mut i: usize = 0;
    while i < paths.len()
        invariant
            i <= paths.len(),
            forall|a: int, b: int|
                0 <= a < i && 0 <= b < included.len() ==> (#[trigger] paths@[a])@ != (
                #[trigger] included@[b])@,
        decreases paths.len() - i,
    {
        let mut j: usize = 0;
        while j < included.len()
            invariant
                i < paths.len(),
                j <= included.len(),
                forall|b: int| 0 <= b < j ==> paths@[i as int]@ != (#[trigger] included@[b])@,
            decreases included.len() - j,
        {
            if paths[i] == included[j] {
                return true;
            }
            j += 1;
        }
        i += 1;
    }
    false
}

/// The step that a filesystem event causes: a change where the event
/// concerns the profile, and otherwise nothing, the state left as it is.
pub fn on_filesystem_event(state: DebounceState, paths: &Vec<String>, included: &Vec<String>) -> (r:
    (DebounceState, DebounceAction))
    ensures
        r == if touches(paths@, included@) {
            step_spec(state, DebounceEvent::Change)
        } else {
            (state, DebounceAction::Ignore)
        },
{
    if touches_included(paths, included) {
        step(state, DebounceEvent::Change)
    } else {
        (state, DebounceAction::Ignore)
    }
}

/// Times of change events that a debouncer can be run on: none earlier than
/// the one before it, and the last one early enough for its timer to end
/// within `u64`.
pub open spec fn valid_timeline(events: Seq<u64>, delay: u64) -> bool {
    &&& forall|i: int| 0 < i < events.len() ==> events[i - 1] <= #[trigger] events[i]
    &&& events.len() > 0 ==> events.last() + delay <= u64::MAX
}

/// The times at which backups are triggered when changes arrive at
/// `events`: each change sets the timer to run `delay` from then on, and a
/// change that arrives before the timer has run out puts the trigger off.
pub open spec fn trigger_times(events: Seq<u64>, delay: u64) -> Seq<int>
    decreases events.len(),
{
    if events.len() == 0 {
        Seq::empty()
    } else if events.len() == 1 {
        seq![events[0] + delay]
    } else {
        let earlier = trigger_times(events.drop_last(), delay);
        let n = events.len() as int;
        if events[n - 1] - events[n - 2] < delay {
            earlier.drop_last().push(events[n - 1] + delay)
        } else {
            earlier.push(events[n - 1] + delay)
        }
    }
}

/// Whether these times can be a debouncer's timeline.
pub fn is_valid_timeline(events: &Vec<u64>, delay: u64) -> (r: bool)
    ensures
        r == valid_timeline(events@, delay),
{
    let n = events.len();
    if n == 0 {
        return true;
    }
    if events[n - 1] > u64::MAX - delay {
        return false;
    }
    let mut i: usize = 1;
    while i < n
        invariant
            1 <= i <= n,
            n == events.len(),
            forall|k: int| 0 < k < i ==> events@[k - 1] <= #[trigger] events@[k],
        decreases n - i,
    {
        if events[i - 1] > events[i] {
            return false;
        }
        i += 1;
    }
    true
}

/// Runs the debouncer over a timeline of change events, the timer ticking
/// whenever it runs out, and returns the times of the backup triggers.
/// `None` where the times are no timeline.
pub fn replay(events: &Vec<u64>, delay: u64) -> (r: Option<Vec<u64>>)
    ensures
        r is Some <==> valid_timeline(events@, delay),
        r matches Some(times) ==> times@.map_values(|t: u64| t as int) == trigger_times(
            events@,
            delay,
        ),
{
    if !is_valid_timeline(events, delay) {
        return None;
    }
    let mut times: Vec<u64> = Vec::new();
    let mut state = DebounceState::Idle;
    let mut deadline: u64 = 0;
    let mut i: usize = 0;
    assert(events@.take(0) =~= Seq::<u64>::empty());
    while i < events.len()
        invariant
            i <= events.len(),
            valid_timeline(events@, delay),
            (state == DebounceState::Idle) == (i == 0),
            i == 0 ==> times@.len() == 0,
            i > 0 ==> deadline == events@[i - 1] + delay,
            i > 0 ==> times@.map_values(|t: u64| t as int).push(deadline as int) == trigger_times(
                events@.take(i as int),
                delay,
            ),
        decreases events.len() - i,
    {
        let t = events[i];
        proof {
            lemma_timeline_sorted(events@, delay, i as int, events@.len() - 1);
            let seen = events@.take(i + 1);
            assert(seen.drop_last() =~= events@.take(i as int));
            assert(seen[i as int] == t);
            if i > 0 {
                assert(seen[i - 1] == events@[i - 1]);
            }
        }
        if state == DebounceState::PendingQuiet && deadline <= t {
            let (next, action) = step(state, DebounceEvent::Tick);
            state = next;
            if action == DebounceAction::BackupTrigger {
                proof {
                    let before = times@.map_values(|t: u64| t as int);
                    assert(times@.push(deadline).map_values(|t: u64| t as int) =~= before.push(
                        deadline as int,
                    ));
                }
                times.push(deadline);
            }
        } else {
            proof {
                let before = times@.map_values(|t: u64| t as int);
                assert(before.push(deadline as int).drop_last() =~= before);
            }
        }
        let (next, _) = step(state, DebounceEvent::Change);
        state = next;
        deadline = t + delay;
        i += 1;
    }
    assert(events@.take(i as int) =~= events@);
    if state == DebounceState::PendingQuiet {
        let (_, action) = step(state, DebounceEvent::Tick);
        if action == DebounceAction::BackupTrigger {
            proof {
                let before = times@.map_values(|t: u64| t as int);
                assert(times@.push(deadline).map_values(|t: u64| t as int) =~= before.push(
                    deadline as int,
                ));
            }
            times.push(deadline);
        }
    } else {
        assert(times@.map_values(|t: u64| t as int) =~= Seq::<int>::empty());
    }
    Some(times)
}

/// On a timeline, an earlier place holds an earlier or equal time.
pub proof fn lemma_timeline_sorted(events: Seq<u64>, delay: u64, i: int, j: int)
    requires
        valid_timeline(events, delay),
        0 <= i <= j < events.len(),
    ensures
        events[i] <= events[j],
    decreases j - i,
{
    if i < j {
        lemma_timeline_sorted(events, delay, i, j - 1);
    }
}

/// Changes that each arrive less than `delay` after the one before.
pub open spec fn is_burst(events: Seq<u64>, delay: u64) -> bool {
    &&& events.len() > 0
    &&& forall|i: int| 0 < i < events.len() ==> (#[trigger] events[i]) - events[i - 1] < delay
}

/// After any change at all, the last trigger comes `delay` after the last
/// change.
pub proof fn lemma_last_trigger(events: Seq<u64>, delay: u64)
    requires
        events.len() > 0,
    ensures
        trigger_times(events, delay).len() > 0,
        trigger_times(events, delay).last() == events.last() + delay,
    decreases events.len(),
{
    if events.len() > 1 {
        lemma_last_trigger(events.drop_last(), delay);
    }
}

/// A burst of changes, however long, yields exactly one trigger, `delay`
/// after the last change of the burst.
pub proof fn law_burst_yields_one_trigger(events: Seq<u64>, delay: u64)
    requires
        is_burst(events, delay),
    ensures
        trigger_times(events, delay) =~= seq![events.last() + delay],
    decreases events.len(),
{
    if events.len() > 1 {
        let earlier = events.drop_last();
        assert forall|i: int| 0 < i < earlier.len() implies (#[trigger] earlier[i]) - earlier[i
            - 1] < delay by {
            assert(earlier[i] == events[i] && earlier[i - 1] == events[i - 1]);
        }
        law_burst_yields_one_trigger(earlier, delay);
        assert(events[events.len() - 1] - events[events.len() - 2] < delay);
    }
}

/// Where a change arrives `delay` or more after the one before it, the
/// changes up to there and the changes from there on trigger apart: the
/// quiet interval between them ends one run of triggers and the next
/// change starts another.
pub proof fn law_quiet_gap_separates(first: Seq<u64>, second: Seq<u64>, delay: u64)
    requires
        first.len() > 0,
        second.len() > 0,
        second.first() - first.last() >= delay,
    ensures
        trigger_times(first + second, delay) =~= trigger_times(first, delay) + trigger_times(
            second,
            delay,
        ),
    decreases second.len(),
{
    let all = first + second;
    let n = all.len() as int;
    if second.len() == 1 {
        assert(all.drop_last() =~= first);
        assert(all[n - 1] == second[0] && all[n - 2] == first.last());
    } else {
        let shorter = second.drop_last();
        assert(all.drop_last() =~= first + shorter);
        assert(shorter.first() == second.first());
        law_quiet_gap_separates(first, shorter, delay);
        lemma_last_trigger(shorter, delay);
        let m = second.len() as int;
        assert(all[n - 1] == second[m - 1] && all[n - 2] == second[m - 2]);
    }
}

/// Two bursts with a quiet interval of `delay` or more between them yield
/// two triggers, one after each burst.
pub proof fn law_two_bursts_yield_two_triggers(first: Seq<u64>, second: Seq<u64>, delay: u64)
    requires
        is_burst(first, delay),
        is_burst(second, delay),
        second.first() - first.last() >= delay,
    ensures
        trigger_times(first + second, delay) =~= seq![
            first.last() + delay,
            second.last() + delay,
        ],
{
    law_burst_yields_one_trigger(first, delay);
    law_burst_yields_one_trigger(second, delay);
    law_quiet_gap_separates(first, second, delay);
}

} // verus!
