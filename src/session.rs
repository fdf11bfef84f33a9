//! The session: alternating work and break phases for a number of cycles, and
//! the notifications and sounds at the boundaries between them.
use vstd::prelude::*;
use vstd::string::StringExecFns;
use crate::clock::{decimal, phase_seconds, push_decimal};

verus! {

/// What a phase is for.
#[derive(Clone, Copy, Debug, PartialEq, Eq, Structural)]
pub enum PhaseKind {
    Work,
    Break,
}

/// A desktop notification sent at a phase boundary.
#[derive(Clone, Copy, Debug, PartialEq, Eq, Structural)]
pub enum Notice {
    /// Sent as each work phase starts.
    WorkTime,
    /// Sent as each break starts.
    TakeBreak,
    /// Sent as a break ends and another cycle follows.
    BackToWork,
}

/// A sound played, without waiting for it, at a phase boundary.
#[derive(Clone, Copy, Debug, PartialEq, Eq, Structural)]
pub enum Sound {
    /// Played as each work phase starts.
    Clock,
    /// Played as each work phase ends.
    Success,
    /// Played as a break ends and another cycle follows.
    EndBreak,
}

/// One interval to count down: its kind, its cycle (from 1) and its length.
#[derive(Clone, Copy, Debug, PartialEq, Eq, Structural)]
pub struct Phase {
    pub kind: PhaseKind,
    pub cycle: u32,
    pub seconds: u64,
}

/// One thing the session does, in order.
#[derive(Clone, Copy, Debug, PartialEq, Eq, Structural)]
pub enum Step {
    /// Send a notification.
    Notify(Notice),
    /// Start a sound and go on at once.
    Play(Sound),
    /// Announce the phase and count it down to its end.
    Run(Phase),
    /// A cycle is over.
    EndCycle,
}

/// The configuration of a session: phase lengths in minutes and the number
/// of (work, break) cycles.
#[derive(Clone, Copy, Debug, PartialEq, Eq, Structural)]
pub struct SessionConfig {
    pub work_minutes: u32,
    pub break_minutes: u32,
    pub cycles: u32,
}

/// The text of a notification.
pub open spec fn notice_text(n: Notice) -> Seq<char> {
    match n {
        Notice::WorkTime => "Work time!"@,
        Notice::TakeBreak => "Time to take a break!"@,
        Notice::BackToWork => "Back to work!"@,
    }
}

/// The audio file of a sound.
pub open spec fn sound_path(s: Sound) -> Seq<char> {
    match s {
        Sound::Clock => "audio/clock.mp3"@,
        Sound::Success => "audio/success.mp3"@,
        Sound::EndBreak => "audio/endbreak.mp3"@,
    }
}

/// The line printed as a phase starts.
pub open spec fn announcement_text(p: Phase) -> Seq<char> {
    match p.kind {
        PhaseKind::Work => "Work time! Cycle "@ + decimal(p.cycle as nat),
        PhaseKind::Break => "Nice job! Time to take a break"@,
    }
}

impl Notice {
    /// The text shown in the notification.
    pub fn message(&self) -> (r: &'static str)
        ensures
            r@ == notice_text(*self),
    {
        match self {
            Notice::WorkTime => "Work time!",
            Notice::TakeBreak => "Time to take a break!",
            Notice::BackToWork => "Back to work!",
        }
    }
}

impl Sound {
    /// The path of the audio file to play.
    pub fn path(&self) -> (r: &'static str)
        ensures
            r@ == sound_path(*self),
    {
        match self {
            Sound::Clock => "audio/clock.mp3",
            Sound::Success => "audio/success.mp3",
            Sound::EndBreak => "audio/endbreak.mp3",
        }
    }
}

impl Phase {
    /// The line printed as this phase starts.
    pub fn announcement(&self) -> (r: String)
        ensures
            r@ == announcement_text(*self),
    {
        match self.kind {
            PhaseKind::Work => {
                let mut s = String::from_str("Work time! Cycle ");
                push_decimal(&mut s, self.cycle as u64);
                s
            },
            PhaseKind::Break => String::from_str("Nice job! Time to take a break"),
        }
    }
}

/// The work phase of cycle `i`.
pub open spec fn work_phase(c: SessionConfig, i: nat) -> Phase {
    Phase { kind: PhaseKind::Work, cycle: i as u32, seconds: (c.work_minutes * 60) as u64 }
}

/// The break phase of cycle `i`.
pub open spec fn break_phase(c: SessionConfig, i: nat) -> Phase {
    Phase { kind: PhaseKind::Break, cycle: i as u32, seconds: (c.break_minutes * 60) as u64 }
}

/// The steps of cycle `i`: the work cue and the work phase, the break cue and
/// the break phase, then the cue back to work unless this is the last cycle.
pub open spec fn cycle_steps(c: SessionConfig, i: nat) -> Seq<Step> {
    let phases = Seq::empty()
        .push(Step::Notify(Notice::WorkTime))
        .push(Step::Play(Sound::Clock))
        .push(Step::Run(work_phase(c, i)))
        .push(Step::Play(Sound::Success))
        .push(Step::Notify(Notice::TakeBreak))
        .push(Step::Run(break_phase(c, i)));
    let with_cue = if i < c.cycles {
        phases.push(Step::Play(Sound::EndBreak)).push(Step::Notify(Notice::BackToWork))
    } else {
        phases
    };
    with_cue.push(Step::EndCycle)
}

/// The steps of cycles `1..=k`.
pub open spec fn cycles_steps(c: SessionConfig, k: nat) -> Seq<Step>
    decreases k,
{
    if k == 0 {
        Seq::empty()
    } else {
        cycles_steps(c, (k - 1) as nat) + cycle_steps(c, k)
    }
}

/// Everything a session does: every cycle, in order.
pub open spec fn session_steps(c: SessionConfig) -> Seq<Step> {
    cycles_steps(c, c.cycles as nat)
}

/// The steps of a session with configuration `config`, in the order they are
/// carried out.
pub fn session_plan(config: &SessionConfig) -> (r: Vec<Step>)
    ensures
        r@ == session_steps(*config),
{
    let c = *config;
    let work_seconds = phase_seconds(c.work_minutes);
    let break_seconds = phase_seconds(c.break_minutes);
    let mut steps: Vec<Step> = Vec::new();
    let mut i: u32 = 0;
    while i < c.cycles
        invariant
            i <= c.cycles,
            c == *config,
            work_seconds == c.work_minutes * 60,
            break_seconds == c.break_minutes * 60,
            steps@ == cycles_steps(c, i as nat),
        decreases c.cycles - i,
    {
        let ghost before = steps@;
        i = i + 1;
        steps.push(Step::Notify(Notice::WorkTime));
        steps.push(Step::Play(Sound::Clock));
        steps.push(Step::Run(Phase { kind: PhaseKind::Work, cycle: i, seconds: work_seconds }));
        steps.push(Step::Play(Sound::Success));
        steps.push(Step::Notify(Notice::TakeBreak));
        steps.push(Step::Run(Phase { kind: PhaseKind::Break, cycle: i, seconds: break_seconds }));
        if i < c.cycles {
            steps.push(Step::Play(Sound::EndBreak));
            steps.push(Step::Notify(Notice::BackToWork));
        }
        steps.push(Step::EndCycle);
        assert(steps@ =~= before + cycle_steps(c, i as nat));
    }
    steps
}

/// The phases that a sequence of steps counts down, in order.
pub open spec fn phase_runs(s: Seq<Step>) -> Seq<Phase>
    decreases s.len(),
{
    if s.len() == 0 {
        Seq::empty()
    } else {
        let rest = phase_runs(s.drop_last());
        match s.last() {
            Step::Run(p) => rest.push(p),
            _ => rest,
        }
    }
}

/// How many times the step `x` occurs in `s`.
pub open spec fn occurrences(s: Seq<Step>, x: Step) -> nat
    decreases s.len(),
{
    if s.len() == 0 {
        0
    } else {
        occurrences(s.drop_last(), x) + if s.last() == x {
            1nat
        } else {
            0nat
        }
    }
}

broadcast proof fn lemma_runs_push(s: Seq<Step>, x: Step)
    ensures
        #[trigger] phase_runs(s.push(x)) == match x {
            Step::Run(p) => phase_runs(s).push(p),
            _ => phase_runs(s),
        },
{
    assert(s.push(x).drop_last() =~= s);
}

broadcast proof fn lemma_occurrences_push(s: Seq<Step>, y: Step, x: Step)
    ensures
        #[trigger] occurrences(s.push(y), x) == occurrences(s, x) + if y == x {
            1nat
        } else {
            0nat
        },
{
    assert(s.push(y).drop_last() =~= s);
}

proof fn lemma_runs_append(a: Seq<Step>, b: Seq<Step>)
    ensures
        phase_runs(a + b) == phase_runs(a) + phase_runs(b),
    decreases b.len(),
{
    if b.len() == 0 {
        assert(a + b =~= a);
        assert(phase_runs(a) + phase_runs(b) =~= phase_runs(a));
    } else {
        let b0 = b.drop_last();
        assert(b0.push(b.last()) =~= b);
        assert((a + b0).push(b.last()) =~= a + b);
        lemma_runs_append(a, b0);
        lemma_runs_push(b0, b.last());
        lemma_runs_push(a + b0, b.last());
        assert(phase_runs(a + b) =~= phase_runs(a) + phase_runs(b));
    }
}

proof fn lemma_occurrences_append(a: Seq<Step>, b: Seq<Step>, x: Step)
    ensures
        occurrences(a + b, x) == occurrences(a, x) + occurrences(b, x),
    decreases b.len(),
{
    if b.len() == 0 {
        assert(a + b =~= a);
    } else {
        let b0 = b.drop_last();
        assert(b0.push(b.last()) =~= b);
        assert((a + b0).push(b.last()) =~= a + b);
        lemma_occurrences_append(a, b0, x);
        lemma_occurrences_push(b0, b.last(), x);
        lemma_occurrences_push(a + b0, b.last(), x);
    }
}

proof fn lemma_cycle_runs(c: SessionConfig, i: nat)
    ensures
        phase_runs(cycle_steps(c, i)) == seq![work_phase(c, i), break_phase(c, i)],
{
    broadcast use lemma_runs_push;

    assert(phase_runs(Seq::<Step>::empty()) == Seq::<Phase>::empty());
    assert(phase_runs(cycle_steps(c, i)) =~= seq![work_phase(c, i), break_phase(c, i)]);
}

proof fn lemma_cycle_occurrences(c: SessionConfig, i: nat, x: Step)
    requires
        x == Step::Notify(Notice::BackToWork) || x == Step::Play(Sound::EndBreak),
    ensures
        occurrences(cycle_steps(c, i), x) == if i < c.cycles {
            1nat
        } else {
            0nat
        },
{
    broadcast use lemma_occurrences_push;

    assert(occurrences(Seq::<Step>::empty(), x) == 0);
}

proof fn lemma_cycles_runs(c: SessionConfig, k: nat)
    ensures
        phase_runs(cycles_steps(c, k)).len() == 2 * k,
        forall|j: int|
            0 <= j < k ==> {
                &&& #[trigger] phase_runs(cycles_steps(c, k))[2 * j] == work_phase(c, (j + 1) as nat)
                &&& phase_runs(cycles_steps(c, k))[2 * j + 1] == break_phase(c, (j + 1) as nat)
            },
    decreases k,
{
    if k == 0 {
        assert(phase_runs(Seq::<Step>::empty()) == Seq::<Phase>::empty());
    } else {
        let k0 = (k - 1) as nat;
        lemma_cycles_runs(c, k0);
        lemma_runs_append(cycles_steps(c, k0), cycle_steps(c, k));
        lemma_cycle_runs(c, k);
        let runs = phase_runs(cycles_steps(c, k));
        let prev = phase_runs(cycles_steps(c, k0));
        assert forall|j: int| 0 <= j < k implies {
            &&& #[trigger] runs[2 * j] == work_phase(c, (j + 1) as nat)
            &&& runs[2 * j + 1] == break_phase(c, (j + 1) as nat)
        } by {
            if j < k0 {
                assert(runs[2 * j] == prev[2 * j]);
                assert(runs[2 * j + 1] == prev[2 * j + 1]);
            }
        }
    }
}

proof fn lemma_cycles_occurrences(c: SessionConfig, k: nat, x: Step)
    requires
        k <= c.cycles,
        x == Step::Notify(Notice::BackToWork) || x == Step::Play(Sound::EndBreak),
    ensures
        occurrences(cycles_steps(c, k), x) == if k == c.cycles && k > 0 {
            (k - 1) as nat
        } else {
            k
        },
    decreases k,
{
    if k == 0 {
        assert(occurrences(Seq::<Step>::empty(), x) == 0);
    } else {
        let k0 = (k - 1) as nat;
        lemma_cycles_occurrences(c, k0, x);
        lemma_occurrences_append(cycles_steps(c, k0), cycle_steps(c, k), x);
        lemma_cycle_occurrences(c, k, x);
    }
}

/// A session of `cycles` cycles counts down exactly twice as many phases,
/// alternating work and break: phase `2j` is the work phase of cycle `j + 1`,
/// phase `2j + 1` its break, each as long as the configuration says.
pub proof fn session_alternates_work_and_break(c: SessionConfig)
    ensures
        phase_runs(session_steps(c)).len() == 2 * c.cycles,
        forall|j: int|
            0 <= j < c.cycles ==> {
                &&& #[trigger] phase_runs(session_steps(c))[2 * j] == work_phase(c, (j + 1) as nat)
                &&& phase_runs(session_steps(c))[2 * j + 1] == break_phase(c, (j + 1) as nat)
            },
{
    lemma_cycles_runs(c, c.cycles as nat);
}

/// In a session of at least one cycle the cue back to work (its notification
/// and its sound) comes once fewer times than there are cycles, and never after
/// the last break: that break is the final phase, and only the end of its
/// cycle follows it.
pub proof fn back_to_work_between_cycles_only(c: SessionConfig)
    requires
        c.cycles >= 1,
    ensures
        occurrences(session_steps(c), Step::Notify(Notice::BackToWork)) == c.cycles - 1,
        occurrences(session_steps(c), Step::Play(Sound::EndBreak)) == c.cycles - 1,
        session_steps(c).len() >= 2,
        session_steps(c).last() == Step::EndCycle,
        session_steps(c)[session_steps(c).len() - 2] == Step::Run(break_phase(c, c.cycles as nat)),
{
    let n = c.cycles as nat;
    lemma_cycles_occurrences(c, n, Step::Notify(Notice::BackToWork));
    lemma_cycles_occurrences(c, n, Step::Play(Sound::EndBreak));
    let steps = session_steps(c);
    assert(steps == cycles_steps(c, (n - 1) as nat) + cycle_steps(c, n));
}

/// The steps of cycles `i + 1..=k`.
pub open spec fn cycles_after(c: SessionConfig, i: nat, k: nat) -> Seq<Step>
    decreases k,
{
    if k <= i {
        Seq::empty()
    } else {
        cycles_after(c, i, (k - 1) as nat) + cycle_steps(c, k)
    }
}

proof fn lemma_after_first_run(c: SessionConfig, i: nat, k: nat)
    requires
        i < k,
    ensures
        phase_runs(cycles_after(c, i, k)).len() > 0,
        phase_runs(cycles_after(c, i, k))[0] == work_phase(c, i + 1),
    decreases k,
{
    let k0 = (k - 1) as nat;
    lemma_runs_append(cycles_after(c, i, k0), cycle_steps(c, k));
    lemma_cycle_runs(c, k);
    if k0 == i {
        assert(phase_runs(Seq::<Step>::empty()) == Seq::<Phase>::empty());
        assert(cycles_after(c, i, k0) == Seq::<Step>::empty());
    } else {
        lemma_after_first_run(c, i, k0);
    }
}

proof fn lemma_locate_back_to_work(c: SessionConfig, k: nat, p: int)
    requires
        k <= c.cycles,
        0 <= p < cycles_steps(c, k).len(),
        cycles_steps(c, k)[p] == Step::Notify(Notice::BackToWork),
    ensures
        exists|i: nat|
            1 <= i <= k && i < c.cycles && #[trigger] cycles_steps(c, k).take(p) == cycles_steps(
                c,
                (i - 1) as nat,
            ) + cycle_steps(c, i).take(7) && cycles_steps(c, k).skip(p + 1) == seq![
                Step::EndCycle,
            ] + cycles_after(c, i, k),
    decreases k,
{
    if k == 0 {
        assert(false);
    } else {
        let k0 = (k - 1) as nat;
        let a = cycles_steps(c, k0);
        let b = cycle_steps(c, k);
        assert(cycles_steps(c, k) == a + b);
        if p < a.len() {
            assert(a[p] == (a + b)[p]);
            lemma_locate_back_to_work(c, k0, p);
            let i = choose|i: nat|
                1 <= i <= k0 && i < c.cycles && #[trigger] cycles_steps(c, k0).take(p)
                    == cycles_steps(c, (i - 1) as nat) + cycle_steps(c, i).take(7)
                    && cycles_steps(c, k0).skip(p + 1) == seq![Step::EndCycle] + cycles_after(c, i, k0);
            assert((a + b).take(p) =~= a.take(p));
            assert((a + b).skip(p + 1) =~= a.skip(p + 1) + b);
            assert(cycles_after(c, i, k) == cycles_after(c, i, k0) + b);
            assert(seq![Step::EndCycle] + cycles_after(c, i, k) =~= seq![Step::EndCycle]
                + cycles_after(c, i, k0) + b);
        } else {
            let q = p - a.len();
            assert(b[q] == (a + b)[p]);
            assert(q == 7 && k < c.cycles);
            assert((a + b).take(p) =~= a + b.take(7));
            assert((a + b).skip(p + 1) =~= seq![Step::EndCycle]);
            assert(cycles_after(c, k, k) == Seq::<Step>::empty());
            assert(seq![Step::EndCycle] + cycles_after(c, k, k) =~= seq![Step::EndCycle]);
        }
    }
}

/// Every notification back to work lies between a break and the next work
/// phase: before it, cycles `1..=i` have been counted down, the break of cycle
/// `i` last, for some `i` below the number of cycles; the first phase after it
/// is the work phase of cycle `i + 1`.
pub proof fn back_to_work_lies_between_break_and_work(c: SessionConfig, p: int)
    requires
        0 <= p < session_steps(c).len(),
        session_steps(c)[p] == Step::Notify(Notice::BackToWork),
    ensures
        exists|i: nat|
            1 <= i < c.cycles && {
                &&& #[trigger] phase_runs(session_steps(c).take(p)).len() == 2 * i
                &&& phase_runs(session_steps(c).take(p)).last() == break_phase(c, i)
                &&& phase_runs(session_steps(c).skip(p + 1)).len() > 0
                &&& phase_runs(session_steps(c).skip(p + 1))[0] == work_phase(c, i + 1)
            },
{
    broadcast use lemma_runs_push;

    let n = c.cycles as nat;
    lemma_locate_back_to_work(c, n, p);
    let i = choose|i: nat|
        1 <= i <= n && i < c.cycles && #[trigger] cycles_steps(c, n).take(p) == cycles_steps(
            c,
            (i - 1) as nat,
        ) + cycle_steps(c, i).take(7) && cycles_steps(c, n).skip(p + 1) == seq![Step::EndCycle]
            + cycles_after(c, i, n);
    let before = cycle_steps(c, i).take(7);
    assert(before =~= Seq::empty().push(Step::Notify(Notice::WorkTime)).push(
        Step::Play(Sound::Clock),
    ).push(Step::Run(work_phase(c, i))).push(Step::Play(Sound::Success)).push(
        Step::Notify(Notice::TakeBreak),
    ).push(Step::Run(break_phase(c, i))).push(Step::Play(Sound::EndBreak)));
    assert(phase_runs(Seq::<Step>::empty()) == Seq::<Phase>::empty());
    lemma_runs_append(cycles_steps(c, (i - 1) as nat), before);
    lemma_cycles_runs(c, (i - 1) as nat);
    lemma_runs_append(seq![Step::EndCycle], cycles_after(c, i, n));
    lemma_after_first_run(c, i, n);
    let after = phase_runs(session_steps(c).skip(p + 1));
    assert(after == phase_runs(seq![Step::EndCycle]) + phase_runs(cycles_after(c, i, n)));
}

/// The plan is a function of the configuration alone: two sessions with the
/// same configuration carry out the same steps, with the same phase lengths
/// and the same cue points.
pub proof fn session_plan_is_deterministic(c1: SessionConfig, c2: SessionConfig)
    requires
        c1 == c2,
    ensures
        session_steps(c1) == session_steps(c2),
        phase_runs(session_steps(c1)) == phase_runs(session_steps(c2)),
{
}

} // verus!
