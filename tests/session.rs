use pomodoro::session::{
    session_plan, Notice, Phase, PhaseKind, SessionConfig, Sound, Step,
};

fn config(work_minutes: u32, break_minutes: u32, cycles: u32) -> SessionConfig {
    SessionConfig { work_minutes, break_minutes, cycles }
}

fn runs(steps: &[Step]) -> Vec<Phase> {
    steps
        .iter()
        .filter_map(|s| match s {
            Step::Run(p) => Some(*p),
            _ => None,
        })
        .collect()
}

fn work(cycle: u32, seconds: u64) -> Phase {
    Phase { kind: PhaseKind::Work, cycle, seconds }
}

fn rest(cycle: u32, seconds: u64) -> Phase {
    Phase { kind: PhaseKind::Break, cycle, seconds }
}

#[test]
fn two_short_cycles() {
    let plan = session_plan(&config(1, 1, 2));
    assert_eq!(
        plan,
        vec![
            Step::Notify(Notice::WorkTime),
            Step::Play(Sound::Clock),
            Step::Run(work(1, 60)),
            Step::Play(Sound::Success),
            Step::Notify(Notice::TakeBreak),
            Step::Run(rest(1, 60)),
            Step::Play(Sound::EndBreak),
            Step::Notify(Notice::BackToWork),
            Step::EndCycle,
            Step::Notify(Notice::WorkTime),
            Step::Play(Sound::Clock),
            Step::Run(work(2, 60)),
            Step::Play(Sound::Success),
            Step::Notify(Notice::TakeBreak),
            Step::Run(rest(2, 60)),
            Step::EndCycle,
        ]
    );
    assert_eq!(runs(&plan), vec![work(1, 60), rest(1, 60), work(2, 60), rest(2, 60)]);
}

#[test]
fn one_cycle_has_no_transition_cue() {
    let plan = session_plan(&config(25, 5, 1));
    assert_eq!(runs(&plan), vec![work(1, 1500), rest(1, 300)]);
    assert!(!plan.contains(&Step::Notify(Notice::BackToWork)));
    assert!(!plan.contains(&Step::Play(Sound::EndBreak)));
}

#[test]
fn renderer_runs_twice_per_cycle_alternating() {
    let plan = session_plan(&config(25, 5, 4));
    let phases = runs(&plan);
    assert_eq!(phases.len(), 8);
    for (j, p) in phases.iter().enumerate() {
        let cycle = (j / 2 + 1) as u32;
        if j % 2 == 0 {
            assert_eq!(*p, work(cycle, 1500));
        } else {
            assert_eq!(*p, rest(cycle, 300));
        }
    }
}

#[test]
fn transition_cue_fires_once_fewer_than_cycles() {
    let plan = session_plan(&config(25, 5, 4));
    let cues = plan.iter().filter(|s| **s == Step::Notify(Notice::BackToWork)).count();
    assert_eq!(cues, 3);
    let sounds = plan.iter().filter(|s| **s == Step::Play(Sound::EndBreak)).count();
    assert_eq!(sounds, 3);
    let n = plan.len();
    assert_eq!(plan[n - 1], Step::EndCycle);
    assert_eq!(plan[n - 2], Step::Run(rest(4, 300)));
}

#[test]
fn zero_cycles_do_nothing() {
    let plan = session_plan(&config(25, 5, 0));
    assert!(plan.is_empty());
}

#[test]
fn every_work_phase_is_announced_by_notification_and_sound() {
    let plan = session_plan(&config(25, 5, 3));
    let notices = plan.iter().filter(|s| **s == Step::Notify(Notice::WorkTime)).count();
    assert_eq!(notices, 3);
    for (k, step) in plan.iter().enumerate() {
        if let Step::Run(p) = step {
            if p.kind == PhaseKind::Work {
                assert_eq!(plan[k - 2], Step::Notify(Notice::WorkTime));
                assert_eq!(plan[k - 1], Step::Play(Sound::Clock));
            }
        }
    }
}

#[test]
fn back_to_work_lies_between_break_and_next_work() {
    let plan = session_plan(&config(2, 1, 3));
    let mut found = 0;
    for (k, step) in plan.iter().enumerate() {
        if *step == Step::Notify(Notice::BackToWork) {
            found += 1;
            let before = runs(&plan[..k]);
            let after = runs(&plan[k + 1..]);
            let i = found as u32;
            assert_eq!(before.len(), 2 * found);
            assert_eq!(*before.last().unwrap(), rest(i, 60));
            assert_eq!(after[0], work(i + 1, 120));
        }
    }
    assert_eq!(found, 2);
}

#[test]
fn same_configuration_same_plan() {
    let c = config(3, 2, 5);
    assert_eq!(session_plan(&c), session_plan(&c));
}

#[test]
fn notice_messages() {
    assert_eq!(Notice::WorkTime.message(), "Work time!");
    assert_eq!(Notice::TakeBreak.message(), "Time to take a break!");
    assert_eq!(Notice::BackToWork.message(), "Back to work!");
}

#[test]
fn sound_paths() {
    assert_eq!(Sound::Clock.path(), "audio/clock.mp3");
    assert_eq!(Sound::Success.path(), "audio/success.mp3");
    assert_eq!(Sound::EndBreak.path(), "audio/endbreak.mp3");
}

#[test]
fn phase_announcements() {
    assert_eq!(work(1, 60).announcement(), "Work time! Cycle 1");
    assert_eq!(work(12, 60).announcement(), "Work time! Cycle 12");
    assert_eq!(rest(3, 60).announcement(), "Nice job! Time to take a break");
}
