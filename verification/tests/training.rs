use prismata::training::{training_step, EpisodeCounters, TrainingAction};

fn counters(episode: usize, episode_step: usize, terminated: bool, truncated: bool) -> EpisodeCounters {
    EpisodeCounters { episode, episode_step, terminated, truncated }
}

#[test]
fn fresh_run_starts_at_zero() {
    assert_eq!(EpisodeCounters::default(), counters(0, 0, false, false));
}

#[test]
fn steps_until_the_episode_is_long_enough() {
    let (s, a) = training_step(&counters(0, 0, false, false), true, false, 100, 200);
    assert_eq!(a, TrainingAction::Step);
    assert_eq!(s, counters(0, 1, false, false));
    let (s, a) = training_step(&counters(3, 200, false, false), true, false, 100, 200);
    assert_eq!(a, TrainingAction::EndEpisode);
    assert_eq!(s, counters(4, 0, false, false));
}

#[test]
fn terminated_or_truncated_episodes_end_early() {
    let (s, a) = training_step(&counters(1, 5, true, false), true, false, 100, 200);
    assert_eq!(a, TrainingAction::EndEpisode);
    assert_eq!(s, counters(2, 0, false, false));
    let (_, a) = training_step(&counters(1, 5, false, true), true, false, 100, 200);
    assert_eq!(a, TrainingAction::EndEpisode);
}

#[test]
fn paused_or_busy_runs_wait() {
    let c = counters(1, 5, false, false);
    assert_eq!(training_step(&c, false, false, 100, 200), (c, TrainingAction::Wait));
    assert_eq!(training_step(&c, true, true, 100, 200), (c, TrainingAction::Wait));
}

#[test]
fn run_finishes_after_max_episodes() {
    let c = counters(100, 0, false, false);
    assert_eq!(training_step(&c, true, false, 100, 200), (c, TrainingAction::Finish));
}
