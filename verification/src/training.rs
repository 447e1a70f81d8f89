//! The bookkeeping of the hoverplate's training runs: when an episode takes another step, when
//! it ends and the agent is trained, and when the run is over.

use vstd::prelude::*;

verus! {

/// Where a training run stands.
#[derive(Clone, Copy, Debug, PartialEq, Eq, Structural)]
pub struct EpisodeCounters {
    /// The number of episodes finished so far.
    pub episode: usize,
    /// The steps taken in the current episode.
    pub episode_step: usize,
    /// Whether the environment ended the current episode.
    pub terminated: bool,
    /// Whether the environment cut the current episode short.
    pub truncated: bool,
}

/// What an update of a training run does.
#[derive(Clone, Copy, Debug, PartialEq, Eq, Structural)]
pub enum TrainingAction {
    /// Nothing: the run is paused, or the agent is still being trained.
    Wait,
    /// The current episode takes another step.
    Step,
    /// The current episode is over: its reward is recorded, the agent is trained and the
    /// hoverplate is spawned again for the next episode.
    EndEpisode,
    /// All episodes are done: the agent is kept as the trained one.
    Finish,
}

/// The counters at the start of a run.
pub open spec fn fresh_counters() -> EpisodeCounters {
    EpisodeCounters { episode: 0, episode_step: 0, terminated: false, truncated: false }
}

impl Default for EpisodeCounters {
    /// A run that has not started: no episode done, no step taken.
    fn default() -> (c: EpisodeCounters)
        ensures
            c == fresh_counters(),
    {
        EpisodeCounters { episode: 0, episode_step: 0, terminated: false, truncated: false }
    }
}

/// What an update does, as values: nothing while the run is paused or training; while episodes
/// remain, a step while the episode is shorter than `episode_length` and neither terminated nor
/// truncated, else the end of the episode, which counts it and resets the step and the flags;
/// once `max_episodes` are done, the end of the run.
pub open spec fn training_next(
    s: EpisodeCounters,
    active: bool,
    training_busy: bool,
    max_episodes: usize,
    episode_length: usize,
) -> (EpisodeCounters, TrainingAction) {
    if !active || training_busy {
        (s, TrainingAction::Wait)
    } else if s.episode < max_episodes {
        if s.episode_step < episode_length && !s.terminated && !s.truncated {
            (EpisodeCounters { episode_step: (s.episode_step + 1) as usize, ..s }, TrainingAction::Step)
        } else {
            (
                EpisodeCounters {
                    episode: (s.episode + 1) as usize,
                    episode_step: 0,
                    terminated: false,
                    truncated: false,
                },
                TrainingAction::EndEpisode,
            )
        }
    } else {
        (s, TrainingAction::Finish)
    }
}

/// One update of a training run (see [`training_next`]). `active` is whether the run is
/// running; `training_busy` whether the agent is still being trained on the last episode.
pub fn training_step(
    s: &EpisodeCounters,
    active: bool,
    training_busy: bool,
    max_episodes: usize,
    episode_length: usize,
) -> (r: (EpisodeCounters, TrainingAction))
    ensures
        r == training_next(*s, active, training_busy, max_episodes, episode_length),
{
    if !active || training_busy {
        return (*s, TrainingAction::Wait);
    }
    if s.episode < max_episodes {
        if s.episode_step < episode_length && !s.terminated && !s.truncated {
            (
                EpisodeCounters {
                    episode: s.episode,
                    episode_step: s.episode_step + 1,
                    terminated: s.terminated,
                    truncated: s.truncated,
                },
                TrainingAction::Step,
            )
        } else {
            (
                EpisodeCounters {
                    episode: s.episode + 1,
                    episode_step: 0,
                    terminated: false,
                    truncated: false,
                },
                TrainingAction::EndEpisode,
            )
        }
    } else {
        (*s, TrainingAction::Finish)
    }
}

/// A run never counts more than `max_episodes` episodes, and no episode takes more than
/// `episode_length` steps: updates keep both bounds.
pub proof fn lemma_training_bounds_kept(
    s: EpisodeCounters,
    active: bool,
    training_busy: bool,
    max_episodes: usize,
    episode_length: usize,
)
    requires
        s.episode <= max_episodes,
        s.episode_step <= episode_length,
    ensures
        training_next(s, active, training_busy, max_episodes, episode_length).0.episode
            <= max_episodes,
        training_next(s, active, training_busy, max_episodes, episode_length).0.episode_step
            <= episode_length,
{
}

/// Each update that ends an episode counts exactly one more episode and starts the next one
/// afresh; the run finishes only once `max_episodes` are counted.
pub proof fn lemma_episode_end_resets(
    s: EpisodeCounters,
    active: bool,
    training_busy: bool,
    max_episodes: usize,
    episode_length: usize,
)
    ensures
        ({
            let (n, a) = training_next(s, active, training_busy, max_episodes, episode_length);
            &&& a == TrainingAction::EndEpisode ==> n.episode == s.episode + 1 && n.episode_step == 0
                && !n.terminated && !n.truncated
            &&& a == TrainingAction::Finish ==> s.episode >= max_episodes && n == s
            &&& a == TrainingAction::Step ==> n.episode == s.episode && n.episode_step
                == s.episode_step + 1
        }),
{
}

} // verus!
