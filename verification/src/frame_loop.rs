//! The decisions of the frame loop: which phase follows a tick, and how long
//! to wait after a frame.

use vstd::prelude::*;
use vstd::arithmetic::div_mod::{lemma_fundamental_div_mod, lemma_fundamental_div_mod_converse};
use crate::player::Player;
use crate::scene::{check_victory, spec_check_victory, Scene};

verus! {

/// The time after which a game is lost, in milliseconds.
pub const TIME_LIMIT_MILLIS: u64 = 120_000;

/// The number of frames shown per second.
pub const TARGET_FPS: u64 = 15;

/// Where the frame loop stands.
#[derive(Clone, Copy, Debug, PartialEq, Eq, Structural)]
pub enum Phase {
    /// The splash screen is shown until the confirm key goes down.
    Splash,
    /// The game runs: each tick draws one frame.
    Playing,
    /// The player reached the goal.
    Victory,
    /// The time limit passed.
    Timeout,
    /// The window was closed or the quit key pressed.
    Quit,
}

/// The loop's state between two ticks.
#[derive(Clone, Copy, Debug, PartialEq, Eq, Structural)]
pub struct LoopState {
    pub phase: Phase,
    /// Whether the confirm key was down at the last tick of the splash
    /// screen.
    pub confirm_held: bool,
}

/// What a tick samples from the window and the clock.
#[derive(Clone, Copy, Debug)]
pub struct TickInput {
    pub window_open: bool,
    pub quit_down: bool,
    pub confirm_down: bool,
    /// Milliseconds since the game began.
    pub elapsed_millis: u64,
}

/// Whether the loop has ended.
pub open spec fn is_terminal(phase: Phase) -> bool {
    phase == Phase::Victory || phase == Phase::Timeout || phase == Phase::Quit
}

/// Whether a tick that leads to `next` draws and presents a frame: the
/// splash image while the splash screen stays, the scene while the game
/// goes on, and nothing on the tick that ends the loop or leaves the splash
/// screen.
pub open spec fn spec_presents(before: Phase, next: Phase) -> bool {
    before == next && (next == Phase::Splash || next == Phase::Playing)
}

/// The state after a tick. `won` says whether the player, after this tick's
/// input, stands in the goal cell.
///
/// On the splash screen a closed window ends the loop, and the game starts
/// when the confirm key is down and was not at the tick before. In the game
/// a closed window or the quit key ends the loop; else the time limit does;
/// else reaching the goal does; else the game goes on. Once ended, the loop
/// stays as it is.
pub open spec fn spec_step(state: LoopState, input: TickInput, won: bool) -> LoopState {
    match state.phase {
        Phase::Splash => if !input.window_open {
            LoopState { phase: Phase::Quit, confirm_held: state.confirm_held }
        } else if input.confirm_down && !state.confirm_held {
            LoopState { phase: Phase::Playing, confirm_held: true }
        } else {
            LoopState { phase: Phase::Splash, confirm_held: input.confirm_down }
        },
        Phase::Playing => if !input.window_open || input.quit_down {
            LoopState { phase: Phase::Quit, confirm_held: state.confirm_held }
        } else if input.elapsed_millis >= TIME_LIMIT_MILLIS {
            LoopState { phase: Phase::Timeout, confirm_held: state.confirm_held }
        } else if won {
            LoopState { phase: Phase::Victory, confirm_held: state.confirm_held }
        } else {
            state
        },
        _ => state,
    }
}

/// The state in which the loop begins: the splash screen, the confirm key
/// not yet seen down.
pub fn initial_state() -> (state: LoopState)
    ensures
        state == (LoopState { phase: Phase::Splash, confirm_held: false }),
{
    LoopState { phase: Phase::Splash, confirm_held: false }
}

/// Decides what follows a tick. `player` is the player after this tick's
/// input was applied.
pub fn step(state: LoopState, input: &TickInput, player: &Player, scene: &Scene) -> (next: LoopState)
    ensures
        next == spec_step(state, *input, spec_check_victory(*player, scene.goal)),
        is_terminal(state.phase) ==> next == state,
        state.phase == Phase::Playing && spec_check_victory(*player, scene.goal) ==> !spec_presents(
            state.phase,
            next.phase,
        ),
{
    match state.phase {
        Phase::Splash => {
            if !input.window_open {
                LoopState { phase: Phase::Quit, confirm_held: state.confirm_held }
            } else if input.confirm_down && !state.confirm_held {
                LoopState { phase: Phase::Playing, confirm_held: true }
            } else {
                LoopState { phase: Phase::Splash, confirm_held: input.confirm_down }
            }
        },
        Phase::Playing => {
            if !input.window_open || input.quit_down {
                LoopState { phase: Phase::Quit, confirm_held: state.confirm_held }
            } else if input.elapsed_millis >= TIME_LIMIT_MILLIS {
                LoopState { phase: Phase::Timeout, confirm_held: state.confirm_held }
            } else if check_victory(player, scene) {
                LoopState { phase: Phase::Victory, confirm_held: state.confirm_held }
            } else {
                state
            }
        },
        _ => state,
    }
}

/// Whether the tick that led from `before` to `next` draws and presents a
/// frame.
pub fn presents(before: Phase, next: Phase) -> (drawn: bool)
    ensures
        drawn == spec_presents(before, next),
{
    match (before, next) {
        (Phase::Splash, Phase::Splash) => true,
        (Phase::Playing, Phase::Playing) => true,
        _ => false,
    }
}

/// The time between two frames at `fps` frames per second, in microseconds:
/// a second divided by `fps` and rounded up, so that `fps` intervals never
/// take less than a second.
pub open spec fn spec_frame_interval_micros(fps: int) -> int {
    (1_000_000int + fps - 1) / fps
}

/// How long to wait after a frame that took `elapsed` microseconds: what is
/// left of the interval, and nothing where the frame took longer.
pub open spec fn spec_pacing_delay_micros(interval: int, elapsed: int) -> int {
    if elapsed >= interval {
        0
    } else {
        interval - elapsed
    }
}

/// The time between two frames at `fps` frames per second, in microseconds,
/// rounded up: the least number of microseconds of which `fps` make a second
/// or more.
pub fn frame_interval_micros(fps: u64) -> (interval: u64)
    requires
        fps > 0,
    ensures
        interval == spec_frame_interval_micros(fps as int),
        interval * fps >= 1_000_000,
        (interval - 1) * fps < 1_000_000,
        1 <= interval <= 1_000_000,
{
    let whole: u64 = 1_000_000 / fps;
    let rest: u64 = 1_000_000 % fps;
    proof {
        lemma_fundamental_div_mod(1_000_000, fps as int);
        assert(1_000_000 == whole * fps + rest) by (nonlinear_arith)
            requires
                1_000_000 == fps * whole + rest,
        ;
        assert(whole <= 1_000_000) by (nonlinear_arith)
            requires
                1_000_000 == whole * fps + rest,
                fps >= 1,
                rest >= 0,
                whole >= 0,
        ;
        if rest == 0 {
            assert(1_000_000 + fps - 1 == whole * fps + (fps - 1));
            lemma_fundamental_div_mod_converse(1_000_000 + fps - 1, fps as int, whole as int, fps - 1);
            assert(whole >= 1) by (nonlinear_arith)
                requires
                    1_000_000 == whole * fps,
                    whole >= 0,
            ;
            assert((whole - 1) * fps < 1_000_000) by (nonlinear_arith)
                requires
                    1_000_000 == whole * fps,
                    fps >= 1,
            ;
        } else {
            assert(1_000_000 + fps - 1 == (whole + 1) * fps + (rest - 1)) by (nonlinear_arith)
                requires
                    1_000_000 == whole * fps + rest,
            ;
            lemma_fundamental_div_mod_converse(
                1_000_000 + fps - 1,
                fps as int,
                whole + 1,
                rest - 1,
            );
            assert((whole + 1) * fps >= 1_000_000) by (nonlinear_arith)
                requires
                    1_000_000 == whole * fps + rest,
                    rest < fps,
            ;
            assert(whole < 1_000_000) by (nonlinear_arith)
                requires
                    1_000_000 == whole * fps + rest,
                    fps >= 1,
                    rest >= 1,
                    whole >= 0,
            ;
        }
    }
    if rest == 0 {
        whole
    } else {
        whole + 1
    }
}

/// How long to wait after a frame that took `elapsed` microseconds, so that
/// frames are at least `interval` apart. A frame that took longer is followed
/// by no wait, and the time it ran over is not made up for later.
pub fn pacing_delay_micros(interval: u64, elapsed: u64) -> (delay: u64)
    ensures
        delay == spec_pacing_delay_micros(interval as int, elapsed as int),
        elapsed + delay >= interval,
        elapsed >= interval ==> delay == 0,
        elapsed < interval ==> elapsed + delay == interval,
{
    if elapsed >= interval {
        0
    } else {
        interval - elapsed
    }
}

/// The loop ends on the tick on which the player stands in the goal cell,
/// and that tick draws nothing.
pub proof fn lemma_victory_before_draw(state: LoopState, input: TickInput, won: bool)
    requires
        state.phase == Phase::Playing,
        input.window_open,
        !input.quit_down,
        input.elapsed_millis < TIME_LIMIT_MILLIS,
    ensures
        spec_step(state, input, won).phase == Phase::Victory <==> won,
        won ==> !spec_presents(state.phase, spec_step(state, input, won).phase),
        !won ==> spec_presents(state.phase, spec_step(state, input, won).phase),
{
}

/// A key that stays down starts the game at most once: after the tick that
/// saw it go down, the splash screen is left, and while it was already down
/// the splash screen stays.
pub proof fn lemma_confirm_edge(state: LoopState, input: TickInput, won: bool)
    requires
        state.phase == Phase::Splash,
        input.window_open,
    ensures
        spec_step(state, input, won).phase == Phase::Playing <==> (input.confirm_down
            && !state.confirm_held),
        spec_step(state, input, won).phase != Phase::Playing ==> spec_step(
            state,
            input,
            won,
        ).confirm_held == input.confirm_down,
{
}

} // verus!
