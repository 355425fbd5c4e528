//! The silence gate.

use crate::level::{finite_or_zero, Level};
use vstd::prelude::*;

verus! {

/// The larger of two levels; where one is NaN, the other.
pub open spec fn larger(a: Level, b: Level) -> Level {
    if a.spec_is_nan() || a.less(b) {
        b
    } else {
        a
    }
}

fn larger_of(a: Level, b: Level) -> (out: Level)
    ensures
        out == larger(a, b),
{
    if a.is_nan() || a.is_less(b) {
        b
    } else {
        a
    }
}

/// Whether a stream is silent, judged with two thresholds so that a level near
/// one of them does not make the judgement flutter.
#[derive(Clone, Copy, Debug)]
pub struct SilenceGate {
    enter: Level,
    exit: Level,
    silent: bool,
}

impl SilenceGate {
    /// Below this level the stream falls silent.
    pub closed spec fn spec_enter(self) -> Level {
        self.enter
    }

    /// Above this level the stream is heard again.
    pub closed spec fn spec_exit(self) -> Level {
        self.exit
    }

    /// The stream is silent.
    pub closed spec fn spec_silent(self) -> bool {
        self.silent
    }

    /// A gate that begins silent; the level to be heard again is at least the
    /// level to fall silent.
    pub fn new(enter: Level, exit: Level) -> (out: Self)
        ensures
            out.spec_enter() == enter,
            out.spec_exit() == larger(exit, enter),
            out.spec_silent(),
    {
        SilenceGate { enter, exit: larger_of(exit, enter), silent: true }
    }

    /// Takes the next level, and says whether the stream is silent.
    pub fn update(&mut self, level: Level) -> (silent: bool)
        ensures
            final(self).spec_enter() == old(self).spec_enter(),
            final(self).spec_exit() == old(self).spec_exit(),
            final(self).spec_silent() == next_silent(
                old(self).spec_silent(),
                old(self).spec_enter(),
                old(self).spec_exit(),
                level,
            ),
            silent == final(self).spec_silent(),
    {
        let level = finite_or_zero(level);
        if self.silent {
            if self.exit.is_less(level) {
                self.silent = false;
            }
        } else if level.is_less(self.enter) {
            self.silent = true;
        }
        self.silent
    }
}

/// The judgement after `level`: a silent stream is heard once it rises above
/// `exit`, and a heard one falls silent once it sinks below `enter`; a level
/// that is no finite number counts as zero.
pub open spec fn next_silent(silent: bool, enter: Level, exit: Level, level: Level) -> bool {
    if silent {
        !exit.less(level.repaired())
    } else {
        level.repaired().less(enter)
    }
}

/// What is reported of a hop: `neutral` during silence, else `value`.
pub fn gated<T: Copy>(value: T, neutral: T, is_silent: bool) -> (out: T)
    ensures
        out == (if is_silent {
            neutral
        } else {
            value
        }),
{
    if is_silent {
        neutral
    } else {
        value
    }
}

// ---------------------------------------------------------------------------
// Laws
// ---------------------------------------------------------------------------
/// Between the two thresholds the judgement stays as it was.
pub proof fn law_gate_holds_between_thresholds(
    silent: bool,
    enter: Level,
    exit: Level,
    level: Level,
)
    requires
        enter.at_most(level),
        level.at_most(exit),
        level.spec_is_finite(),
    ensures
        next_silent(silent, enter, exit, level) == silent,
{
}

/// A level that has just changed the judgement does not change it back when it
/// stays, as long as the thresholds are in order.
pub proof fn law_gate_does_not_flutter(silent: bool, enter: Level, exit: Level, level: Level)
    requires
        enter.at_most(exit),
    ensures
        ({
            let next = next_silent(silent, enter, exit, level);
            next != silent ==> next_silent(next, enter, exit, level) == next
        }),
{
}

/// A silent stream is heard exactly where its level rises above the upper
/// threshold, and a heard one falls silent exactly where it sinks below the lower
/// one.
pub proof fn law_gate_opens_and_closes(enter: Level, exit: Level, level: Level)
    requires
        level.spec_is_finite(),
    ensures
        next_silent(true, enter, exit, level) <==> !exit.less(level),
        next_silent(false, enter, exit, level) <==> level.less(enter),
{
}

/// A level that is no finite number is judged as zero is.
pub proof fn law_bad_levels_count_as_zero(silent: bool, enter: Level, exit: Level, level: Level)
    requires
        !level.spec_is_finite(),
    ensures
        next_silent(silent, enter, exit, level) == next_silent(
            silent,
            enter,
            exit,
            Level::with_bits(0),
        ),
{
}

/// The larger of two numbers is one of them and not below the other; of a number
/// and what is none, it is the number.
pub proof fn law_larger_of_two(a: Level, b: Level)
    ensures
        larger(a, b) == a || larger(a, b) == b,
        !a.spec_is_nan() && !b.spec_is_nan() ==> a.at_most(larger(a, b)) && b.at_most(larger(a, b)),
        a.spec_is_nan() ==> larger(a, b) == b,
        b.spec_is_nan() && !a.spec_is_nan() ==> larger(a, b) == a,
{
}

/// During silence what is reported does not depend on what was found, and otherwise it
/// is what was found.
pub proof fn law_silence_is_neutral<T: Copy>(value: T, neutral: T, silent: T, heard: T)
    requires
        call_ensures(gated::<T>, (value, neutral, true), silent),
        call_ensures(gated::<T>, (value, neutral, false), heard),
    ensures
        silent == neutral,
        heard == value,
{
}

} // verus!
