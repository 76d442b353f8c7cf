//! Score, cleared-line and level bookkeeping: the classic per-event award
//! and the level-up rule.

use vstd::prelude::*;

verus! {

/// The base points awarded for clearing `n` rows in one event. Clearing
/// more than four rows at once cannot happen with a four-block piece and
/// earns no bonus.
pub open spec fn spec_points(n: int) -> int {
    if n == 1 {
        40
    } else if n == 2 {
        100
    } else if n == 3 {
        300
    } else if n == 4 {
        1200
    } else {
        0
    }
}

/// The base points awarded for clearing `cleared` rows in one event.
pub fn points(cleared: u32) -> (p: u32)
    ensures
        p == spec_points(cleared as int),
{
    match cleared {
        1 => 40,
        2 => 100,
        3 => 300,
        4 => 1200,
        _ => 0,
    }
}

/// The player's score, total number of cleared lines, and current level.
#[derive(Clone, Copy, Debug, PartialEq, Eq, Structural)]
pub struct ScoreKeeper {
    pub score: u64,
    pub lines: u64,
    pub level: u64,
}

impl ScoreKeeper {
    /// The bookkeeping invariant: the level starts at one and is exactly
    /// one more than the number of completed groups of five cleared
    /// lines.
    pub open spec fn wf(self) -> bool {
        &&& self.level >= 1
        &&& self.level - 1 == self.lines as int / 5
    }

    /// A fresh count: no points, no lines, level one.
    pub fn new() -> (s: ScoreKeeper)
        ensures
            s.score == 0,
            s.lines == 0,
            s.level == 1,
            s.wf(),
    {
        ScoreKeeper { score: 0, lines: 0, level: 1 }
    }

    /// Records one clear event of `cleared` rows: the score grows by the
    /// base points times one more than the current level (saturating at
    /// the counter's maximum), the line total grows by `cleared`, and the
    /// level rises by exactly one when the line total crosses a multiple
    /// of five, and otherwise stays. No counter ever decreases.
    pub fn record_clear(&mut self, cleared: u32)
        requires
            old(self).wf(),
            cleared <= 4,
            old(self).lines + cleared <= u64::MAX,
        ensures
            final(self).lines == old(self).lines + cleared,
            final(self).score == if old(self).score + spec_points(cleared as int) * (old(
                self,
            ).level + 1) <= u64::MAX {
                old(self).score + spec_points(cleared as int) * (old(self).level + 1)
            } else {
                u64::MAX as int
            },
            final(self).level == if final(self).lines as int / 5 > old(self).level - 1 {
                old(self).level + 1
            } else {
                old(self).level as int
            },
            final(self).wf(),
            final(self).score >= old(self).score,
            final(self).lines >= old(self).lines,
            final(self).level >= old(self).level,
            final(self).lines as int / 5 > old(self).lines as int / 5 ==> final(self).level == old(
                self,
            ).level + 1,
            final(self).lines as int / 5 == old(self).lines as int / 5 ==> final(self).level
                == old(self).level,
    {
        let pts = points(cleared) as u64;
        proof {
            let ghost lvl1 = old(self).level as int + 1;
            assert((pts as int) * lvl1 <= 1200 * lvl1) by (nonlinear_arith)
                requires
                    pts <= 1200,
                    lvl1 >= 1,
            ;
        }
        let wide: u128 = (pts as u128) * (self.level as u128 + 1);
        let total: u128 = (self.score as u128) + wide;
        self.score = if total > u64::MAX as u128 {
            u64::MAX
        } else {
            total as u64
        };
        self.lines = self.lines + (cleared as u64);
        proof {
            let l = old(self).lines as int;
            let c = cleared as int;
            assert(l / 5 <= (l + c) / 5 && (l + c) / 5 <= l / 5 + 1) by (nonlinear_arith)
                requires
                    0 <= l,
                    0 <= c <= 4,
            ;
        }
        if self.lines / 5 > self.level - 1 {
            self.level = self.level + 1;
        }
    }
}

} // verus!
