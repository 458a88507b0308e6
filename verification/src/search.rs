//! The per-scene quality search: a bisection over the quality grid driven by
//! one reduced metric score per probe. The state records which quality is
//! currently best and why; a ghost history of all probes lets the search's
//! soundness be stated and proved: no probe that satisfied the rule was
//! preferable to the chosen quality.
//!
//! Scores are held in thousandths of a metric unit, qualities on the
//! integer grid of the codec's `QualityRange`.

use vstd::prelude::*;

use crate::config::{Mode, QualityRule};
use crate::quality::{spec_midpoint, QualityRange};

verus! {

/// Magnitude bound on scores and targets, far beyond any metric value.
pub const SCORE_LIMIT: i64 = 1_000_000_000_000;

/// One completed probe: the grid quality that was encoded and the reduced
/// score that was measured.
pub struct Probe {
    pub q: int,
    pub v: int,
}

/// Whether a score satisfies the rule's predicate. A maximum rule caps the
/// metric at the target; a minimum rule demands at least the target. The
/// target rule has no predicate: it chases the closest score.
pub open spec fn spec_passes(rule: QualityRule, target: int, v: int) -> bool {
    match rule {
        QualityRule::Maximum => v <= target,
        QualityRule::Minimum => v >= target,
        QualityRule::Target => true,
    }
}

/// In which direction a rule prefers the quality parameter. On a bitrate
/// axis a maximum rule pushes the parameter up (spend all the allowed bits);
/// on a quality axis it pushes the parameter down (the strongest quality
/// still under the cap). The minimum rule mirrors both.
pub open spec fn spec_prefers_larger(rule: QualityRule, mode: Mode) -> bool {
    (rule == QualityRule::Maximum) == (mode == Mode::Bitrate)
}

/// Distance between a score and the target.
pub open spec fn spec_delta(target: int, v: int) -> int {
    if target >= v {
        target - v
    } else {
        v - target
    }
}

/// Whether a probe's score sends the search toward larger qualities: for
/// the maximum and minimum rules, a probe that satisfies the predicate moves
/// in the preferred direction and a failing one retreats; the target rule
/// moves up while the score is on the low-quality side of the target.
pub open spec fn spec_goes_higher(rule: QualityRule, mode: Mode, target: int, v: int) -> bool {
    if rule == QualityRule::Target {
        (mode == Mode::Bitrate && v <= target) || (mode != Mode::Bitrate && v >= target)
    } else {
        spec_passes(rule, target, v) == spec_prefers_larger(rule, mode)
    }
}

/// Whether a probe displaces the current best: for the maximum and minimum
/// rules, a passing probe strictly further in the preferred direction; for
/// the target rule, any probe strictly closer to the target (and always the
/// first probe).
pub open spec fn spec_adopts(
    rule: QualityRule,
    mode: Mode,
    target: int,
    best_quality: int,
    best_score: Option<int>,
    q: int,
    v: int,
) -> bool {
    if rule == QualityRule::Target {
        match best_score {
            None => true,
            Some(bs) => spec_delta(target, v) < spec_delta(target, bs),
        }
    } else {
        spec_passes(rule, target, v) && (if spec_prefers_larger(rule, mode) {
            q > best_quality
        } else {
            q < best_quality
        })
    }
}

/// The seed for the best quality: the least preferred end of the grid, so
/// that any passing probe displaces it.
pub open spec fn spec_seed(rule: QualityRule, mode: Mode, range: QualityRange) -> int {
    if spec_prefers_larger(rule, mode) {
        range.spec_minimum()
    } else {
        range.spec_maximum()
    }
}

/// The bisection state for one scene's search.
pub struct SearchState {
    range: QualityRange,
    rule: QualityRule,
    mode: Mode,
    target: i64,
    best_quality: i64,
    best_score: Option<i64>,
    probes: Ghost<Seq<Probe>>,
}

impl SearchState {
    pub closed spec fn spec_range(self) -> QualityRange {
        self.range
    }

    pub closed spec fn spec_rule(self) -> QualityRule {
        self.rule
    }

    pub closed spec fn spec_mode(self) -> Mode {
        self.mode
    }

    pub closed spec fn spec_target(self) -> int {
        self.target as int
    }

    pub closed spec fn spec_best_quality(self) -> int {
        self.best_quality as int
    }

    pub closed spec fn spec_best_score(self) -> Option<int> {
        match self.best_score {
            Some(v) => Some(v as int),
            None => None,
        }
    }

    /// Every probe made so far, oldest first.
    pub closed spec fn spec_probes(self) -> Seq<Probe> {
        self.probes@
    }

    /// Machine bounds: the interval is well formed and scores fit the
    /// arithmetic of the target rule.
    pub open spec fn wf(self) -> bool {
        &&& self.spec_range().wf()
        &&& -SCORE_LIMIT <= self.spec_target() <= SCORE_LIMIT
        &&& match self.spec_best_score() {
            Some(v) => -SCORE_LIMIT <= v <= SCORE_LIMIT,
            None => true,
        }
    }

    /// The search invariant. For the maximum and minimum rules: the chosen
    /// quality is never less preferred than any passing probe; a recorded
    /// best score belongs to a passing probe at the chosen quality; while no
    /// probe has been adopted, only the seed itself can have passed, and the
    /// seed sits at or beyond the preferred end of the live interval. For
    /// the target rule: the recorded best score is a probe's score at the
    /// chosen quality, and no probe came closer to the target.
    pub open spec fn inv(self) -> bool {
        let probes = self.spec_probes();
        let target = self.spec_target();
        let best_q = self.spec_best_quality();
        if self.spec_rule() == QualityRule::Target {
            match self.spec_best_score() {
                Some(bs) => probes.contains(Probe { q: best_q, v: bs }) && forall|i: int|
                    0 <= i < probes.len() ==> spec_delta(target, bs) <= spec_delta(
                        target,
                        (#[trigger] probes[i]).v,
                    ),
                None => probes.len() == 0,
            }
        } else {
            let larger = spec_prefers_larger(self.spec_rule(), self.spec_mode());
            &&& forall|i: int|
                0 <= i < probes.len() && spec_passes(
                    self.spec_rule(),
                    target,
                    (#[trigger] probes[i]).v,
                ) ==> if larger {
                    probes[i].q <= best_q
                } else {
                    probes[i].q >= best_q
                }
            &&& match self.spec_best_score() {
                Some(bs) => probes.contains(Probe { q: best_q, v: bs }) && spec_passes(
                    self.spec_rule(),
                    target,
                    bs,
                ),
                None => {
                    &&& forall|i: int|
                        0 <= i < probes.len() && spec_passes(
                            self.spec_rule(),
                            target,
                            (#[trigger] probes[i]).v,
                        ) ==> probes[i].q == best_q
                    &&& if larger {
                        best_q <= self.spec_range().spec_minimum()
                    } else {
                        best_q >= self.spec_range().spec_maximum()
                    }
                },
            }
        }
    }

    /// Opens a search over `range` for the given rule, mode and target
    /// (target in thousandths).
    pub fn new(range: QualityRange, rule: QualityRule, mode: Mode, target: i64) -> (r: Self)
        requires
            range.wf(),
            -SCORE_LIMIT <= target <= SCORE_LIMIT,
        ensures
            r.wf(),
            r.inv(),
            r.spec_range() == range,
            r.spec_rule() == rule,
            r.spec_mode() == mode,
            r.spec_target() == target as int,
            r.spec_best_quality() == spec_seed(rule, mode, range),
            r.spec_best_score() is None,
            r.spec_probes().len() == 0,
    {
        let best_quality = if (rule == QualityRule::Maximum) == (mode == Mode::Bitrate) {
            range.minimum()
        } else {
            range.maximum()
        };
        SearchState {
            range,
            rule,
            mode,
            target,
            best_quality,
            best_score: None,
            probes: Ghost(Seq::empty()),
        }
    }

    /// The next quality to probe, or `None` once the search is exhausted.
    pub fn current(&self) -> (r: Option<i64>)
        requires
            self.wf(),
        ensures
            self.spec_range().is_active() ==> r == Some(
                spec_midpoint(
                    self.spec_range().spec_minimum(),
                    self.spec_range().spec_maximum(),
                ) as i64,
            ),
            !self.spec_range().is_active() ==> r is None,
    {
        self.range.current()
    }

    /// The quality the search has settled on so far (the seed until a probe
    /// is adopted), on the grid.
    pub fn best_quality(&self) -> (r: i64)
        ensures
            r as int == self.spec_best_quality(),
    {
        self.best_quality
    }

    /// The score of the adopted probe, if any was adopted.
    pub fn best_score(&self) -> (r: Option<i64>)
        ensures
            r is Some <==> self.spec_best_score() is Some,
            r matches Some(v) ==> self.spec_best_score() == Some(v as int),
    {
        self.best_score
    }

    /// Whether probed values are whole numbers in user units.
    pub fn integer(&self) -> (r: bool)
        ensures
            r == (self.spec_range().spec_bitrate() || self.spec_range().spec_divisor() == 1),
    {
        self.range.integer()
    }

    /// The live interval's low endpoint, on the grid.
    pub fn minimum(&self) -> (r: i64)
        ensures
            r as int == self.spec_range().spec_minimum(),
    {
        self.range.minimum()
    }

    /// The live interval's high endpoint, on the grid.
    pub fn maximum(&self) -> (r: i64)
        ensures
            r as int == self.spec_range().spec_maximum(),
    {
        self.range.maximum()
    }

    /// Whether the rule's predicate holds of a score.
    pub fn passes(&self, v: i64) -> (r: bool)
        ensures
            r == spec_passes(self.spec_rule(), self.spec_target(), v as int),
    {
        match self.rule {
            QualityRule::Maximum => v <= self.target,
            QualityRule::Minimum => v >= self.target,
            QualityRule::Target => true,
        }
    }

    /// Feeds the reduced score measured at the current midpoint back into
    /// the search: adopt the probe if the rule prefers it, then discard the
    /// half of the interval the rule has no more use for. The interval's
    /// width at least halves, so a search makes a logarithmic number of
    /// probes.
    pub fn observe(&mut self, v: i64)
        requires
            old(self).wf(),
            old(self).inv(),
            old(self).spec_range().is_active(),
            -SCORE_LIMIT <= v <= SCORE_LIMIT,
        ensures
            final(self).wf(),
            final(self).inv(),
            final(self).spec_rule() == old(self).spec_rule(),
            final(self).spec_mode() == old(self).spec_mode(),
            final(self).spec_target() == old(self).spec_target(),
            final(self).spec_probes() == old(self).spec_probes().push(
                Probe {
                    q: spec_midpoint(
                        old(self).spec_range().spec_minimum(),
                        old(self).spec_range().spec_maximum(),
                    ),
                    v: v as int,
                },
            ),
            final(self).spec_range().width() <= old(self).spec_range().width() / 2,
            final(self).spec_range().width() >= (old(self).spec_range().width() - 1) / 2,
            final(self).spec_range().width() < old(self).spec_range().width(),
            crate::quality::probe_bound(final(self).spec_range().width()) < crate::quality::probe_bound(
                old(self).spec_range().width(),
            ),
            crate::quality::probe_floor(final(self).spec_range().width()) >= crate::quality::probe_floor(
                old(self).spec_range().width(),
            ) - 1,
            final(self).spec_range().spec_divisor() == old(self).spec_range().spec_divisor(),
            final(self).spec_range().spec_bitrate() == old(self).spec_range().spec_bitrate(),
            ({
                let q = spec_midpoint(
                    old(self).spec_range().spec_minimum(),
                    old(self).spec_range().spec_maximum(),
                );
                let adopts = spec_adopts(
                    old(self).spec_rule(),
                    old(self).spec_mode(),
                    old(self).spec_target(),
                    old(self).spec_best_quality(),
                    old(self).spec_best_score(),
                    q,
                    v as int,
                );
                &&& final(self).spec_best_quality() == if adopts {
                    q
                } else {
                    old(self).spec_best_quality()
                }
                &&& final(self).spec_best_score() == if adopts {
                    Some(v as int)
                } else {
                    old(self).spec_best_score()
                }
                &&& if spec_goes_higher(
                    old(self).spec_rule(),
                    old(self).spec_mode(),
                    old(self).spec_target(),
                    v as int,
                ) {
                    final(self).spec_range().spec_minimum() == q + 1
                        && final(self).spec_range().spec_maximum() == old(
                        self,
                    ).spec_range().spec_maximum()
                } else {
                    final(self).spec_range().spec_maximum() == q - 1
                        && final(self).spec_range().spec_minimum() == old(
                        self,
                    ).spec_range().spec_minimum()
                }
            }),
    {
        let q = self.range.midpoint();
        let ghost probe = Probe { q: q as int, v: v as int };
        proof {
            self.probes@ = self.probes@.push(probe);
        }
        match self.rule {
            QualityRule::Maximum | QualityRule::Minimum => {
                let pass = if self.rule == QualityRule::Maximum {
                    v <= self.target
                } else {
                    v >= self.target
                };
                let prefer_larger = (self.rule == QualityRule::Maximum) == (self.mode
                    == Mode::Bitrate);
                if pass {
                    let better = if prefer_larger {
                        q > self.best_quality
                    } else {
                        q < self.best_quality
                    };
                    if better {
                        self.best_quality = q;
                        self.best_score = Some(v);
                    }
                    if prefer_larger {
                        self.range.higher();
                    } else {
                        self.range.lower();
                    }
                } else {
                    if prefer_larger {
                        self.range.lower();
                    } else {
                        self.range.higher();
                    }
                }
                proof {
                    crate::quality::lemma_probe_budget_spent(
                        old(self).spec_range().width(),
                        self.range.width(),
                    );
                    crate::quality::lemma_probe_floor_spent(
                        old(self).spec_range().width(),
                        self.range.width(),
                    );
                    let newp = self.probes@;
                    let oldp = old(self).spec_probes();
                    assert(newp.contains(probe)) by {
                        assert(newp[newp.len() - 1] == probe);
                    };
                    match old(self).best_score {
                        Some(bs) => {
                            let bp = Probe { q: old(self).spec_best_quality(), v: bs as int };
                            let j = choose|j: int| 0 <= j < oldp.len() && oldp[j] == bp;
                            assert(newp[j] == bp);
                            assert(newp.contains(bp));
                        },
                        None => {},
                    }
                }
            },
            QualityRule::Target => {
                let adopt = match self.best_score {
                    None => true,
                    Some(bs) => {
                        let new_delta = if self.target >= v {
                            self.target - v
                        } else {
                            v - self.target
                        };
                        let current_delta = if self.target >= bs {
                            self.target - bs
                        } else {
                            bs - self.target
                        };
                        new_delta < current_delta
                    },
                };
                if adopt {
                    self.best_quality = q;
                    self.best_score = Some(v);
                }
                if (self.mode == Mode::Bitrate && v <= self.target) || (!(self.mode
                    == Mode::Bitrate) && v >= self.target) {
                    self.range.higher();
                } else {
                    self.range.lower();
                }
                proof {
                    crate::quality::lemma_probe_budget_spent(
                        old(self).spec_range().width(),
                        self.range.width(),
                    );
                    crate::quality::lemma_probe_floor_spent(
                        old(self).spec_range().width(),
                        self.range.width(),
                    );
                    let newp = self.probes@;
                    let oldp = old(self).spec_probes();
                    assert(newp.contains(probe)) by {
                        assert(newp[newp.len() - 1] == probe);
                    };
                    match old(self).best_score {
                        Some(bs) => {
                            let bp = Probe { q: old(self).spec_best_quality(), v: bs as int };
                            let j = choose|j: int| 0 <= j < oldp.len() && oldp[j] == bp;
                            assert(newp[j] == bp);
                            assert(newp.contains(bp));
                        },
                        None => {},
                    }
                }
            },
        }
    }
}

/// For the maximum and minimum rules, what the search promises once it is
/// over (and at every step along the way): the chosen quality's probe
/// satisfied the rule if anything did, and no probe that satisfied the rule
/// sat on the preferred side of the chosen quality.
pub proof fn lemma_search_sound(s: SearchState)
    requires
        s.wf(),
        s.inv(),
        s.spec_rule() != QualityRule::Target,
    ensures
        forall|i: int|
            0 <= i < s.spec_probes().len() && spec_passes(
                s.spec_rule(),
                s.spec_target(),
                (#[trigger] s.spec_probes()[i]).v,
            ) ==> if spec_prefers_larger(s.spec_rule(), s.spec_mode()) {
                s.spec_probes()[i].q <= s.spec_best_quality()
            } else {
                s.spec_probes()[i].q >= s.spec_best_quality()
            },
        (exists|i: int|
            0 <= i < s.spec_probes().len() && spec_passes(
                s.spec_rule(),
                s.spec_target(),
                (#[trigger] s.spec_probes()[i]).v,
            )) ==> (exists|i: int|
            0 <= i < s.spec_probes().len() && (#[trigger] s.spec_probes()[i]).q
                == s.spec_best_quality() && spec_passes(
                s.spec_rule(),
                s.spec_target(),
                s.spec_probes()[i].v,
            )),
{
    if exists|i: int|
        0 <= i < s.spec_probes().len() && spec_passes(
            s.spec_rule(),
            s.spec_target(),
            (#[trigger] s.spec_probes()[i]).v,
        ) {
        let i = choose|i: int|
            0 <= i < s.spec_probes().len() && spec_passes(
                s.spec_rule(),
                s.spec_target(),
                (#[trigger] s.spec_probes()[i]).v,
            );
        match s.spec_best_score() {
            Some(bs) => {
                let p = Probe { q: s.spec_best_quality(), v: bs };
                let j = choose|j: int| 0 <= j < s.spec_probes().len() && s.spec_probes()[j] == p;
                assert(s.spec_probes()[j].q == s.spec_best_quality() && spec_passes(
                    s.spec_rule(),
                    s.spec_target(),
                    s.spec_probes()[j].v,
                ));
            },
            None => {
                assert(s.spec_probes()[i].q == s.spec_best_quality());
            },
        }
    }
}

/// For the target rule: the recorded best score came from a probe at the
/// chosen quality, and no probe's score was strictly closer to the target.
pub proof fn lemma_target_sound(s: SearchState)
    requires
        s.wf(),
        s.inv(),
        s.spec_rule() == QualityRule::Target,
    ensures
        s.spec_best_score() matches Some(bs) ==> s.spec_probes().contains(
            Probe { q: s.spec_best_quality(), v: bs },
        ) && forall|i: int|
            0 <= i < s.spec_probes().len() ==> spec_delta(s.spec_target(), bs) <= spec_delta(
                s.spec_target(),
                (#[trigger] s.spec_probes()[i]).v,
            ),
        s.spec_best_score() is None ==> s.spec_probes().len() == 0,
{
}

} // verus!
