//! Deterministic rupture state machine.
//!
//! Transitions are driven by `rho = strain / (capacity + eps)`.  A candidate
//! rupture opens at the first upward crossing of `rho_rupture` and is
//! confirmed by an m-of-k rule over the bars since the crossing; a recovery
//! protocol with hysteresis leads back to the base classification.
//!
//! The whole transition relation is written down as the specification
//! function `sm_step`, and `StateMachine::update` is proved to implement it
//! exactly.

use vstd::prelude::*;
use crate::config::StateMachineConfig;
use crate::types::{RuptureEvent, RuptureState};

verus! {

/// Ghost model of one rupture event.
pub struct EventModel {
    pub candidate_index: int,
    pub candidate_ts: Seq<char>,
    pub confirmed: Option<(int, Seq<char>)>,
    pub peak_rho: int,
    pub k: int,
    pub m: int,
}

impl View for RuptureEvent {
    type V = EventModel;

    open spec fn view(&self) -> EventModel {
        EventModel {
            candidate_index: self.candidate_index as int,
            candidate_ts: self.candidate_timestamp@,
            confirmed: match (self.confirmed_index, &self.confirmed_timestamp) {
                (Some(i), Some(t)) => Some((i as int, t@)),
                _ => None,
            },
            peak_rho: self.peak_rho as int,
            k: self.confirmation_k as int,
            m: self.confirmation_m as int,
        }
    }
}

/// Ghost model of the machine between two bars.
pub struct SmModel {
    pub state: RuptureState,
    pub prev_rho: int,
    pub candidate: Option<(int, Seq<char>)>,
    pub peak: int,
    pub buffer: Seq<bool>,
    pub recovery: int,
    pub events: Seq<EventModel>,
}

/// The base classification from `rho` alone: both the critical and the
/// rupture threshold map to `Critical` when no candidate episode is active.
pub open spec fn base_state_spec(rho: int, cfg: StateMachineConfig) -> RuptureState {
    if rho >= cfg.rho_rupture {
        RuptureState::Critical
    } else if rho >= cfg.rho_critical {
        RuptureState::Critical
    } else if rho >= cfg.rho_stressed {
        RuptureState::Stressed
    } else {
        RuptureState::Stable
    }
}

/// How many entries of the confirmation buffer are set.
pub open spec fn count_true(s: Seq<bool>) -> int
    decreases s.len(),
{
    if s.len() == 0 {
        0
    } else {
        count_true(s.drop_last()) + if s.last() {
            1int
        } else {
            0int
        }
    }
}

/// The initial machine: stable, with no history.
pub open spec fn sm_init() -> SmModel {
    SmModel {
        state: RuptureState::Stable,
        prev_rho: 0,
        candidate: None,
        peak: 0,
        buffer: Seq::empty(),
        recovery: 0,
        events: Seq::empty(),
    }
}

/// One transition of the machine: the successor model, the reported state,
/// and the candidate and confirmed flags for this bar.
pub open spec fn sm_step(
    cfg: StateMachineConfig,
    m: SmModel,
    index: int,
    ts: Seq<char>,
    rho: int,
) -> (SmModel, RuptureState, bool, bool) {
    match m.state {
        RuptureState::Stable | RuptureState::Stressed | RuptureState::Critical => {
            if rho >= cfg.rho_rupture && m.prev_rho < cfg.rho_rupture {
                // First upward crossing: open a candidate episode; the
                // crossing bar itself counts as above threshold.
                let m2 = SmModel {
                    state: RuptureState::CandidateRupture,
                    prev_rho: rho,
                    candidate: Some((index, ts)),
                    peak: rho,
                    buffer: seq![true],
                    recovery: m.recovery,
                    events: m.events,
                };
                (m2, RuptureState::CandidateRupture, true, false)
            } else {
                let st = base_state_spec(rho, cfg);
                let m2 = SmModel {
                    state: st,
                    prev_rho: rho,
                    candidate: m.candidate,
                    peak: m.peak,
                    buffer: m.buffer,
                    recovery: m.recovery,
                    events: m.events,
                };
                (m2, st, false, false)
            }
        },
        RuptureState::CandidateRupture => {
            let buf = m.buffer.push(rho >= cfg.rho_rupture);
            let peak = if rho > m.peak {
                rho
            } else {
                m.peak
            };
            let ci = match m.candidate {
                Some(c) => c.0,
                None => index,
            };
            let cts = match m.candidate {
                Some(c) => c.1,
                None => Seq::empty(),
            };
            if buf.len() >= cfg.confirm_k {
                if count_true(buf) >= cfg.confirm_m {
                    // Confirmed rupture.
                    let e = EventModel {
                        candidate_index: ci,
                        candidate_ts: cts,
                        confirmed: Some((index, ts)),
                        peak_rho: peak,
                        k: cfg.confirm_k as int,
                        m: cfg.confirm_m as int,
                    };
                    let m2 = SmModel {
                        state: RuptureState::ConfirmedRupture,
                        prev_rho: rho,
                        candidate: None,
                        peak: peak,
                        buffer: Seq::empty(),
                        recovery: 0,
                        events: m.events.push(e),
                    };
                    (m2, RuptureState::ConfirmedRupture, false, true)
                } else {
                    // Failed confirmation: log the unconfirmed episode and
                    // revert to the base classification.
                    let e = EventModel {
                        candidate_index: ci,
                        candidate_ts: cts,
                        confirmed: None,
                        peak_rho: peak,
                        k: cfg.confirm_k as int,
                        m: cfg.confirm_m as int,
                    };
                    let st = base_state_spec(rho, cfg);
                    let m2 = SmModel {
                        state: st,
                        prev_rho: rho,
                        candidate: None,
                        peak: peak,
                        buffer: Seq::empty(),
                        recovery: m.recovery,
                        events: m.events.push(e),
                    };
                    (m2, st, false, false)
                }
            } else {
                let m2 = SmModel {
                    state: RuptureState::CandidateRupture,
                    prev_rho: rho,
                    candidate: m.candidate,
                    peak: peak,
                    buffer: buf,
                    recovery: m.recovery,
                    events: m.events,
                };
                (m2, RuptureState::CandidateRupture, false, false)
            }
        },
        RuptureState::ConfirmedRupture => {
            if cfg.enable_recovery && rho < cfg.rho_critical {
                if m.recovery + 1 >= cfg.recovery_hold {
                    let m2 = SmModel {
                        state: RuptureState::Recovery,
                        prev_rho: rho,
                        candidate: m.candidate,
                        peak: m.peak,
                        buffer: m.buffer,
                        recovery: 0,
                        events: m.events,
                    };
                    (m2, RuptureState::Recovery, false, false)
                } else {
                    let m2 = SmModel {
                        state: RuptureState::ConfirmedRupture,
                        prev_rho: rho,
                        candidate: m.candidate,
                        peak: m.peak,
                        buffer: m.buffer,
                        recovery: m.recovery + 1,
                        events: m.events,
                    };
                    (m2, RuptureState::ConfirmedRupture, false, false)
                }
            } else {
                let m2 = SmModel {
                    state: RuptureState::ConfirmedRupture,
                    prev_rho: rho,
                    candidate: m.candidate,
                    peak: m.peak,
                    buffer: m.buffer,
                    recovery: 0,
                    events: m.events,
                };
                (m2, RuptureState::ConfirmedRupture, false, false)
            }
        },
        RuptureState::Recovery => {
            let st = base_state_spec(rho, cfg);
            let m2 = SmModel {
                state: st,
                prev_rho: rho,
                candidate: m.candidate,
                peak: m.peak,
                buffer: m.buffer,
                recovery: m.recovery,
                events: m.events,
            };
            (m2, st, false, false)
        },
    }
}

/// Deterministic state machine for rupture detection.
pub struct StateMachine {
    cfg: StateMachineConfig,
    state: RuptureState,
    prev_rho: i128,
    candidate_index: Option<usize>,
    candidate_timestamp: Option<String>,
    candidate_peak_rho: i128,
    confirm_buffer: Vec<bool>,
    recovery_count: usize,
    events: Vec<RuptureEvent>,
}

impl View for StateMachine {
    type V = SmModel;

    closed spec fn view(&self) -> SmModel {
        SmModel {
            state: self.state,
            prev_rho: self.prev_rho as int,
            candidate: match (self.candidate_index, &self.candidate_timestamp) {
                (Some(i), Some(t)) => Some((i as int, t@)),
                _ => None,
            },
            peak: self.candidate_peak_rho as int,
            buffer: self.confirm_buffer@,
            recovery: self.recovery_count as int,
            events: self.events@.map_values(|e: RuptureEvent| e@),
        }
    }
}

impl StateMachine {
    /// The configuration in force.
    pub closed spec fn spec_cfg(&self) -> StateMachineConfig {
        self.cfg
    }

    /// Structural invariant of the machine between bars.
    pub open spec fn sm_inv(cfg: StateMachineConfig, m: SmModel) -> bool {
        &&& cfg.confirm_k >= 1
        &&& cfg.recovery_hold >= 1
        &&& (m.state == RuptureState::CandidateRupture <==> m.candidate is Some)
        &&& (m.state == RuptureState::CandidateRupture <==> m.buffer.len() >= 1)
        &&& m.buffer.len() <= cfg.confirm_k
        &&& 0 <= m.recovery < cfg.recovery_hold
    }

    /// The invariant as seen from outside.
    pub open spec fn inv(&self) -> bool {
        Self::sm_inv(self.spec_cfg(), self@)
    }

    /// Create a machine in the stable state.
    pub fn new(cfg: StateMachineConfig) -> (r: StateMachine)
        requires
            cfg.confirm_k >= 1,
            cfg.recovery_hold >= 1,
        ensures
            r.inv(),
            r.spec_cfg() == cfg,
            r@ == sm_init(),
    {
        let r = StateMachine {
            cfg,
            state: RuptureState::Stable,
            prev_rho: 0,
            candidate_index: None,
            candidate_timestamp: None,
            candidate_peak_rho: 0,
            confirm_buffer: Vec::new(),
            recovery_count: 0,
            events: Vec::new(),
        };
        proof {
            assert(r@.buffer =~= sm_init().buffer);
            assert(r@.events =~= sm_init().events);
        }
        r
    }

    /// Advance the machine one bar.  Returns the reported state and the
    /// candidate and confirmed flags, exactly as `sm_step` prescribes.
    pub fn update(&mut self, index: usize, timestamp: &str, rho: i128) -> (r: (
        RuptureState,
        bool,
        bool,
    ))
        requires
            old(self).inv(),
        ensures
            final(self).inv(),
            final(self).spec_cfg() == old(self).spec_cfg(),
            final(self)@ == sm_step(
                old(self).spec_cfg(),
                old(self)@,
                index as int,
                timestamp@,
                rho as int,
            ).0,
            r.0 == sm_step(
                old(self).spec_cfg(),
                old(self)@,
                index as int,
                timestamp@,
                rho as int,
            ).1,
            r.1 == sm_step(
                old(self).spec_cfg(),
                old(self)@,
                index as int,
                timestamp@,
                rho as int,
            ).2,
            r.2 == sm_step(
                old(self).spec_cfg(),
                old(self)@,
                index as int,
                timestamp@,
                rho as int,
            ).3,
    {
        let ghost step = sm_step(
            old(self).spec_cfg(),
            old(self)@,
            index as int,
            timestamp@,
            rho as int,
        );
        let mut candidate_flag = false;
        let mut confirmed_flag = false;
        match self.state {
            RuptureState::Stable | RuptureState::Stressed | RuptureState::Critical => {
                if rho >= self.cfg.rho_rupture && self.prev_rho < self.cfg.rho_rupture {
                    self.state = RuptureState::CandidateRupture;
                    self.candidate_index = Some(index);
                    self.candidate_timestamp = Some(timestamp.to_owned());
                    self.candidate_peak_rho = rho;
                    self.confirm_buffer = Vec::new();
                    self.confirm_buffer.push(true);
                    candidate_flag = true;
                    proof {
                        assert(self@.buffer =~= step.0.buffer);
                        assert(self@.events =~= step.0.events);
                    }
                } else {
                    self.state = base_state(rho, &self.cfg);
                }
            },
            RuptureState::CandidateRupture => {
                self.confirm_buffer.push(rho >= self.cfg.rho_rupture);
                if rho > self.candidate_peak_rho {
                    self.candidate_peak_rho = rho;
                }
                if self.confirm_buffer.len() >= self.cfg.confirm_k {
                    let above_count = count_above(&self.confirm_buffer);
                    let origin_index: usize = match self.candidate_index {
                        Some(i) => i,
                        None => index,
                    };
                    let origin_ts: String = match &self.candidate_timestamp {
                        Some(t) => t.clone(),
                        None => String::new(),
                    };
                    if above_count >= self.cfg.confirm_m {
                        self.state = RuptureState::ConfirmedRupture;
                        confirmed_flag = true;
                        let ev = RuptureEvent {
                            candidate_index: origin_index,
                            candidate_timestamp: origin_ts,
                            confirmed_index: Some(index),
                            confirmed_timestamp: Some(timestamp.to_owned()),
                            peak_rho: self.candidate_peak_rho,
                            confirmation_k: self.cfg.confirm_k,
                            confirmation_m: self.cfg.confirm_m,
                        };
                        let ghost pre_events = self.events@;
                        self.events.push(ev);
                        self.recovery_count = 0;
                        proof {
                            assert(self.events@.map_values(|e: RuptureEvent| e@) =~= pre_events
                                .map_values(|e: RuptureEvent| e@).push(ev@));
                        }
                    } else {
                        let ev = RuptureEvent {
                            candidate_index: origin_index,
                            candidate_timestamp: origin_ts,
                            confirmed_index: None,
                            confirmed_timestamp: None,
                            peak_rho: self.candidate_peak_rho,
                            confirmation_k: self.cfg.confirm_k,
                            confirmation_m: self.cfg.confirm_m,
                        };
                        let ghost pre_events = self.events@;
                        self.events.push(ev);
                        self.state = base_state(rho, &self.cfg);
                        proof {
                            assert(self.events@.map_values(|e: RuptureEvent| e@) =~= pre_events
                                .map_values(|e: RuptureEvent| e@).push(ev@));
                        }
                    }
                    self.candidate_index = None;
                    self.candidate_timestamp = None;
                    self.confirm_buffer = Vec::new();
                    proof {
                        assert(self@.buffer =~= step.0.buffer);
                    }
                }
            },
            RuptureState::ConfirmedRupture => {
                if self.cfg.enable_recovery && rho < self.cfg.rho_critical {
                    self.recovery_count = self.recovery_count + 1;
                    if self.recovery_count >= self.cfg.recovery_hold {
                        self.state = RuptureState::Recovery;
                        self.recovery_count = 0;
                    }
                } else {
                    self.recovery_count = 0;
                }
            },
            RuptureState::Recovery => {
                self.state = base_state(rho, &self.cfg);
            },
        }
        self.prev_rho = rho;
        proof {
            assert(self@.buffer =~= step.0.buffer);
            assert(self@.events =~= step.0.events);
            assert(self@ == step.0);
        }
        (self.state, candidate_flag, confirmed_flag)
    }

    /// The accumulated event log.
    pub fn events(&self) -> (r: &Vec<RuptureEvent>)
        ensures
            r@.map_values(|e: RuptureEvent| e@) == self@.events,
    {
        &self.events
    }
}

/// Count the set entries of the confirmation buffer.
fn count_above(buffer: &Vec<bool>) -> (r: usize)
    ensures
        r == count_true(buffer@),
        r <= buffer@.len(),
{
    let n = buffer.len();
    let mut cnt: usize = 0;
    let mut i: usize = 0;
    while i < n
        invariant
            i <= n,
            n == buffer@.len(),
            cnt == count_true(buffer@.subrange(0, i as int)),
            cnt <= i,
        decreases n - i,
    {
        proof {
            assert(buffer@.subrange(0, i + 1).drop_last() =~= buffer@.subrange(0, i as int));
            assert(buffer@.subrange(0, i + 1).last() == buffer@[i as int]);
        }
        if buffer[i] {
            cnt = cnt + 1;
        }
        i += 1;
    }
    proof {
        assert(buffer@.subrange(0, n as int) =~= buffer@);
    }
    cnt
}

/// Determine the base state from `rho` without candidate or confirmation
/// logic.
pub fn base_state(rho: i128, cfg: &StateMachineConfig) -> (r: RuptureState)
    ensures
        r == base_state_spec(rho as int, *cfg),
{
    if rho >= cfg.rho_rupture {
        RuptureState::Critical
    } else if rho >= cfg.rho_critical {
        RuptureState::Critical
    } else if rho >= cfg.rho_stressed {
        RuptureState::Stressed
    } else {
        RuptureState::Stable
    }
}

/// A step can land in `ConfirmedRupture` only from `CandidateRupture` or
/// from `ConfirmedRupture` itself: the candidate gate is never skipped.
pub proof fn lemma_confirmed_only_via_candidate(
    cfg: StateMachineConfig,
    m: SmModel,
    index: int,
    ts: Seq<char>,
    rho: int,
)
    requires
        sm_step(cfg, m, index, ts, rho).0.state == RuptureState::ConfirmedRupture,
        m.state != RuptureState::ConfirmedRupture,
    ensures
        m.state == RuptureState::CandidateRupture,
{
}

/// Fold a sequence of rho values through the machine.  Bar index and
/// timestamp influence only the logged event fields, never the state, so the
/// run uses placeholder labels.
pub open spec fn run_rhos(cfg: StateMachineConfig, m: SmModel, rhos: Seq<int>) -> SmModel
    decreases rhos.len(),
{
    if rhos.len() == 0 {
        m
    } else {
        run_rhos(cfg, sm_step(cfg, m, 0, Seq::empty(), rhos[0]).0, rhos.drop_first())
    }
}

/// While the machine is in `ConfirmedRupture`, the step is independent of
/// the bar index and timestamp.
pub proof fn lemma_confirmed_step_ignores_input(
    cfg: StateMachineConfig,
    m: SmModel,
    i1: int,
    t1: Seq<char>,
    i2: int,
    t2: Seq<char>,
    rho: int,
)
    requires
        m.state == RuptureState::ConfirmedRupture,
    ensures
        sm_step(cfg, m, i1, t1, rho) == sm_step(cfg, m, i2, t2, rho),
{
}

/// Recovery protocol: from a confirmed rupture with recovery enabled, a run
/// of `recovery_hold - recovery` consecutive bars with `rho` below
/// `rho_critical` ends in the `Recovery` state with the counter cleared.
pub proof fn lemma_recovery_after_hold(cfg: StateMachineConfig, m: SmModel, rhos: Seq<int>)
    requires
        m.state == RuptureState::ConfirmedRupture,
        cfg.enable_recovery,
        cfg.recovery_hold >= 1,
        0 <= m.recovery < cfg.recovery_hold,
        rhos.len() == cfg.recovery_hold - m.recovery,
        forall|i: int| 0 <= i < rhos.len() ==> #[trigger] rhos[i] < cfg.rho_critical,
    ensures
        run_rhos(cfg, m, rhos).state == RuptureState::Recovery,
        run_rhos(cfg, m, rhos).recovery == 0,
    decreases rhos.len(),
{
    let s1 = sm_step(cfg, m, 0, Seq::empty(), rhos[0]).0;
    if rhos.len() == 1 {
        assert(s1.state == RuptureState::Recovery);
        assert(run_rhos(cfg, s1, rhos.drop_first()) == s1);
    } else {
        assert(s1.state == RuptureState::ConfirmedRupture && s1.recovery == m.recovery + 1);
        assert forall|i: int|
            0 <= i < rhos.drop_first().len() implies #[trigger] rhos.drop_first()[i]
            < cfg.rho_critical by {
            assert(rhos.drop_first()[i] == rhos[i + 1]);
        }
        lemma_recovery_after_hold(cfg, s1, rhos.drop_first());
    }
}

/// After `Recovery`, the very next bar reclassifies by the base rule alone.
pub proof fn lemma_recovery_reclassifies(
    cfg: StateMachineConfig,
    m: SmModel,
    index: int,
    ts: Seq<char>,
    rho: int,
)
    requires
        m.state == RuptureState::Recovery,
    ensures
        sm_step(cfg, m, index, ts, rho).0.state == base_state_spec(rho, cfg),
        sm_step(cfg, m, index, ts, rho).1 == base_state_spec(rho, cfg),
{
}

/// Exactly one event is logged per candidate episode: the log grows by one
/// precisely when a full confirmation window resolves, and never otherwise.
pub proof fn lemma_one_event_per_episode(
    cfg: StateMachineConfig,
    m: SmModel,
    index: int,
    ts: Seq<char>,
    rho: int,
)
    ensures
        sm_step(cfg, m, index, ts, rho).0.events.len() == m.events.len() + (
        if m.state == RuptureState::CandidateRupture && m.buffer.len() + 1 >= cfg.confirm_k {
            1int
        } else {
            0int
        }),
{
}

} // verus!
