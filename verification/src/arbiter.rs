//! Backend arbitration: the walk over the candidate order, one attempt at
//! a time. The caller brings the sources up; this module decides which one
//! is next and what a success hands over.

use vstd::prelude::*;
use crate::backend::{
    backends_for, initial_confidence_of, note_of, period_of, profile, reported, routes,
    sample_period, stiffness_of, Backend,
};
use crate::config::{Host, InitConfig};
use crate::device::{AngleDevice, Pipeline};
use crate::gate::{drop_threshold, Gated};
use crate::intake::{initial_baseline_of, Intake};
use crate::order::{baseline, baseline_order, candidate_order, contains, order_candidates};
use crate::persist::PersistedState;
use crate::types::{AngleSample, Error, Source};
use crate::units::{clamp, clamp_unit, UNIT};

verus! {

/// Whether a candidate is attempted at all: the host must have it built
/// in, the hinge sources are left alone on a desktop, and the synthetic
/// source needs to be allowed.
pub open spec fn attemptable(
    source: Source,
    available: Seq<Source>,
    desktop_guard: bool,
    allow_mock: bool,
) -> bool {
    available.contains(source) && match source {
        Source::HingeFeature => !desktop_guard,
        Source::HingeHid => !desktop_guard,
        Source::Mock => allow_mock,
        _ => true,
    }
}

/// Which walked candidates are recorded as tried: all but a synthetic
/// source that is not allowed, which is passed over without an attempt.
pub open spec fn recorded(allow_mock: bool) -> spec_fn(Source) -> bool {
    |s: Source| s != Source::Mock || allow_mock
}

/// The tag that arbitration starts from: the persisted one, where
/// persistence is on.
pub open spec fn remembered(persistence: bool, persisted: PersistedState) -> Option<Source> {
    if persistence {
        persisted.last_source
    } else {
        None
    }
}

/// The message of the error for a host without any raw source.
pub open spec fn no_backends_message() -> Seq<char> {
    "no backends enabled; enable platform features"@
}

/// Whether the stored record is read before the walk starts: where
/// persistence is on, and only on a host that arbitration does not refuse
/// at once.
pub fn reads_record(init: &InitConfig, host: &Host) -> (yes: bool)
    ensures
        yes == (host.available@.len() > 0 && init.persistence),
{
    host.available.len() > 0 && init.persistence
}

/// What is recorded of a walk that allows the synthetic source is all of
/// it.
proof fn lemma_all_recorded(walk: Seq<Source>)
    ensures
        walk.filter(recorded(true)) == walk,
    decreases walk.len(),
{
    reveal(Seq::filter);
    if walk.len() > 0 {
        lemma_all_recorded(walk.drop_last());
        assert(walk.drop_last().push(walk.last()) =~= walk);
    }
}

/// The tried list is the walked part of the order, up to and including
/// the source that came up, with one exception: a synthetic source that is
/// not allowed is walked but not tried. Every other walked source is
/// tried, and nothing is tried that was not walked.
pub proof fn lemma_tried_is_the_walk(arbiter: Arbiter, source: Source)
    ensures
        arbiter.options().allow_mock ==> arbiter.tried() == arbiter.order().take(arbiter.walked()),
        !arbiter.options().allow_mock ==> !arbiter.tried().contains(Source::Mock),
        source != Source::Mock ==> (arbiter.tried().contains(source) <==> arbiter.order().take(
            arbiter.walked(),
        ).contains(source)),
{
    let walk = arbiter.order().take(arbiter.walked());
    let keep = recorded(arbiter.options().allow_mock);
    let tried = walk.filter(keep);
    if arbiter.options().allow_mock {
        lemma_all_recorded(walk);
    }
    if tried.contains(Source::Mock) {
        let i = choose|i: int| 0 <= i < tried.len() && tried[i] == Source::Mock;
        walk.lemma_filter_pred(keep, i);
    }
    if tried.contains(source) {
        walk.lemma_filter_contains_rev(keep, source);
    }
    if source != Source::Mock && walk.contains(source) {
        let i = choose|i: int| 0 <= i < walk.len() && walk[i] == source;
        walk.lemma_filter_contains(keep, i);
    }
}

/// What arbitration asks of its caller next.
pub enum Step {
    /// Try to bring up this source and report how it went.
    Attempt(Source),
    /// Every candidate was walked; the error lists those that were tried.
    Exhausted(Error),
}

/// The outcome of one arbitration.
pub struct SetupReport {
    pub chosen: Option<Source>,
    /// The candidates that were tried, the chosen one last.
    pub tried: Vec<Source>,
    pub used_synthetic: bool,
    /// In milliseconds.
    pub elapsed: u64,
}

/// What a successful arbitration hands over.
pub struct Opened {
    /// The device: the chosen backend's signal path behind its gate.
    pub device: Gated<Pipeline>,
    /// The entry of the signal path, for the producer.
    pub intake: Intake,
    /// The time between two readings, in nanoseconds.
    pub period: u64,
    pub report: SetupReport,
    /// The record to store, where persistence is on.
    pub persist: Option<PersistedState>,
    /// Whether the choice is to be announced on the diagnostic output.
    pub announce: bool,
}

/// The walk over the candidate order. Its caller attempts what `next`
/// hands out and calls `opened` once an attempt succeeded.
pub struct Arbiter {
    order: Vec<Source>,
    walked: usize,
    init: InitConfig,
    host: Host,
}

impl Arbiter {
    #[verifier::type_invariant]
    spec fn within(&self) -> bool {
        self.walked <= self.order@.len()
    }

    /// The candidate order of this session.
    pub closed spec fn order(&self) -> Seq<Source> {
        self.order@
    }

    /// How many candidates were walked.
    pub closed spec fn walked(&self) -> int {
        self.walked as int
    }

    /// The options of this session.
    pub closed spec fn options(&self) -> InitConfig {
        self.init
    }

    /// The host of this session.
    pub closed spec fn host(&self) -> Host {
        self.host
    }

    /// The candidates tried so far: those walked, in order, but for a
    /// synthetic source that was skipped because it is not allowed.
    pub open spec fn tried(&self) -> Seq<Source> {
        self.order().take(self.walked()).filter(recorded(self.options().allow_mock))
    }

    /// Whether this session attempts `source`.
    pub open spec fn attempts(&self, source: Source) -> bool {
        attemptable(
            source,
            self.host().available@,
            self.host().desktop_guard,
            self.options().allow_mock,
        )
    }

    /// The source whose attempt is under way: the last one walked, if it
    /// is one that this session attempts.
    pub open spec fn pending(&self) -> Option<Source> {
        if self.walked() > 0 && self.attempts(self.order()[self.walked() - 1]) {
            Some(self.order()[self.walked() - 1])
        } else {
            None
        }
    }

    /// Starts an arbitration. A host without any raw source is refused at
    /// once; else the candidate order is fixed and nothing is walked yet.
    pub fn start(init: InitConfig, persisted: PersistedState, host: Host) -> (r: Result<
        Arbiter,
        Error,
    >)
        ensures
            host.available@.len() == 0 ==> (r matches Err(Error::Backend(msg)) && msg@
                == no_backends_message()),
            host.available@.len() > 0 ==> (r matches Ok(arbiter) && arbiter.order()
                == candidate_order(
                baseline(),
                init.disable_backends@,
                remembered(init.persistence, persisted),
                init.prefer_sources@,
            ) && arbiter.walked() == 0 && arbiter.options() == init && arbiter.host() == host),
    {
        if host.available.len() == 0 {
            return Err(Error::Backend("no backends enabled; enable platform features".to_owned()));
        }
        let start = if init.persistence {
            persisted.last_source
        } else {
            None
        };
        let order = order_candidates(
            &baseline_order(),
            &init.disable_backends,
            start,
            &init.prefer_sources,
        );
        Ok(Arbiter { order, walked: 0, init, host })
    }

    fn can_attempt(&self, source: Source) -> (yes: bool)
        ensures
            yes == self.attempts(source),
    {
        contains(&self.host.available, source) && match source {
            Source::HingeFeature => !self.host.desktop_guard,
            Source::HingeHid => !self.host.desktop_guard,
            Source::Mock => self.init.allow_mock,
            _ => true,
        }
    }

    /// The candidates tried so far.
    pub fn tried_so_far(&self) -> (tried: Vec<Source>)
        ensures
            tried@ == self.tried(),
    {
        proof {
            use_type_invariant(self);
        }
        let ghost keep = recorded(self.init.allow_mock);
        let mut tried: Vec<Source> = Vec::new();
        let mut i: usize = 0;
        proof {
            reveal(Seq::filter);
            assert(self.order@.take(0).filter(keep) =~= Seq::<Source>::empty());
        }
        while i < self.walked
            invariant
                i <= self.walked <= self.order@.len(),
                keep == recorded(self.init.allow_mock),
                tried@ == self.order@.take(i as int).filter(keep),
            decreases self.walked - i,
        {
            let source = self.order[i];
            proof {
                self.order@.take(i as int).lemma_filter_push(source, keep);
                assert(self.order@.take(i as int).push(source) =~= self.order@.take(i + 1));
            }
            if source != Source::Mock || self.init.allow_mock {
                tried.push(source);
            }
            i += 1;
        }
        tried
    }

    /// Walks on to the next candidate that this session attempts. The
    /// candidates passed on the way are walked too; they count as tried,
    /// but for a synthetic source that is not allowed. When none is left,
    /// the error carries everything that was tried.
    pub fn next(&mut self) -> (step: Step)
        ensures
            final(self).order() == old(self).order(),
            final(self).options() == old(self).options(),
            final(self).host() == old(self).host(),
            old(self).walked() <= final(self).walked() <= old(self).order().len(),
            match step {
                Step::Attempt(source) => {
                    &&& final(self).walked() > old(self).walked()
                    &&& final(self).pending() == Some(source)
                    &&& forall|j: int|
                        old(self).walked() <= j < final(self).walked() - 1 ==> !old(self).attempts(
                            #[trigger] old(self).order()[j],
                        )
                },
                Step::Exhausted(error) => {
                    &&& final(self).walked() == old(self).order().len()
                    &&& forall|j: int|
                        old(self).walked() <= j < old(self).order().len() ==> !old(self).attempts(
                            #[trigger] old(self).order()[j],
                        )
                    &&& error matches Error::NoBackend { tried }
                    &&& tried@ == final(self).tried()
                    &&& tried@ == old(self).order().filter(
                        recorded(old(self).options().allow_mock),
                    )
                },
            },
    {
        proof {
            use_type_invariant(&*self);
        }
        while self.walked < self.order.len()
            invariant
                self.order@ == old(self).order@,
                self.init == old(self).init,
                self.host == old(self).host,
                old(self).walked <= self.walked <= self.order@.len(),
                forall|j: int|
                    old(self).walked <= j < self.walked ==> !old(self).attempts(
                        #[trigger] old(self).order@[j],
                    ),
            decreases self.order@.len() - self.walked,
        {
            let source = self.order[self.walked];
            self.walked = self.walked + 1;
            if self.can_attempt(source) {
                return Step::Attempt(source);
            }
        }
        let tried = self.tried_so_far();
        assert(self.order@.take(self.walked as int) =~= self.order@);
        Step::Exhausted(Error::NoBackend { tried })
    }

    /// Closes the arbitration after `backend` came up for the pending
    /// source. The device is the backend's signal path with the session's
    /// smoothing factor, behind a dormant gate with the session's
    /// threshold, limited to the unit interval as validation leaves it.
    /// Nothing is handed over where no attempt is under way or `backend`
    /// does not serve the pending source.
    pub fn opened(&self, backend: Backend, elapsed: u64) -> (r: Option<Opened>)
        ensures
            r is Some <==> (self.pending() matches Some(source) && routes(source).contains(
                backend,
            )),
            r matches Some(o) ==> {
                &&& o.report.chosen == self.pending()
                &&& o.report.tried@ == self.tried()
                &&& o.report.tried@.len() > 0
                &&& Some(o.report.tried@.last()) == self.pending()
                &&& o.report.used_synthetic == (self.pending() == Some(Source::Mock))
                &&& o.report.elapsed == elapsed
                &&& o.persist == if self.options().persistence {
                    Some(PersistedState { last_source: self.pending() })
                } else {
                    None
                }
                &&& o.announce == self.options().diagnostics
                &&& o.intake.kind() == backend
                &&& o.intake.level() == initial_baseline_of(backend)
                &&& o.period == period_of(backend, self.options().hz)
                &&& !o.device.is_live()
                &&& o.device.threshold() == clamp(
                    self.options().min_confidence as int,
                    0,
                    UNIT as int,
                )
                &&& o.device.floor() == drop_threshold(o.device.threshold())
                &&& o.device.device().alpha() == self.options().smoothing_alpha
                &&& o.device.device().details().source == reported(backend)
                &&& o.device.device().details().note@ == note_of(backend)
                &&& o.device.device().stiffness() == stiffness_of(backend)
                &&& o.device.device().score() == initial_confidence_of(backend)
                &&& o.device.device().published() == Seq::<AngleSample>::empty()
                &&& o.device.device().estimate() is None
                &&& o.device.device().window() == Seq::<i64>::empty()
            },
    {
        proof {
            use_type_invariant(self);
        }
        if self.walked == 0 {
            return None;
        }
        let source = self.order[self.walked - 1];
        if !self.can_attempt(source) {
            return None;
        }
        if !serves(source, backend) {
            return None;
        }
        proof {
            let before = self.order@.take(self.walked - 1);
            before.lemma_filter_push(source, recorded(self.init.allow_mock));
            assert(before.push(source) =~= self.order@.take(self.walked as int));
        }
        let p = profile(backend);
        let mut path = Pipeline::new(p.info, p.stiffness, p.initial_confidence);
        path.set_smoothing(self.init.smoothing_alpha);
        let device = Gated::wrap(path, clamp_unit(self.init.min_confidence));
        let tried = self.tried_so_far();
        let report = SetupReport {
            chosen: Some(source),
            tried,
            used_synthetic: source == Source::Mock,
            elapsed,
        };
        let persist = if self.init.persistence {
            Some(PersistedState::remember(source))
        } else {
            None
        };
        Some(
            Opened {
                device,
                intake: Intake::new(backend),
                period: sample_period(backend, self.init.hz),
                report,
                persist,
                announce: self.init.diagnostics,
            },
        )
    }
}

/// Whether `backend` is one of those that serve `source`.
pub fn serves(source: Source, backend: Backend) -> (yes: bool)
    ensures
        yes == routes(source).contains(backend),
{
    let list = backends_for(source);
    let mut i: usize = 0;
    while i < list.len()
        invariant
            i <= list.len(),
            list@ == routes(source),
            forall|j: int| 0 <= j < i ==> list@[j] != backend,
        decreases list.len() - i,
    {
        if list[i] == backend {
            return true;
        }
        i += 1;
    }
    false
}

} // verus!
