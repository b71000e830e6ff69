//! Session options and their validation.

use vstd::prelude::*;
use crate::types::{Error, Source};
use crate::units::{clamp, clamp_unit, UNIT};
use crate::order::contains;

verus! {

/// The options of one session. Rates count millionths of a hertz, the
/// smoothing factor and the confidence threshold millionths.
#[derive(Clone, Debug)]
pub struct OpenConfig {
    pub hz: i64,
    pub smoothing_alpha: i64,
    pub min_confidence: i64,
    pub prefer_sources: Vec<Source>,
    pub disable_backends: Vec<Source>,
    pub discovery: bool,
    pub allow_mock: bool,
    pub diagnostics: bool,
    /// In milliseconds.
    pub fail_after: u64,
    pub persistence: bool,
}

/// What the host offers: the raw sources that were built in, and the two
/// switches of its environment.
pub struct Host {
    pub available: Vec<Source>,
    /// Desktop machines have no hinge: the hinge sources are not attempted.
    pub desktop_guard: bool,
    pub diagnostics: bool,
}

/// The validated options that arbitration works with.
pub struct InitConfig {
    pub hz: i64,
    pub smoothing_alpha: i64,
    pub min_confidence: i64,
    pub prefer_sources: Vec<Source>,
    pub disable_backends: Vec<Source>,
    pub discovery: bool,
    pub allow_mock: bool,
    pub diagnostics: bool,
    pub persistence: bool,
}

/// Whether some tag of `a` also occurs in `b`.
pub open spec fn overlaps(a: Seq<Source>, b: Seq<Source>) -> bool {
    exists|i: int| 0 <= i < a.len() && b.contains(#[trigger] a[i])
}

/// The message of the error for a rate that is not positive.
pub open spec fn rate_message() -> Seq<char> {
    "hz must be > 0"@
}

/// The message of the error for a source that is both preferred and
/// disabled.
pub open spec fn overlap_message() -> Seq<char> {
    "prefer_sources intersects disable_backends"@
}

fn intersects(a: &Vec<Source>, b: &Vec<Source>) -> (found: bool)
    ensures
        found == overlaps(a@, b@),
{
    let mut i: usize = 0;
    while i < a.len()
        invariant
            i <= a.len(),
            forall|j: int| 0 <= j < i ==> !b@.contains(#[trigger] a@[j]),
        decreases a.len() - i,
    {
        if contains(b, a[i]) {
            return true;
        }
        i += 1;
    }
    false
}

impl OpenConfig {
    /// The options with their defaults, at the rate `hz`.
    pub fn new(hz: i64) -> (cfg: OpenConfig)
        ensures
            cfg.hz == hz,
            cfg.smoothing_alpha == 250_000,
            cfg.min_confidence == 700_000,
            cfg.prefer_sources@ == Seq::<Source>::empty(),
            cfg.disable_backends@ == Seq::<Source>::empty(),
            cfg.discovery,
            !cfg.allow_mock,
            !cfg.diagnostics,
            cfg.fail_after == 3000,
            cfg.persistence,
    {
        OpenConfig {
            hz,
            smoothing_alpha: 250_000,
            min_confidence: 700_000,
            prefer_sources: Vec::new(),
            disable_backends: Vec::new(),
            discovery: true,
            allow_mock: false,
            diagnostics: false,
            fail_after: 3000,
            persistence: true,
        }
    }

    /// Sets the smoothing factor.
    pub fn smoothing(self, a: i64) -> (cfg: OpenConfig)
        ensures
            cfg == (OpenConfig { smoothing_alpha: a, ..self }),
    {
        let mut cfg = self;
        cfg.smoothing_alpha = a;
        cfg
    }

    /// Sets the score at which the liveness gate goes live.
    pub fn min_confidence(self, m: i64) -> (cfg: OpenConfig)
        ensures
            cfg == (OpenConfig { min_confidence: m, ..self }),
    {
        let mut cfg = self;
        cfg.min_confidence = m;
        cfg
    }

    /// Sets the sources to try first, the most wanted one first.
    pub fn prefer(self, v: Vec<Source>) -> (cfg: OpenConfig)
        ensures
            cfg == (OpenConfig { prefer_sources: v, ..self }),
    {
        let mut cfg = self;
        cfg.prefer_sources = v;
        cfg
    }

    /// Sets the sources that are never tried.
    pub fn disable(self, v: Vec<Source>) -> (cfg: OpenConfig)
        ensures
            cfg == (OpenConfig { disable_backends: v, ..self }),
    {
        let mut cfg = self;
        cfg.disable_backends = v;
        cfg
    }

    /// Sets whether the hinge sensor probes for its report.
    pub fn discovery(self, on: bool) -> (cfg: OpenConfig)
        ensures
            cfg == (OpenConfig { discovery: on, ..self }),
    {
        let mut cfg = self;
        cfg.discovery = on;
        cfg
    }

    /// Sets whether the synthetic source may be chosen.
    pub fn allow_mock(self, ok: bool) -> (cfg: OpenConfig)
        ensures
            cfg == (OpenConfig { allow_mock: ok, ..self }),
    {
        let mut cfg = self;
        cfg.allow_mock = ok;
        cfg
    }

    /// Sets whether the choice is announced.
    pub fn diagnostics(self, on: bool) -> (cfg: OpenConfig)
        ensures
            cfg == (OpenConfig { diagnostics: on, ..self }),
    {
        let mut cfg = self;
        cfg.diagnostics = on;
        cfg
    }

    /// Sets the time after which opening gives up, in milliseconds.
    pub fn fail_after(self, d: u64) -> (cfg: OpenConfig)
        ensures
            cfg == (OpenConfig { fail_after: d, ..self }),
    {
        let mut cfg = self;
        cfg.fail_after = d;
        cfg
    }

    /// Sets whether the last successful source is read and stored.
    pub fn persistence(self, on: bool) -> (cfg: OpenConfig)
        ensures
            cfg == (OpenConfig { persistence: on, ..self }),
    {
        let mut cfg = self;
        cfg.persistence = on;
        cfg
    }

    /// What `validate` hands back where it accepts the options: the
    /// smoothing factor and the threshold limited to the unit interval,
    /// everything else as it was.
    pub open spec fn normalized(self) -> OpenConfig {
        OpenConfig {
            smoothing_alpha: clamp(self.smoothing_alpha as int, 0, UNIT as int) as i64,
            min_confidence: clamp(self.min_confidence as int, 0, UNIT as int) as i64,
            ..self
        }
    }

    /// Whether `validate` accepts the options.
    pub open spec fn acceptable(self) -> bool {
        self.hz > 0 && !overlaps(self.prefer_sources@, self.disable_backends@)
    }

    /// Checks the options. A rate that is not positive is rejected, and so
    /// is a source that is both preferred and disabled.
    pub fn validate(self) -> (r: Result<OpenConfig, Error>)
        ensures
            self.hz <= 0 ==> (r matches Err(Error::Other(msg)) && msg@ == rate_message()),
            self.hz > 0 && overlaps(self.prefer_sources@, self.disable_backends@) ==> (r matches
            Err(Error::Other(msg)) && msg@ == overlap_message()),
            self.acceptable() ==> r == Ok::<OpenConfig, Error>(self.normalized()),
    {
        let mut cfg = self;
        if cfg.hz <= 0 {
            return Err(Error::Other("hz must be > 0".to_owned()));
        }
        cfg.smoothing_alpha = clamp_unit(cfg.smoothing_alpha);
        cfg.min_confidence = clamp_unit(cfg.min_confidence);
        if intersects(&cfg.prefer_sources, &cfg.disable_backends) {
            return Err(Error::Other("prefer_sources intersects disable_backends".to_owned()));
        }
        Ok(cfg)
    }
}

impl InitConfig {
    /// The options that arbitration works with, for accepted options
    /// `cfg` on `host`: the synthetic source is allowed only where the host
    /// has it, and diagnostics are on where either asks for them.
    pub open spec fn derived(cfg: OpenConfig, host: Host) -> InitConfig {
        InitConfig {
            hz: cfg.hz,
            smoothing_alpha: cfg.smoothing_alpha,
            min_confidence: cfg.min_confidence,
            prefer_sources: cfg.prefer_sources,
            disable_backends: cfg.disable_backends,
            discovery: cfg.discovery,
            allow_mock: cfg.allow_mock && host.available@.contains(Source::Mock),
            diagnostics: cfg.diagnostics || host.diagnostics,
            persistence: cfg.persistence,
        }
    }

    /// Validates `cfg` and derives the options that arbitration works
    /// with. Options that `validate` rejects are rejected here, with its
    /// error.
    pub fn from_open(cfg: OpenConfig, host: &Host) -> (r: Result<InitConfig, Error>)
        ensures
            cfg.hz <= 0 ==> (r matches Err(Error::Other(msg)) && msg@ == rate_message()),
            cfg.hz > 0 && overlaps(cfg.prefer_sources@, cfg.disable_backends@) ==> (r matches Err(
                Error::Other(msg),
            ) && msg@ == overlap_message()),
            cfg.acceptable() ==> r == Ok::<InitConfig, Error>(
                InitConfig::derived(cfg.normalized(), *host),
            ),
    {
        match cfg.validate() {
            Err(e) => Err(e),
            Ok(cfg) => {
                let mock_built = contains(&host.available, Source::Mock);
                Ok(
                    InitConfig {
                        hz: cfg.hz,
                        smoothing_alpha: cfg.smoothing_alpha,
                        min_confidence: cfg.min_confidence,
                        prefer_sources: cfg.prefer_sources,
                        disable_backends: cfg.disable_backends,
                        discovery: cfg.discovery,
                        allow_mock: cfg.allow_mock && mock_built,
                        diagnostics: cfg.diagnostics || host.diagnostics,
                        persistence: cfg.persistence,
                    },
                )
            },
        }
    }
}

} // verus!
