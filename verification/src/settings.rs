//! Settings of a benchmark's measurements. Every count is at least one.

use vstd::prelude::*;

verus! {

/// How the bootstrap draws its samples.
#[derive(Clone, Debug, PartialEq, Eq)]
pub struct BootstrapSettings {
    pub seed: u64,
    pub samples: Option<usize>,
}

impl BootstrapSettings {
    /// The number of samples, where one is given, is at least one.
    pub open spec fn wf(&self) -> bool {
        self.samples is Some ==> self.samples->0 >= 1
    }
}

impl Default for BootstrapSettings {
    fn default() -> (r: BootstrapSettings)
        ensures
            r.seed == 42,
            r.samples == Some(1000usize),
            r.wf(),
    {
        BootstrapSettings { seed: 42, samples: Some(1000) }
    }
}

/// How the error of a measurement is estimated.
#[derive(Clone, Debug, PartialEq, Eq)]
pub struct ErrorSettings {
    pub bins: usize,
    pub resamples: usize,
}

impl ErrorSettings {
    pub open spec fn wf(&self) -> bool {
        self.bins >= 1 && self.resamples >= 1
    }
}

impl Default for ErrorSettings {
    fn default() -> (r: ErrorSettings)
        ensures
            r.bins == 100,
            r.resamples == 100,
            r.wf(),
    {
        ErrorSettings { bins: 100, resamples: 100 }
    }
}

/// How often a measurement is repeated, and how it is evaluated.
#[derive(Clone, Debug, PartialEq, Eq)]
pub struct MeasurementSettings {
    pub num_repeats: usize,
    pub bootstrap: BootstrapSettings,
    pub error: ErrorSettings,
}

impl MeasurementSettings {
    pub open spec fn wf(&self) -> bool {
        self.num_repeats >= 1 && self.bootstrap.wf() && self.error.wf()
    }

    /// Whether every count of the settings is at least one.
    pub fn is_valid(&self) -> (r: bool)
        ensures
            r == self.wf(),
    {
        let samples_ok = match self.bootstrap.samples {
            Some(n) => n >= 1,
            None => true,
        };
        self.num_repeats >= 1 && samples_ok && self.error.bins >= 1 && self.error.resamples >= 1
    }
}

impl Default for MeasurementSettings {
    fn default() -> (r: MeasurementSettings)
        ensures
            r.num_repeats == 10,
            r.bootstrap.seed == 42,
            r.bootstrap.samples == Some(1000usize),
            r.error.bins == 100,
            r.error.resamples == 100,
            r.wf(),
    {
        MeasurementSettings {
            num_repeats: 10,
            bootstrap: BootstrapSettings::default(),
            error: ErrorSettings::default(),
        }
    }
}

} // verus!
