//! The worker settings read from the configuration document.
use vstd::prelude::*;

verus! {

pub const DEFAULT_BIND: u16 = 8977;
pub const DEFAULT_THREADS: i64 = 4;
pub const DEFAULT_CHECK_INTERVAL: u64 = 1000;

pub struct Settings {
    /// The ingress UDP port.
    pub bind: u16,
    /// The number of workers.
    pub threads: i64,
    /// The tick period, in milliseconds.
    pub check_interval: u64,
}

impl Settings {
    /// The settings from the document's integer fields, each absent one taken
    /// at its default. Integers are narrowed to the field's type as `as` does.
    pub fn resolve(bind: Option<i64>, threads: Option<i64>, check_interval: Option<i64>) -> (r: Settings)
        ensures
            r.bind == (match bind { Some(b) => b as u16, None => DEFAULT_BIND }),
            r.threads == (match threads { Some(t) => t, None => DEFAULT_THREADS }),
            r.check_interval == (match check_interval { Some(c) => c as u64, None => DEFAULT_CHECK_INTERVAL }),
    {
        let bind = match bind {
            Some(b) => b as u16,
            None => DEFAULT_BIND,
        };
        let threads = match threads {
            Some(t) => t,
            None => DEFAULT_THREADS,
        };
        let check_interval = match check_interval {
            Some(c) => c as u64,
            None => DEFAULT_CHECK_INTERVAL,
        };
        Settings { bind, threads, check_interval }
    }
}

} // verus!
