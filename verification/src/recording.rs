//! Recording state: at most one recording at a time, with the time it
//! started, so that status queries and stop requests are answered from it.

use vstd::prelude::*;

verus! {

/// A running recording: the pipeline's handle, when it started (in the
/// application's monotonic milliseconds) and its temporary output file.
pub struct ActiveRecording<H> {
    pub handle: H,
    pub started_ms: u64,
    pub temp_path: String,
}

/// Holds the recording in progress, if any.
pub struct RecordingManager<H> {
    inner: Option<ActiveRecording<H>>,
}

/// Milliseconds elapsed since `started_ms` at `now_ms` (0 if the clock
/// reads earlier).
pub open spec fn elapsed_between(started_ms: u64, now_ms: u64) -> u64 {
    if now_ms < started_ms {
        0
    } else {
        (now_ms - started_ms) as u64
    }
}

impl<H> RecordingManager<H> {
    /// The recording in progress.
    pub closed spec fn current(&self) -> Option<ActiveRecording<H>> {
        self.inner
    }

    pub fn new() -> (m: RecordingManager<H>)
        ensures
            m.current() is None,
    {
        RecordingManager { inner: None }
    }

    pub fn is_recording(&self) -> (b: bool)
        ensures
            b == self.current() is Some,
    {
        self.inner.is_some()
    }

    /// Milliseconds since the recording started, 0 when idle.
    pub fn elapsed_ms(&self, now_ms: u64) -> (ms: u64)
        ensures
            ms == match self.current() {
                Some(r) => elapsed_between(r.started_ms, now_ms),
                None => 0,
            },
    {
        match &self.inner {
            Some(r) => {
                if now_ms < r.started_ms {
                    0
                } else {
                    now_ms - r.started_ms
                }
            },
            None => 0,
        }
    }

    /// A new recording may start only when none is running.
    pub fn check_idle(&self) -> (r: Result<(), String>)
        ensures
            r is Ok <==> self.current() is None,
            r matches Err(e) ==> e@ == "already recording"@,
    {
        if self.inner.is_some() {
            return Err("already recording".to_owned());
        }
        Ok(())
    }

    /// Records that `rec` is now the recording in progress.
    pub fn start(&mut self, rec: ActiveRecording<H>)
        ensures
            final(self).current() == Some(rec),
    {
        self.inner = Some(rec);
    }

    /// Takes the recording in progress out, to be stopped; refused when
    /// none is running.
    pub fn stop(&mut self) -> (r: Result<ActiveRecording<H>, String>)
        ensures
            final(self).current() is None,
            match old(self).current() {
                Some(rec) => r == Ok::<ActiveRecording<H>, String>(rec),
                None => r matches Err(e) && e@ == "not recording"@,
            },
    {
        match self.inner.take() {
            Some(rec) => Ok(rec),
            None => Err("not recording".to_owned()),
        }
    }
}

} // verus!
