//! The decisions of one streaming transfer.
//!
//! The transfer itself, the requests, the file and the clock, belong to the
//! caller. The caller reports what happens (a response, a chunk of data, an
//! interval without data) and is told what to do next: whether to publish
//! new figures, whether to resume at the current offset or to start over,
//! and when to give up.
//!
//! Time is counted in milliseconds since the transfer began. The figures use
//! integer arithmetic throughout: progress in millionths, speed in whole
//! bytes per second, the estimate in whole seconds.

use crate::download_queue::PROGRESS_FULL;
use vstd::prelude::*;

verus! {

/// New figures are published once this many milliseconds have passed since
/// the last ones.
pub const EMIT_INTERVAL_MS: u64 = 200;

/// New figures are published once this many bytes have arrived since the
/// last ones.
pub const EMIT_BYTES: u64 = 262_144;

/// An interval of this many seconds without data counts as a stall.
pub const STALL_SECS: u64 = 20;

/// The number of stalls after which a transfer is given up at the next one.
pub const MAX_STALL_RETRIES: u32 = 5;

/// What the request before the transfer found out.
#[derive(Clone, Copy, Debug, PartialEq, Eq, Structural)]
pub struct Preflight {
    /// The size of the archive, where the server announced it.
    pub total: Option<u64>,
    /// Whether the server announced that it serves byte ranges.
    pub supports_range: bool,
}

/// What the response to a request for the archive says.
#[derive(Clone, Copy, Debug, PartialEq, Eq, Structural)]
pub struct ResponseInfo {
    /// The size of the whole archive, where the response tells it.
    pub total_all: Option<u64>,
    /// The number of bytes that the response is going to deliver.
    pub remaining: Option<u64>,
    /// Whether the server sends the range that was asked for.
    pub honored: bool,
}

/// The figures of a running transfer.
#[derive(Clone, Copy, Debug, PartialEq, Eq, Structural)]
pub struct ProgressReport {
    /// The part that is done, in millionths.
    pub progress: u32,
    /// Bytes per second.
    pub speed_bps: u64,
    /// Seconds left, where that can be told.
    pub eta_secs: Option<u64>,
}

/// What to do after an interval without data.
#[derive(Clone, Copy, Debug, PartialEq, Eq, Structural)]
pub enum StallAction {
    /// Too many stalls: the transfer fails.
    GiveUp,
    /// Ask for the rest of the archive, from this offset on.
    Resume(u64),
    /// Truncate the file and ask for the whole archive again.
    Restart,
}

/// The state of one transfer.
#[derive(Clone, Copy, Debug, PartialEq, Eq, Structural)]
pub struct Transfer {
    /// The size of the archive, once it is known.
    pub total_known: Option<u64>,
    /// The number of bytes that the current response announced.
    pub total_remaining: Option<u64>,
    /// Whether the server announced that it serves byte ranges.
    pub supports_range: bool,
    /// The number of bytes written to the file.
    pub downloaded: u64,
    /// The time at which figures were last published.
    pub last_emit_ms: u64,
    /// The number of bytes written when figures were last published.
    pub last_emit_bytes: u64,
    /// The number of stalls so far.
    pub retries: u32,
}

/// `a - b`, or zero where `b` is the greater.
pub open spec fn sub_or_zero(a: int, b: int) -> int {
    if a >= b {
        a - b
    } else {
        0
    }
}

/// `x`, or the greatest 64-bit number where `x` is beyond it.
pub open spec fn at_most_u64(x: int) -> int {
    if x > u64::MAX {
        u64::MAX as int
    } else {
        x
    }
}

/// The speed, in bytes per second, of `bytes` bytes in `millis`
/// milliseconds, rounded down; zero where no time has passed.
pub open spec fn rate(bytes: int, millis: int) -> int {
    if millis > 0 {
        at_most_u64(bytes * 1000 / millis)
    } else {
        0
    }
}

/// The part that `done` is of `total`, in millionths, rounded down and at
/// most one; zero where the total is not known.
pub open spec fn fraction(done: int, total: int) -> int {
    if total > 0 {
        if done * 1_000_000 / total > 1_000_000 {
            1_000_000
        } else {
            done * 1_000_000 / total
        }
    } else {
        0
    }
}

impl Transfer {
    /// Whether the counters fit together.
    pub open spec fn wf(self) -> bool {
        self.last_emit_bytes <= self.downloaded
    }

    /// The transfer at its start.
    pub open spec fn started(preflight: Preflight, first: ResponseInfo) -> Transfer {
        Transfer {
            total_known: if preflight.total is Some {
                preflight.total
            } else {
                first.total_all
            },
            total_remaining: first.remaining,
            supports_range: preflight.supports_range,
            downloaded: 0,
            last_emit_ms: 0,
            last_emit_bytes: 0,
            retries: 0,
        }
    }

    /// The size of the archive as far as it can be told: the known size,
    /// else what is written plus what the response announced, else zero.
    pub open spec fn total_all(self) -> int {
        match self.total_known {
            Some(total) => total as int,
            None => match self.total_remaining {
                Some(remaining) => at_most_u64(remaining + self.downloaded),
                None => 0,
            },
        }
    }

    /// The transfer with `len` more bytes written.
    pub open spec fn with_chunk(self, len: u64) -> Transfer {
        Transfer { downloaded: at_most_u64(self.downloaded + len) as u64, ..self }
    }

    /// Whether figures are due at `now_ms`: enough time has passed or enough
    /// bytes have arrived since the last ones, or the archive is complete.
    pub open spec fn emits(self, now_ms: u64) -> bool {
        ||| sub_or_zero(now_ms as int, self.last_emit_ms as int) >= EMIT_INTERVAL_MS
        ||| sub_or_zero(self.downloaded as int, self.last_emit_bytes as int) >= EMIT_BYTES
        ||| (self.total_known is Some && self.downloaded == self.total_all())
    }

    /// The speed at `now_ms`: that of the bytes since the last figures, or,
    /// where that is zero, the average since the beginning.
    pub open spec fn speed(self, now_ms: u64) -> int {
        let recent = rate(
            sub_or_zero(self.downloaded as int, self.last_emit_bytes as int),
            sub_or_zero(now_ms as int, self.last_emit_ms as int),
        );
        if recent > 0 {
            recent
        } else {
            rate(self.downloaded as int, now_ms as int)
        }
    }

    /// The seconds left at `now_ms`, where the speed and the size are known.
    pub open spec fn eta(self, now_ms: u64) -> Option<u64> {
        if self.speed(now_ms) > 0 && self.total_all() > 0 {
            Some((sub_or_zero(self.total_all(), self.downloaded as int) / self.speed(now_ms)) as u64)
        } else {
            None
        }
    }

    /// The figures at `now_ms`.
    pub open spec fn report(self, now_ms: u64) -> ProgressReport {
        ProgressReport {
            progress: fraction(self.downloaded as int, self.total_all()) as u32,
            speed_bps: self.speed(now_ms) as u64,
            eta_secs: self.eta(now_ms),
        }
    }

    /// The transfer once figures are published at `now_ms`.
    pub open spec fn with_emission(self, now_ms: u64) -> Transfer {
        Transfer { last_emit_ms: now_ms, last_emit_bytes: self.downloaded, ..self }
    }

    /// What a stall leads to: giving up after too many, else one more try,
    /// resuming where the server serves ranges and starting over where not.
    pub open spec fn stall_action(self) -> StallAction {
        if self.retries >= MAX_STALL_RETRIES {
            StallAction::GiveUp
        } else if self.supports_range {
            StallAction::Resume(self.downloaded)
        } else {
            StallAction::Restart
        }
    }

    /// The transfer after a stall.
    pub open spec fn after_stall(self) -> Transfer {
        if self.retries >= MAX_STALL_RETRIES {
            self
        } else {
            Transfer { retries: (self.retries + 1) as u32, ..self }
        }
    }

    /// The transfer with the sizes that `response` tells.
    pub open spec fn with_response(self, response: ResponseInfo) -> Transfer {
        Transfer {
            total_known: if self.total_known is Some {
                self.total_known
            } else {
                response.total_all
            },
            total_remaining: response.remaining,
            ..self
        }
    }

    /// Whether the transfer goes on at its offset after the answer to a
    /// request to resume: there is a response, and it sends the range.
    pub open spec fn resumes(response: Option<ResponseInfo>) -> bool {
        match response {
            Some(response) => response.honored,
            None => false,
        }
    }

    /// The transfer after the answer to a request to resume at `now_ms`.
    pub open spec fn after_resume(self, response: Option<ResponseInfo>, now_ms: u64) -> Transfer {
        match response {
            Some(response) => if response.honored {
                self.with_response(response).with_emission(now_ms)
            } else {
                self
            },
            None => self,
        }
    }

    /// The transfer once the file is truncated at `now_ms`, to start over.
    pub open spec fn restarted(self, now_ms: u64) -> Transfer {
        Transfer { downloaded: 0, last_emit_ms: now_ms, last_emit_bytes: 0, ..self }
    }
}

proof fn lemma_whole_is_full(total: int)
    requires
        total > 0,
    ensures
        fraction(total, total) == 1_000_000,
{
    assert(total * 1_000_000 / total == 1_000_000) by (nonlinear_arith)
        requires
            total > 0,
    ;
}

proof fn lemma_division_bound(a: int, b: int)
    requires
        0 <= a,
        0 < b,
    ensures
        0 <= a / b <= a,
{
    assert(0 <= a / b <= a) by (nonlinear_arith)
        requires
            0 <= a,
            0 < b,
    ;
}

/// Resuming: a stall that is answered with the range asked for leaves the
/// bytes written so far and the known size of the archive as they are, so
/// that the transfer goes on where it stood.
pub proof fn lemma_resume_keeps_offset(transfer: Transfer, response: ResponseInfo, now_ms: u64)
    requires
        response.honored,
    ensures
        transfer.after_stall().after_resume(Some(response), now_ms).downloaded
            == transfer.downloaded,
        transfer.total_known is Some ==> transfer.after_stall().after_resume(
            Some(response),
            now_ms,
        ).total_known == transfer.total_known,
        transfer.retries < MAX_STALL_RETRIES && transfer.supports_range
            ==> transfer.stall_action() == StallAction::Resume(transfer.downloaded),
{
}

/// Completion: the chunk that brings the bytes written to the known size of
/// the archive publishes figures, whenever it arrives, and they show full
/// progress.
pub proof fn lemma_last_chunk_is_full(transfer: Transfer, len: u64, now_ms: u64)
    requires
        transfer.total_known is Some,
        transfer.total_known->0 > 0,
        transfer.downloaded + len == transfer.total_known->0,
    ensures
        transfer.with_chunk(len).emits(now_ms),
        transfer.with_chunk(len).report(now_ms).progress == PROGRESS_FULL,
{
    lemma_whole_is_full(transfer.total_known->0 as int);
}

fn rate_of(bytes: u64, millis: u64) -> (r: u64)
    ensures
        r == rate(bytes as int, millis as int),
{
    if millis == 0 {
        return 0;
    }
    let scaled: u128 = bytes as u128 * 1000;
    let per_second: u128 = scaled / (millis as u128);
    if per_second > u64::MAX as u128 {
        u64::MAX
    } else {
        per_second as u64
    }
}

fn fraction_of(done: u64, total: u64) -> (r: u32)
    ensures
        r == fraction(done as int, total as int),
        r <= PROGRESS_FULL,
{
    if total == 0 {
        return 0;
    }
    let scaled: u128 = done as u128 * 1_000_000;
    let part: u128 = scaled / (total as u128);
    if part > 1_000_000 {
        1_000_000
    } else {
        part as u32
    }
}

impl Transfer {
    /// Begins a transfer with what the preflight and the first response say.
    pub fn begin(preflight: Preflight, first: ResponseInfo) -> (transfer: Transfer)
        ensures
            transfer == Transfer::started(preflight, first),
            transfer.wf(),
    {
        Transfer {
            total_known: if preflight.total.is_some() {
                preflight.total
            } else {
                first.total_all
            },
            total_remaining: first.remaining,
            supports_range: preflight.supports_range,
            downloaded: 0,
            last_emit_ms: 0,
            last_emit_bytes: 0,
            retries: 0,
        }
    }

    fn current_total(&self) -> (total: u64)
        ensures
            total == self.total_all(),
    {
        match self.total_known {
            Some(total) => total,
            None => match self.total_remaining {
                Some(remaining) => remaining.saturating_add(self.downloaded),
                None => 0,
            },
        }
    }

    /// Counts a chunk of `len` bytes that was written at `now_ms`, and
    /// returns new figures where they are due: after 200 milliseconds or
    /// 256 KiB since the last ones, whichever comes first, and in any case
    /// when the archive is complete. With the last byte of an archive of
    /// known size the progress is full.
    pub fn on_chunk(&mut self, len: u64, now_ms: u64) -> (report: Option<ProgressReport>)
        ensures
            report == if old(self).with_chunk(len).emits(now_ms) {
                Some(old(self).with_chunk(len).report(now_ms))
            } else {
                None
            },
            *final(self) == if old(self).with_chunk(len).emits(now_ms) {
                old(self).with_chunk(len).with_emission(now_ms)
            } else {
                old(self).with_chunk(len)
            },
            old(self).wf() ==> final(self).wf(),
            match report {
                Some(report) => report.progress <= PROGRESS_FULL,
                None => true,
            },
            final(self).total_known == Some(final(self).downloaded) && final(self).downloaded > 0
                ==> report is Some && report->0.progress == PROGRESS_FULL,
    {
        self.downloaded = self.downloaded.saturating_add(len);
        let total = self.current_total();
        let since_ms = now_ms.saturating_sub(self.last_emit_ms);
        let since_bytes = self.downloaded.saturating_sub(self.last_emit_bytes);
        let due = since_ms >= EMIT_INTERVAL_MS || since_bytes >= EMIT_BYTES;
        if due || (self.total_known.is_some() && self.downloaded == total) {
            let recent = rate_of(since_bytes, since_ms);
            let speed = if recent > 0 {
                recent
            } else {
                rate_of(self.downloaded, now_ms)
            };
            let progress = fraction_of(self.downloaded, total);
            let eta = if speed > 0 && total > 0 {
                proof {
                    lemma_division_bound(
                        sub_or_zero(total as int, self.downloaded as int),
                        speed as int,
                    );
                }
                Some(total.saturating_sub(self.downloaded) / speed)
            } else {
                None
            };
            proof {
                if self.total_known == Some(self.downloaded) && self.downloaded > 0 {
                    lemma_whole_is_full(self.downloaded as int);
                }
            }
            self.last_emit_ms = now_ms;
            self.last_emit_bytes = self.downloaded;
            Some(ProgressReport { progress, speed_bps: speed, eta_secs: eta })
        } else {
            None
        }
    }

    /// Counts an interval without data and says how to go on. The sixth
    /// stall gives the transfer up. Before that the transfer resumes at the
    /// offset reached, where the server announced that it serves ranges, and
    /// starts over where it did not.
    pub fn on_stall(&mut self) -> (action: StallAction)
        ensures
            action == old(self).stall_action(),
            *final(self) == old(self).after_stall(),
            final(self).downloaded == old(self).downloaded,
            old(self).wf() ==> final(self).wf(),
    {
        if self.retries >= MAX_STALL_RETRIES {
            return StallAction::GiveUp;
        }
        self.retries = self.retries + 1;
        if self.supports_range {
            StallAction::Resume(self.downloaded)
        } else {
            StallAction::Restart
        }
    }

    /// Takes the answer to a request to resume at `now_ms`: `None` where the
    /// request failed. Returns whether the transfer goes on at its offset. If
    /// it does not, because the request failed or the server sends the whole
    /// archive, the transfer has to start over.
    pub fn on_resume_response(&mut self, response: Option<ResponseInfo>, now_ms: u64) -> (goes_on:
        bool)
        ensures
            goes_on == Transfer::resumes(response),
            *final(self) == old(self).after_resume(response, now_ms),
            final(self).downloaded == old(self).downloaded,
            old(self).wf() ==> final(self).wf(),
    {
        match response {
            Some(response) => {
                if response.honored {
                    self.adopt(response);
                    self.last_emit_ms = now_ms;
                    self.last_emit_bytes = self.downloaded;
                    true
                } else {
                    false
                }
            },
            None => false,
        }
    }

    fn adopt(&mut self, response: ResponseInfo)
        ensures
            *final(self) == old(self).with_response(response),
    {
        if self.total_known.is_none() {
            self.total_known = response.total_all;
        }
        self.total_remaining = response.remaining;
    }

    /// Starts over at `now_ms`: nothing is written any more, and the figures
    /// count from here.
    pub fn restart(&mut self, now_ms: u64)
        ensures
            *final(self) == old(self).restarted(now_ms),
            final(self).wf(),
    {
        self.downloaded = 0;
        self.last_emit_ms = now_ms;
        self.last_emit_bytes = 0;
    }

    /// Takes the response to the request that starts the transfer over.
    pub fn on_restart_response(&mut self, response: ResponseInfo)
        ensures
            *final(self) == old(self).with_response(response),
            old(self).wf() ==> final(self).wf(),
    {
        self.adopt(response);
    }
}

} // verus!
