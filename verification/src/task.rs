use vstd::prelude::*;
use vstd::string::StringExecFns;
use crate::clock::{format_local_datetime, now_seconds};
use crate::codec::{
    dec_digits_of, format_duration, parse_time_string_to_seconds, push_decimal,
    spec_format_duration, spec_parse_token,
};
use crate::errors::TaskError;

verus! {

/// `a + b`, stuck at the largest representable value instead of wrapping.
pub open spec fn sat_add64(a: u64, b: u64) -> u64 {
    if a + b <= u64::MAX {
        (a + b) as u64
    } else {
        u64::MAX
    }
}

/// Whole seconds from `last` to `now`; zero when the clock appears to
/// have moved backward.
pub open spec fn spec_elapsed(last: u64, now: u64) -> u64 {
    if now >= last {
        (now - last) as u64
    } else {
        0
    }
}

/// A named task with a committed duration and an optional running timer.
pub struct Task {
    /// Unique within its store; immutable after creation.
    pub id: u32,
    /// Display label; several tasks may share one.
    pub name: String,
    /// Seconds committed while the task was not running.
    pub total_duration_seconds: u64,
    /// Whether a timer is currently active.
    pub running: bool,
    /// Seconds since the Unix epoch of the most recent start; kept after
    /// the timer stops, for display.
    pub last_run: Option<u64>,
}

impl Task {
    /// A running task always knows when it last started.
    pub open spec fn wf(self) -> bool {
        self.running ==> self.last_run is Some
    }

    /// The task after its timer starts at `now`.
    pub open spec fn spec_started(self, now: u64) -> Task {
        Task { running: true, last_run: Some(now), ..self }
    }

    /// The task after its timer stops at `now`: the time since the last
    /// start is committed into the total.
    pub open spec fn spec_stopped(self, now: u64) -> Task {
        Task {
            running: false,
            total_duration_seconds: sat_add64(
                self.total_duration_seconds,
                spec_elapsed(self.last_run->0, now),
            ),
            ..self
        }
    }

    /// The task after a cancel: stopped, with the time since the last
    /// start discarded.
    pub open spec fn spec_cancelled(self) -> Task {
        Task { running: false, ..self }
    }

    /// The duration to display at `now`: the committed total, plus the
    /// still-uncommitted running time if a timer is active.
    pub open spec fn spec_current_duration(self, now: u64) -> u64 {
        if self.running {
            sat_add64(self.total_duration_seconds, spec_elapsed(self.last_run->0, now))
        } else {
            self.total_duration_seconds
        }
    }

    /// The display duration as of the moment `now`.
    pub fn current_duration_at(&self, now: u64) -> (r: u64)
        requires
            self.wf(),
        ensures
            r == self.spec_current_duration(now),
    {
        if self.running {
            let last: u64 = match self.last_run {
                Some(l) => l,
                None => 0,
            };
            let elapsed: u64 = if now >= last {
                now - last
            } else {
                0
            };
            self.total_duration_seconds.saturating_add(elapsed)
        } else {
            self.total_duration_seconds
        }
    }

    /// The display duration as of the clock's present reading.
    pub fn current_duration(&self) -> (r: u64)
        requires
            self.wf(),
        ensures
            exists|now: u64| r == self.spec_current_duration(now),
            r >= self.total_duration_seconds,
            !self.running ==> r == self.total_duration_seconds,
    {
        let now: u64 = now_seconds();
        let r: u64 = self.current_duration_at(now);
        proof {
            assert(r == self.spec_current_duration(now));
        }
        r
    }

    /// Starts the timer at `now`; refused if one is already running.
    pub fn start_at(&mut self, now: u64) -> (r: Result<(), TaskError>)
        ensures
            old(self).running ==> r == Err::<(), TaskError>(TaskError::AlreadyRunning)
                && *final(self) == *old(self),
            !old(self).running ==> r == Ok::<(), TaskError>(()) && *final(self) == old(
                self,
            ).spec_started(now),
            old(self).wf() ==> final(self).wf(),
            !old(self).running ==> final(self).wf(),
    {
        if self.running {
            return Err(TaskError::AlreadyRunning);
        }
        self.running = true;
        self.last_run = Some(now);
        Ok(())
    }

    /// Starts the timer at the clock's present reading.
    pub fn start(&mut self) -> (r: Result<(), TaskError>)
        ensures
            old(self).running ==> r == Err::<(), TaskError>(TaskError::AlreadyRunning)
                && *final(self) == *old(self),
            !old(self).running ==> r == Ok::<(), TaskError>(()) && exists|now: u64|
                *final(self) == old(self).spec_started(now),
            old(self).wf() ==> final(self).wf(),
    {
        let now: u64 = now_seconds();
        self.start_at(now)
    }

    /// Stops the timer at `now`, committing the elapsed time; refused if
    /// no timer is running.
    pub fn stop_at(&mut self, now: u64) -> (r: Result<(), TaskError>)
        requires
            old(self).wf(),
        ensures
            !old(self).running ==> r == Err::<(), TaskError>(TaskError::NotRunning)
                && *final(self) == *old(self),
            old(self).running ==> r == Ok::<(), TaskError>(()) && *final(self) == old(
                self,
            ).spec_stopped(now),
            final(self).wf(),
    {
        if !self.running {
            return Err(TaskError::NotRunning);
        }
        let last: u64 = match self.last_run {
            Some(l) => l,
            None => 0,
        };
        let elapsed: u64 = if now >= last {
            now - last
        } else {
            0
        };
        self.total_duration_seconds = self.total_duration_seconds.saturating_add(elapsed);
        self.running = false;
        Ok(())
    }

    /// Stops the timer at the clock's present reading.
    pub fn stop(&mut self) -> (r: Result<(), TaskError>)
        requires
            old(self).wf(),
        ensures
            !old(self).running ==> r == Err::<(), TaskError>(TaskError::NotRunning)
                && *final(self) == *old(self),
            old(self).running ==> r == Ok::<(), TaskError>(()) && exists|now: u64|
                *final(self) == old(self).spec_stopped(now),
            final(self).wf(),
    {
        let now: u64 = now_seconds();
        self.stop_at(now)
    }

    /// Stops the timer and discards the time since the last start;
    /// refused if no timer is running.
    pub fn cancel(&mut self) -> (r: Result<(), TaskError>)
        ensures
            !old(self).running ==> r == Err::<(), TaskError>(TaskError::NotRunning)
                && *final(self) == *old(self),
            old(self).running ==> r == Ok::<(), TaskError>(()) && *final(self) == old(
                self,
            ).spec_cancelled(),
            old(self).wf() ==> final(self).wf(),
    {
        if !self.running {
            return Err(TaskError::NotRunning);
        }
        self.running = false;
        Ok(())
    }

    /// Sets the committed total from a time token; refused while the
    /// timer runs, so a running stretch cannot be silently overwritten.
    pub fn set_time(&mut self, time: &str) -> (r: Result<(), TaskError>)
        ensures
            old(self).running ==> r == Err::<(), TaskError>(TaskError::TaskBusy) && *final(self)
                == *old(self),
            !old(self).running && spec_parse_token(time@) is None ==> r == Err::<(), TaskError>(
                TaskError::InvalidFormat,
            ) && *final(self) == *old(self),
            !old(self).running && spec_parse_token(time@) is Some ==> r == Ok::<(), TaskError>(())
                && *final(self) == (Task {
                total_duration_seconds: spec_parse_token(time@)->0,
                ..*old(self)
            }),
            old(self).wf() ==> final(self).wf(),
    {
        if self.running {
            return Err(TaskError::TaskBusy);
        }
        match parse_time_string_to_seconds(time) {
            Ok(v) => {
                self.total_duration_seconds = v;
                Ok(())
            },
            Err(e) => Err(e),
        }
    }

    /// Adds a time token's worth of seconds to the committed total.
    pub fn add_time(&mut self, time: &str) -> (r: Result<(), TaskError>)
        ensures
            spec_parse_token(time@) is None ==> r == Err::<(), TaskError>(TaskError::InvalidFormat)
                && *final(self) == *old(self),
            spec_parse_token(time@) is Some ==> r == Ok::<(), TaskError>(()) && *final(self) == (
            Task {
                total_duration_seconds: sat_add64(
                    old(self).total_duration_seconds,
                    spec_parse_token(time@)->0,
                ),
                ..*old(self)
            }),
            old(self).wf() ==> final(self).wf(),
    {
        match parse_time_string_to_seconds(time) {
            Ok(v) => {
                self.total_duration_seconds = self.total_duration_seconds.saturating_add(v);
                Ok(())
            },
            Err(e) => Err(e),
        }
    }

    /// Subtracts a time token's worth of seconds from the committed
    /// total; refused when more is asked than the task has.
    pub fn subtract_time(&mut self, time: &str) -> (r: Result<(), TaskError>)
        ensures
            spec_parse_token(time@) is None ==> r == Err::<(), TaskError>(TaskError::InvalidFormat)
                && *final(self) == *old(self),
            spec_parse_token(time@) is Some && spec_parse_token(time@)->0 > old(
                self,
            ).total_duration_seconds ==> r == Err::<(), TaskError>(TaskError::InsufficientDuration)
                && *final(self) == *old(self),
            spec_parse_token(time@) is Some && spec_parse_token(time@)->0 <= old(
                self,
            ).total_duration_seconds ==> r == Ok::<(), TaskError>(()) && *final(self) == (Task {
                total_duration_seconds: (old(self).total_duration_seconds - spec_parse_token(
                    time@,
                )->0) as u64,
                ..*old(self)
            }),
            old(self).wf() ==> final(self).wf(),
    {
        match parse_time_string_to_seconds(time) {
            Ok(v) => {
                if self.total_duration_seconds < v {
                    return Err(TaskError::InsufficientDuration);
                }
                self.total_duration_seconds = self.total_duration_seconds - v;
                Ok(())
            },
            Err(e) => Err(e),
        }
    }

    /// The committed total rendered as `HH:MM:SS`.
    pub fn formatted_duration(&self) -> (r: String)
        ensures
            r@ == spec_format_duration(self.total_duration_seconds),
    {
        format_duration(self.total_duration_seconds)
    }

    /// Replaces the task's name.
    pub fn rename(&mut self, task_name: &str)
        ensures
            final(self).name@ == task_name@,
            final(self).id == old(self).id,
            final(self).total_duration_seconds == old(self).total_duration_seconds,
            final(self).running == old(self).running,
            final(self).last_run == old(self).last_run,
            old(self).wf() ==> final(self).wf(),
    {
        self.name = task_name.to_owned();
    }

    /// The `- Base timer:` fragment of a listing line: the committed
    /// total alone, without any running time.
    fn get_base_timer_formatted(&self, show_base_timer: bool) -> (r: String)
        ensures
            r@ == spec_base_timer_suffix(*self, show_base_timer),
    {
        if show_base_timer {
            let mut out = String::new();
            out.append(" - Base timer: ");
            let base = format_duration(self.total_duration_seconds);
            out.append(base.as_str());
            proof {
                assert(out@ =~= spec_base_timer_suffix(*self, show_base_timer));
            }
            out
        } else {
            let out = String::new();
            proof {
                assert(out@ =~= spec_base_timer_suffix(*self, show_base_timer));
            }
            out
        }
    }

    /// Renders the task's listing line at the moment `now`, around an
    /// already-rendered last-start moment (or none): exact for every
    /// value the renderer hands back.
    pub fn to_print_string_at(
        &self,
        now: u64,
        timestamp_text: Option<&str>,
        show_base_timer: bool,
    ) -> (r: String)
        requires
            self.wf(),
        ensures
            r@ == spec_print_line(
                *self,
                self.spec_current_duration(now),
                show_base_timer,
                spec_timestamp_suffix(timestamp_text),
            ),
    {
        let duration: u64 = self.current_duration_at(now);
        let formatted = format_duration(duration);
        let base_timer = self.get_base_timer_formatted(show_base_timer);
        let mut out = String::new();
        if self.running {
            out.append("#");
        }
        out.append("[");
        push_decimal(&mut out, self.id as u64);
        out.append("] '");
        out.append(self.name.as_str());
        out.append("': ");
        out.append(formatted.as_str());
        out.append(base_timer.as_str());
        if let Some(rendered) = timestamp_text {
            let fragment = timestamp_fragment(rendered);
            out.append(fragment.as_str());
        }
        proof {
            assert(out@ =~= spec_print_line(
                *self,
                self.spec_current_duration(now),
                show_base_timer,
                spec_timestamp_suffix(timestamp_text),
            ));
        }
        out
    }

    /// Renders the task's listing line at the clock's current moment,
    /// with the last-start moment rendered in local time when asked for.
    pub fn to_print_string(&self, show_timestamp: bool, show_base_timer: bool) -> (r: String)
        requires
            self.wf(),
        ensures
            !(show_timestamp && self.last_run is Some) ==> exists|now: u64|
                r@ == spec_print_line(
                    *self,
                    self.spec_current_duration(now),
                    show_base_timer,
                    Seq::<char>::empty(),
                ),
            show_timestamp && self.last_run is Some ==> exists|now: u64, ts: Seq<char>|
                r@ == spec_print_line(
                    *self,
                    self.spec_current_duration(now),
                    show_base_timer,
                    " - Last time: "@ + ts,
                ),
    {
        let now: u64 = now_seconds();
        if show_timestamp {
            match self.last_run {
                Some(lr) => {
                    let rendered = format_local_datetime(lr);
                    let r = self.to_print_string_at(now, Some(rendered.as_str()), show_base_timer);
                    proof {
                        assert(r@ == spec_print_line(
                            *self,
                            self.spec_current_duration(now),
                            show_base_timer,
                            " - Last time: "@ + rendered@,
                        ));
                    }
                    r
                },
                None => self.to_print_string_at(now, None, show_base_timer),
            }
        } else {
            self.to_print_string_at(now, None, show_base_timer)
        }
    }
}

/// The `- Last time:` fragment of a listing line, wrapped around an
/// already-rendered moment.
pub fn timestamp_fragment(rendered: &str) -> (r: String)
    ensures
        r@ == " - Last time: "@ + rendered@,
{
    let mut out = String::new();
    out.append(" - Last time: ");
    out.append(rendered);
    proof {
        assert(out@ =~= " - Last time: "@ + rendered@);
    }
    out
}

/// The trailing fragment of a listing line for an optional rendered
/// last-start moment: empty when none is supplied.
pub open spec fn spec_timestamp_suffix(timestamp_text: Option<&str>) -> Seq<char> {
    match timestamp_text {
        Some(ts) => " - Last time: "@ + ts@,
        None => Seq::<char>::empty(),
    }
}

/// The `- Base timer:` fragment of a listing line, when asked for.
pub open spec fn spec_base_timer_suffix(t: Task, show_base_timer: bool) -> Seq<char> {
    if show_base_timer {
        " - Base timer: "@ + spec_format_duration(t.total_duration_seconds)
    } else {
        Seq::<char>::empty()
    }
}

/// The listing line for a task: a running marker, the id in brackets,
/// the quoted name, the display duration, then the optional base-timer
/// fragment and a trailing suffix holding the optional timestamp.
pub open spec fn spec_print_line(
    t: Task,
    duration: u64,
    show_base_timer: bool,
    suffix: Seq<char>,
) -> Seq<char> {
    (if t.running {
        "#"@
    } else {
        Seq::<char>::empty()
    }) + "["@ + dec_digits_of(t.id as nat) + "] '"@ + t.name@ + "': "@ + spec_format_duration(
        duration,
    ) + spec_base_timer_suffix(t, show_base_timer) + suffix
}

/// Law: starting a stopped task and stopping it `d` seconds later commits
/// exactly `d` more seconds, and leaves the task stopped.
pub proof fn lemma_start_stop_accumulates(t: Task, t0: u64, d: u64)
    requires
        !t.running,
        t0 + d <= u64::MAX,
        t.total_duration_seconds + d <= u64::MAX,
    ensures
        t.spec_started(t0).spec_stopped((t0 + d) as u64).total_duration_seconds
            == t.total_duration_seconds + d,
        !t.spec_started(t0).spec_stopped((t0 + d) as u64).running,
{
}

/// Law: cancelling right after a start leaves the committed total exactly
/// as it was before the start, with the task stopped.
pub proof fn lemma_cancel_after_start(t: Task, t0: u64)
    requires
        !t.running,
    ensures
        t.spec_started(t0).spec_cancelled().total_duration_seconds == t.total_duration_seconds,
        !t.spec_started(t0).spec_cancelled().running,
{
}

} // verus!
