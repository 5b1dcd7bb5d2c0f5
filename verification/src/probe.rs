//! What an inspection may spend, and when it has to stop.

use crate::app_inventory::{AppInventoryLimits, AppInventoryMetadataReadMode, AppIssueCode};
use vstd::prelude::*;
use vstd::string::*;

verus! {

/// `std::time::Instant`, a reading of the monotonic clock.
#[verifier::external_type_specification]
#[verifier::external_body]
pub struct ExInstant(std::time::Instant);

/// `std::time::Instant::now`: the clock's reading, of which nothing is known.
#[verifier::external_body]
fn clock_reading() -> std::time::Instant {
    std::time::Instant::now()
}

/// The longest time that a duration can hold, in nanoseconds.
pub const LONGEST_NANOS: u128 = 18_446_744_073_709_551_615_999_999_999;

/// `std::time::Instant::elapsed`: the time since a reading, of which nothing is known.
#[verifier::external_body]
fn time_since(reading: &std::time::Instant) -> std::time::Duration {
    reading.elapsed()
}

/// `std::time::Duration::as_nanos`: the nanoseconds of a duration. A duration holds whole
/// seconds in 64 bits and less than a second besides.
#[verifier::external_body]
fn nanoseconds_of(duration: &std::time::Duration) -> (nanos: u128)
    ensures
        nanos <= LONGEST_NANOS,
{
    duration.as_nanos()
}

fn nanoseconds_since(reading: &std::time::Instant) -> (nanos: u128)
    ensures
        nanos <= LONGEST_NANOS,
{
    nanoseconds_of(&time_since(reading))
}

/// Why an inspection failed.
#[derive(Debug)]
pub struct AppError {
    pub code: AppIssueCode,
    pub message: String,
    pub os_code: Option<i32>,
}

/// Why an inspection failed.
#[verifier::ext_equal]
pub struct AppFault {
    pub code: AppIssueCode,
    pub message: Seq<char>,
    pub os_code: Option<i32>,
}

impl View for AppError {
    type V = AppFault;

    open spec fn view(&self) -> AppFault {
        AppFault { code: self.code, message: self.message@, os_code: self.os_code }
    }
}

/// A failure that no system call caused.
pub open spec fn fault(code: AppIssueCode, message: Seq<char>) -> AppFault {
    AppFault { code, message, os_code: None }
}

impl AppError {
    pub fn new(code: AppIssueCode, message: &str) -> (error: AppError)
        ensures
            error@ == fault(code, message@),
    {
        AppError { code, message: message.to_owned(), os_code: None }
    }

    pub fn copy(&self) -> (copy: AppError)
        ensures
            copy@ == self@,
    {
        AppError { code: self.code, message: self.message.clone(), os_code: self.os_code }
    }
}

/// What an inspection that was told to stop says.
pub open spec fn cancelled_fault() -> AppFault {
    fault(AppIssueCode::Cancelled, "app inventory cancelled"@)
}

/// What an inspection that ran out of time says.
pub open spec fn time_fault() -> AppFault {
    fault(AppIssueCode::DurationLimit, "app inventory time budget exhausted"@)
}

/// A request to stop that another thread may raise.
#[derive(Debug)]
pub struct Cancellation {
    flag: Option<std::sync::atomic::AtomicBool>,
}

impl Cancellation {
    /// Whether the request can be raised at all.
    pub closed spec fn can_be_raised(self) -> bool {
        self.flag is Some
    }

    /// A request that is not raised yet.
    pub fn new() -> (cancellation: Cancellation)
        ensures
            cancellation.can_be_raised(),
    {
        Cancellation { flag: Some(std::sync::atomic::AtomicBool::new(false)) }
    }

    /// A request that is never raised.
    pub fn never() -> (cancellation: Cancellation)
        ensures
            !cancellation.can_be_raised(),
    {
        Cancellation { flag: None }
    }

    /// Raises the request, if it can be raised.
    pub fn cancel(&self) {
        if let Some(flag) = &self.flag {
            flag.store(true, std::sync::atomic::Ordering::SeqCst);
        }
    }

    /// Whether the request has been raised.
    pub fn is_cancelled(&self) -> (answer: bool)
        ensures
            answer ==> self.can_be_raised(),
    {
        match &self.flag {
            Some(flag) => flag.load(std::sync::atomic::Ordering::SeqCst),
            None => false,
        }
    }
}

/// How an inspection stands: what the caller has seen of the clock and of the request to
/// stop.
#[derive(Clone, Copy, Debug, PartialEq, Eq, Structural)]
pub struct Reading {
    pub cancelled: bool,
    pub elapsed_nanos: u128,
    pub budget_nanos: u128,
}

impl Reading {
    /// Why the inspection has to stop: a request comes before the clock.
    pub open spec fn stop(self) -> Option<AppFault> {
        if self.cancelled {
            Some(cancelled_fault())
        } else if self.elapsed_nanos >= self.budget_nanos {
            Some(time_fault())
        } else {
            None
        }
    }

    /// Stops where the request to stop has been raised or the time is used up.
    pub fn check(self) -> (result: Result<(), AppError>)
        ensures
            match result {
                Ok(()) => self.stop() is None,
                Err(error) => self.stop() == Some(error@),
            },
    {
        if self.cancelled {
            return Err(AppError::new(AppIssueCode::Cancelled, "app inventory cancelled"));
        }
        if self.elapsed_nanos >= self.budget_nanos {
            return Err(
                AppError::new(AppIssueCode::DurationLimit, "app inventory time budget exhausted"),
            );
        }
        Ok(())
    }
}

/// What an inspection is run under.
pub struct ProbeContext<'a> {
    pub cancellation: &'a Cancellation,
    pub started: std::time::Instant,
    pub budget_nanos: u128,
    pub limits: AppInventoryLimits,
    pub metadata_read_mode: AppInventoryMetadataReadMode,
}

impl<'a> ProbeContext<'a> {
    /// Whether an inspection may be stopped with the given failure: only a request that can
    /// be raised stops it, or a budget that the clock can reach.
    pub open spec fn may_stop_with(self, found: AppFault) -> bool {
        ||| found == cancelled_fault() && self.cancellation.can_be_raised()
        ||| found == time_fault() && self.budget_nanos <= LONGEST_NANOS
    }

    /// Whether a step was stopped.
    pub open spec fn stopped<T>(self, result: Result<T, AppError>) -> bool {
        result matches Err(error) && self.may_stop_with(error@)
    }

    /// A context whose time starts now.
    pub fn start(
        cancellation: &'a Cancellation,
        budget_nanos: u128,
        limits: AppInventoryLimits,
        metadata_read_mode: AppInventoryMetadataReadMode,
    ) -> (context: ProbeContext<'a>)
        ensures
            context.cancellation == cancellation,
            context.budget_nanos == budget_nanos,
            context.limits == limits,
            context.metadata_read_mode == metadata_read_mode,
    {
        ProbeContext {
            cancellation,
            started: clock_reading(),
            budget_nanos,
            limits,
            metadata_read_mode,
        }
    }

    /// Stops where the request to stop has been raised or the time is used up. Which of
    /// these is seen, if any, is up to other threads and the clock.
    pub fn check(&self) -> (result: Result<(), AppError>)
        ensures
            result is Err ==> self.stopped(result),
            self.budget_nanos == 0 ==> result is Err,
    {
        let reading = Reading {
            cancelled: self.cancellation.is_cancelled(),
            elapsed_nanos: nanoseconds_since(&self.started),
            budget_nanos: self.budget_nanos,
        };
        reading.check()
    }

    /// The milliseconds since the context was made, as many as fit.
    pub fn elapsed_ms(&self) -> u64 {
        saturated_ms(nanoseconds_since(&self.started))
    }
}

/// Nanoseconds as whole milliseconds, as many as fit.
pub fn saturated_ms(nanos: u128) -> (ms: u64)
    ensures
        ms == if nanos / 1_000_000 <= u64::MAX {
            (nanos / 1_000_000) as int
        } else {
            u64::MAX as int
        },
{
    let whole: u128 = nanos / 1_000_000;
    if whole <= u64::MAX as u128 {
        whole as u64
    } else {
        u64::MAX
    }
}

/// What inspections have spent so far.
#[derive(Clone, Copy, Debug, PartialEq, Eq, Structural)]
pub struct ProbeBudget {
    pub io_bytes: u64,
    pub retained_bytes: usize,
    pub visited_refs: usize,
}

/// Why reading more would go over the limit.
pub open spec fn io_fault(spent: u64, bytes: u64, limits: AppInventoryLimits) -> Option<AppFault> {
    if spent + bytes > u64::MAX {
        Some(fault(AppIssueCode::PlistIoLimit, "I/O overflow"@))
    } else if spent + bytes > limits.max_total_plist_io_bytes {
        Some(fault(AppIssueCode::PlistIoLimit, "total Info.plist read budget exceeded"@))
    } else {
        None
    }
}

/// Why keeping more text would go over the limit.
pub open spec fn retained_fault(spent: usize, bytes: usize, limits: AppInventoryLimits) -> Option<
    AppFault,
> {
    if spent + bytes > usize::MAX {
        Some(fault(AppIssueCode::PlistParseLimit, "retained-string overflow"@))
    } else if spent + bytes > limits.max_total_retained_metadata_string_bytes {
        Some(fault(AppIssueCode::PlistParseLimit, "total retained metadata string budget exceeded"@))
    } else {
        None
    }
}

/// Why following one more reference would go over the limit.
pub open spec fn visit_fault(spent: usize, limits: AppInventoryLimits) -> Option<AppFault> {
    if spent == usize::MAX {
        Some(fault(AppIssueCode::PlistParseLimit, "reference overflow"@))
    } else if spent + 1 > limits.max_plist_refs_visited {
        Some(fault(AppIssueCode::PlistParseLimit, "plist visited-reference limit exceeded"@))
    } else {
        None
    }
}

/// What a charge gives: the larger sum, or the failure and the sum as it was.
pub open spec fn charged(spent: ProbeBudget, found: Option<AppFault>, more: ProbeBudget) -> (
    Result<(), AppFault>,
    ProbeBudget,
) {
    match found {
        Some(found) => (Err(found), spent),
        None => (Ok(()), more),
    }
}

/// A result with its failure as a value.
pub open spec fn viewed<T>(result: Result<T, AppError>) -> Result<T, AppFault> {
    match result {
        Ok(value) => Ok(value),
        Err(error) => Err(error@),
    }
}

impl ProbeBudget {
    pub fn new() -> (budget: ProbeBudget)
        ensures
            budget == (ProbeBudget { io_bytes: 0, retained_bytes: 0, visited_refs: 0 }),
    {
        ProbeBudget { io_bytes: 0, retained_bytes: 0, visited_refs: 0 }
    }

    pub open spec fn after_io(self, bytes: u64, limits: AppInventoryLimits) -> (
        Result<(), AppFault>,
        ProbeBudget,
    ) {
        charged(
            self,
            io_fault(self.io_bytes, bytes, limits),
            ProbeBudget { io_bytes: (self.io_bytes + bytes) as u64, ..self },
        )
    }

    pub open spec fn after_retained(self, bytes: usize, limits: AppInventoryLimits) -> (
        Result<(), AppFault>,
        ProbeBudget,
    ) {
        charged(
            self,
            retained_fault(self.retained_bytes, bytes, limits),
            ProbeBudget { retained_bytes: (self.retained_bytes + bytes) as usize, ..self },
        )
    }

    pub open spec fn after_visit(self, limits: AppInventoryLimits) -> (
        Result<(), AppFault>,
        ProbeBudget,
    ) {
        charged(
            self,
            visit_fault(self.visited_refs, limits),
            ProbeBudget { visited_refs: (self.visited_refs + 1) as usize, ..self },
        )
    }

    /// Whether this budget has spent at least as much as an earlier one.
    pub open spec fn grown_from(self, earlier: ProbeBudget) -> bool {
        &&& self.io_bytes >= earlier.io_bytes
        &&& self.retained_bytes >= earlier.retained_bytes
        &&& self.visited_refs >= earlier.visited_refs
    }

    /// Whether so many bytes may be read.
    pub fn preflight_io(&self, bytes: u64, limits: AppInventoryLimits) -> (result: Result<
        (),
        AppError,
    >)
        ensures
            match result {
                Ok(()) => io_fault(self.io_bytes, bytes, limits) is None,
                Err(error) => io_fault(self.io_bytes, bytes, limits) == Some(error@),
            },
    {
        match self.io_bytes.checked_add(bytes) {
            None => Err(AppError::new(AppIssueCode::PlistIoLimit, "I/O overflow")),
            Some(next) => if next > limits.max_total_plist_io_bytes {
                Err(
                    AppError::new(
                        AppIssueCode::PlistIoLimit,
                        "total Info.plist read budget exceeded",
                    ),
                )
            } else {
                Ok(())
            },
        }
    }

    /// Counts bytes that were read.
    pub fn charge_io(&mut self, bytes: u64, limits: AppInventoryLimits) -> (result: Result<
        (),
        AppError,
    >)
        ensures
            (viewed(result), *final(self)) == old(self).after_io(bytes, limits),
    {
        if let Err(error) = self.preflight_io(bytes, limits) {
            return Err(error);
        }
        self.io_bytes = self.io_bytes + bytes;
        Ok(())
    }

    /// Counts bytes of text that are kept.
    pub fn charge_retained(&mut self, bytes: usize, limits: AppInventoryLimits) -> (result: Result<
        (),
        AppError,
    >)
        ensures
            (viewed(result), *final(self)) == old(self).after_retained(bytes, limits),
    {
        match self.retained_bytes.checked_add(bytes) {
            None => Err(AppError::new(AppIssueCode::PlistParseLimit, "retained-string overflow")),
            Some(next) => {
                if next > limits.max_total_retained_metadata_string_bytes {
                    return Err(
                        AppError::new(
                            AppIssueCode::PlistParseLimit,
                            "total retained metadata string budget exceeded",
                        ),
                    );
                }
                self.retained_bytes = next;
                Ok(())
            },
        }
    }

    /// Counts a reference that is followed.
    pub fn visit_ref(&mut self, limits: AppInventoryLimits) -> (result: Result<(), AppError>)
        ensures
            (viewed(result), *final(self)) == old(self).after_visit(limits),
    {
        match self.visited_refs.checked_add(1) {
            None => Err(AppError::new(AppIssueCode::PlistParseLimit, "reference overflow")),
            Some(next) => {
                if next > limits.max_plist_refs_visited {
                    return Err(
                        AppError::new(
                            AppIssueCode::PlistParseLimit,
                            "plist visited-reference limit exceeded",
                        ),
                    );
                }
                self.visited_refs = next;
                Ok(())
            },
        }
    }
}

/// A budget that starts within its limits never exceeds them, whatever is charged.
pub proof fn charges_stay_within_limits(
    budget: ProbeBudget,
    io: u64,
    retained: usize,
    limits: AppInventoryLimits,
)
    requires
        budget.io_bytes <= limits.max_total_plist_io_bytes,
        budget.retained_bytes <= limits.max_total_retained_metadata_string_bytes,
        budget.visited_refs <= limits.max_plist_refs_visited,
    ensures
        budget.after_io(io, limits).1.io_bytes <= limits.max_total_plist_io_bytes,
        budget.after_retained(retained, limits).1.retained_bytes
            <= limits.max_total_retained_metadata_string_bytes,
        budget.after_visit(limits).1.visited_refs <= limits.max_plist_refs_visited,
        budget.after_io(io, limits).1.grown_from(budget),
        budget.after_retained(retained, limits).1.grown_from(budget),
        budget.after_visit(limits).1.grown_from(budget),
{
}

} // verus!
