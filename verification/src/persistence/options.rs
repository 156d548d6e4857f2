//! How the writers of a store may be set up.

use crate::span::Span;
use crate::text::concat;
use vstd::prelude::*;

verus! {

/// How much a committed transaction has to survive.
#[derive(Debug, Clone, Copy, PartialEq, Eq, Structural)]
pub enum DurabilityMode {
    Off,
    Balanced,
    Strict,
}

impl Default for DurabilityMode {
    fn default() -> (r: Self)
        ensures
            r == DurabilityMode::Off,
    {
        DurabilityMode::Off
    }
}

/// The setting of `PRAGMA synchronous` for a durability.
pub open spec fn synchronous_text(durability: DurabilityMode) -> Seq<char> {
    match durability {
        DurabilityMode::Off => "OFF"@,
        DurabilityMode::Balanced => "NORMAL"@,
        DurabilityMode::Strict => "FULL"@,
    }
}

impl DurabilityMode {
    /// The setting of `PRAGMA synchronous` for this durability.
    pub fn synchronous(self) -> (r: &'static str)
        ensures
            r@ == synchronous_text(self),
    {
        match self {
            DurabilityMode::Off => "OFF",
            DurabilityMode::Balanced => "NORMAL",
            DurabilityMode::Strict => "FULL",
        }
    }
}

/// A ratio, as the bits of a double-precision number. Between positive numbers
/// the order of the bits is the order of the numbers.
#[derive(Debug, Clone, Copy, PartialEq, Eq, Structural)]
pub struct Factor {
    pub bits: u64,
}

/// The bits of one.
pub const ONE_BITS: u64 = 0x3ff0_0000_0000_0000;

/// The bits of infinity: from here on no bits are those of a positive number.
pub const INFINITY_BITS: u64 = 0x7ff0_0000_0000_0000;

/// The bits of negative zero.
pub const NEGATIVE_ZERO_BITS: u64 = 0x8000_0000_0000_0000;

impl Factor {
    /// Whether the ratio is a number greater than one.
    pub open spec fn grows(self) -> bool {
        ONE_BITS < self.bits < INFINITY_BITS
    }

    /// Whether the ratio is a number less than one and not negative.
    pub open spec fn shrinks(self) -> bool {
        self.bits < ONE_BITS || self.bits == NEGATIVE_ZERO_BITS
    }

    pub fn is_above_one(self) -> (r: bool)
        ensures
            r == self.grows(),
    {
        self.bits > ONE_BITS && self.bits < INFINITY_BITS
    }

    pub fn is_below_one(self) -> (r: bool)
        ensures
            r == self.shrinks(),
    {
        self.bits < ONE_BITS || self.bits == NEGATIVE_ZERO_BITS
    }
}

/// The limits within which one kind of batch adapts.
#[derive(Debug, Clone, Copy, PartialEq, Eq, Structural)]
pub struct BatchOptions {
    pub batch_size_min: usize,
    pub batch_size_max: usize,
    pub batch_wait_min: Span,
    pub batch_wait_max: Span,
    pub ewma_window: usize,
    pub batch_probe_factor: Factor,
    pub batch_backoff_factor: Factor,
}

/// What is wrong with the limits, if anything: the first of the faults, as the
/// text that follows the name of the section.
pub open spec fn batch_fault(options: BatchOptions) -> Option<Seq<char>> {
    if options.ewma_window == 0 {
        Some(".ewma_window must be greater than zero"@)
    } else if !options.batch_probe_factor.grows() {
        Some(".batch_probe_factor must be greater than one"@)
    } else if !options.batch_backoff_factor.shrinks() {
        Some(".batch_backoff_factor must be greater than zero and less than one"@)
    } else if options.batch_size_min == 0 || options.batch_size_min > options.batch_size_max {
        Some(".batch_size_min must be positive and not exceed batch_size_max"@)
    } else if options.batch_wait_min.nanos == 0 || options.batch_wait_min.nanos
        > options.batch_wait_max.nanos {
        Some(".batch_wait_min_ms must be positive and not exceed batch_wait_max_ms"@)
    } else {
        None
    }
}

impl BatchOptions {
    /// Limits that can be worked within.
    pub open spec fn valid(self) -> bool {
        batch_fault(self) is None
    }

    /// The limits for accepting jobs.
    pub fn enqueue_defaults() -> (r: Self)
        ensures
            r.valid(),
            r.batch_size_min == 64,
            r.batch_size_max == 8_192,
            r.batch_wait_min.nanos == 1_000_000,
            r.batch_wait_max.nanos == 100_000_000,
            r.ewma_window == 16,
            r.batch_probe_factor.bits == 0x3ff1_9999_9999_999a,
            r.batch_backoff_factor.bits == 0x3fe9_9999_9999_999a,
    {
        BatchOptions {
            batch_size_min: 64,
            batch_size_max: 8_192,
            batch_wait_min: Span::from_millis(1),
            batch_wait_max: Span::from_millis(100),
            ewma_window: 16,
            batch_probe_factor: Factor { bits: 0x3ff1_9999_9999_999a },
            batch_backoff_factor: Factor { bits: 0x3fe9_9999_9999_999a },
        }
    }

    /// The limits for recording results.
    pub fn completion_defaults() -> (r: Self)
        ensures
            r.valid(),
            r.batch_size_min == 128,
            r.batch_size_max == 8_192,
            r.batch_wait_min.nanos == 1_000_000,
            r.batch_wait_max.nanos == 20_000_000,
            r.ewma_window == 16,
            r.batch_probe_factor.bits == 0x3ff4_0000_0000_0000,
            r.batch_backoff_factor.bits == 0x3fe9_9999_9999_999a,
    {
        BatchOptions {
            batch_size_min: 128,
            batch_size_max: 8_192,
            batch_wait_min: Span::from_millis(1),
            batch_wait_max: Span::from_millis(20),
            ewma_window: 16,
            batch_probe_factor: Factor { bits: 0x3ff4_0000_0000_0000 },
            batch_backoff_factor: Factor { bits: 0x3fe9_9999_9999_999a },
        }
    }

    /// Checks the limits, and names the first fault with the section it is in.
    pub fn validate(&self, section: &str) -> (r: Result<(), String>)
        ensures
            match (r, batch_fault(*self)) {
                (Ok(()), None) => true,
                (Err(message), Some(fault)) => message@ == section@ + fault,
                _ => false,
            },
    {
        if self.ewma_window == 0 {
            return Err(concat(section, ".ewma_window must be greater than zero"));
        }
        if !self.batch_probe_factor.is_above_one() {
            return Err(concat(section, ".batch_probe_factor must be greater than one"));
        }
        if !self.batch_backoff_factor.is_below_one() {
            return Err(
                concat(
                    section,
                    ".batch_backoff_factor must be greater than zero and less than one",
                ),
            );
        }
        if self.batch_size_min == 0 || self.batch_size_min > self.batch_size_max {
            return Err(
                concat(section, ".batch_size_min must be positive and not exceed batch_size_max"),
            );
        }
        if self.batch_wait_min.is_zero() || self.batch_wait_min.nanos > self.batch_wait_max.nanos {
            return Err(
                concat(
                    section,
                    ".batch_wait_min_ms must be positive and not exceed batch_wait_max_ms",
                ),
            );
        }
        Ok(())
    }
}

impl Default for BatchOptions {
    fn default() -> (r: Self)
        ensures
            r.valid(),
            r.batch_size_min == 64,
            r.batch_size_max == 8_192,
            r.batch_wait_min.nanos == 1_000_000,
            r.batch_wait_max.nanos == 100_000_000,
            r.ewma_window == 16,
            r.batch_probe_factor.bits == 0x3ff1_9999_9999_999a,
            r.batch_backoff_factor.bits == 0x3fe9_9999_9999_999a,
    {
        BatchOptions::enqueue_defaults()
    }
}

/// How both writers of a store are set up.
#[derive(Debug, Clone, Copy, PartialEq, Eq, Structural)]
pub struct SqliteWriteOptions {
    pub durability: DurabilityMode,
    pub enqueue: BatchOptions,
    pub completion: BatchOptions,
}

impl Default for SqliteWriteOptions {
    fn default() -> (r: Self)
        ensures
            r.durability == DurabilityMode::Off,
            r.enqueue.valid(),
            r.enqueue.batch_size_min == 64,
            r.enqueue.batch_size_max == 8_192,
            r.enqueue.batch_wait_min.nanos == 1_000_000,
            r.enqueue.batch_wait_max.nanos == 100_000_000,
            r.enqueue.ewma_window == 16,
            r.enqueue.batch_probe_factor.bits == 0x3ff1_9999_9999_999a,
            r.enqueue.batch_backoff_factor.bits == 0x3fe9_9999_9999_999a,
            r.completion.valid(),
            r.completion.batch_size_min == 128,
            r.completion.batch_size_max == 8_192,
            r.completion.batch_wait_min.nanos == 1_000_000,
            r.completion.batch_wait_max.nanos == 20_000_000,
            r.completion.ewma_window == 16,
            r.completion.batch_probe_factor.bits == 0x3ff4_0000_0000_0000,
            r.completion.batch_backoff_factor.bits == 0x3fe9_9999_9999_999a,
    {
        SqliteWriteOptions {
            durability: DurabilityMode::default(),
            enqueue: BatchOptions::enqueue_defaults(),
            completion: BatchOptions::completion_defaults(),
        }
    }
}

/// What is wrong with the set-up, if anything.
pub open spec fn write_fault(options: SqliteWriteOptions) -> Option<Seq<char>> {
    match batch_fault(options.enqueue) {
        Some(fault) => Some("persistence.enqueue"@ + fault),
        None => match batch_fault(options.completion) {
            Some(fault) => Some("persistence.completion"@ + fault),
            None => None,
        },
    }
}

impl SqliteWriteOptions {
    /// Checks the limits of both writers.
    pub fn validate(&self) -> (r: Result<(), String>)
        ensures
            match (r, write_fault(*self)) {
                (Ok(()), None) => true,
                (Err(message), Some(fault)) => message@ == fault,
                _ => false,
            },
    {
        match self.enqueue.validate("persistence.enqueue") {
            Ok(()) => self.completion.validate("persistence.completion"),
            Err(message) => Err(message),
        }
    }
}

/// Limits are accepted exactly if something is measured, a probe grows and a
/// backoff shrinks, and size and wait have a positive least that is not above
/// the greatest.
pub proof fn accepted_limits_can_be_worked_within(options: BatchOptions)
    ensures
        batch_fault(options) is None <==> {
            &&& options.ewma_window >= 1
            &&& 0x3ff0_0000_0000_0000 < options.batch_probe_factor.bits < 0x7ff0_0000_0000_0000
            &&& options.batch_backoff_factor.bits < 0x3ff0_0000_0000_0000
                || options.batch_backoff_factor.bits == 0x8000_0000_0000_0000
            &&& 1 <= options.batch_size_min <= options.batch_size_max
            &&& 1 <= options.batch_wait_min.nanos <= options.batch_wait_max.nanos
        },
{
}

/// A set-up is accepted exactly if both of its writers are, and a fault names
/// the writer that it is in. How much survives is spelled as the database wants
/// it.
pub proof fn accepted_writers_are_both_sound(options: SqliteWriteOptions)
    ensures
        write_fault(options) is None <==> batch_fault(options.enqueue) is None && batch_fault(
            options.completion,
        ) is None,
        batch_fault(options.enqueue) is Some ==> write_fault(options) == Some(
            "persistence.enqueue"@ + batch_fault(options.enqueue)->Some_0,
        ),
        batch_fault(options.enqueue) is None && batch_fault(options.completion) is Some
            ==> write_fault(options) == Some(
            "persistence.completion"@ + batch_fault(options.completion)->Some_0,
        ),
        synchronous_text(DurabilityMode::Off) == "OFF"@,
        synchronous_text(DurabilityMode::Balanced) == "NORMAL"@,
        synchronous_text(DurabilityMode::Strict) == "FULL"@,
{
}

} // verus!
