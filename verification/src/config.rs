//! Startup configuration: from the option values of the command line to the
//! list of jobs, or to the reason why nothing may start.

use vstd::prelude::*;
use vstd::string::StringSliceAdditionalSpecFns;
use vstd::utf8::encode_utf8_decode_utf8;
use crate::job::{JobSpec, JobSpecView};

verus! {

/// Name of the job that the command line configures.
pub const CONFIGURED_JOB: &'static str = "apple";

/// Name of the built-in test job.
pub const TEST_JOB: &'static str = "banana";

/// Period of the built-in test job, in seconds.
pub const TEST_JOB_INTERVAL: u64 = 2;

/// The bytes that intervals are written with: `+`, `0` and `9`.
const PLUS: u8 = 43;

const DIGIT_ZERO: u8 = 48;

const DIGIT_NINE: u8 = 57;

/// How a job is triggered.
#[derive(Debug, Clone, Copy, PartialEq, Eq)]
pub enum TriggerKind {
    /// At a fixed interval.
    Fixed,
    /// By a cron expression. Recognised, and served by no dispatcher.
    Cron,
}

/// Why a configuration starts nothing.
#[derive(Debug, Clone, Copy, PartialEq, Eq)]
pub enum ConfigError {
    /// No trigger type was given.
    MissingType,
    /// The trigger type is not `fixed`: unknown, or `cron`.
    UnsupportedType,
    /// The type is `fixed` and no interval was given.
    MissingInterval,
    /// The interval is not a decimal number of seconds that fits 64 bits.
    InvalidInterval,
    /// The interval is zero.
    ZeroInterval,
    /// The type is `cron` and no expression was given.
    MissingCron,
}

/// An ASCII decimal digit.
pub open spec fn is_digit(c: char) -> bool {
    '0' <= c <= '9'
}

/// Every character is a decimal digit.
pub open spec fn all_digits(s: Seq<char>) -> bool {
    forall|i: int| 0 <= i < s.len() ==> is_digit(#[trigger] s[i])
}

/// The number that a sequence of decimal digits denotes.
pub open spec fn digits_value(s: Seq<char>) -> nat
    decreases s.len(),
{
    if s.len() == 0 {
        0
    } else {
        digits_value(s.drop_last()) * 10 + (s.last() as nat - '0' as nat) as nat
    }
}

/// The text without its leading `+`, if it has one.
pub open spec fn unsigned_part(s: Seq<char>) -> Seq<char> {
    if s.len() > 0 && s[0] == '+' {
        s.drop_first()
    } else {
        s
    }
}

/// A decimal number: an optional `+`, then one digit or more, nothing else.
pub open spec fn is_decimal(s: Seq<char>) -> bool {
    unsigned_part(s).len() > 0 && all_digits(unsigned_part(s))
}

/// The interval that `text` denotes.
pub open spec fn seconds_of(text: Seq<char>) -> Result<u64, ConfigError> {
    let value = digits_value(unsigned_part(text));
    if !is_decimal(text) || value > u64::MAX {
        Err(ConfigError::InvalidInterval)
    } else if value == 0 {
        Err(ConfigError::ZeroInterval)
    } else {
        Ok(value as u64)
    }
}

/// The trigger type that `name` denotes.
pub open spec fn kind_of(name: Seq<char>) -> Option<TriggerKind> {
    if name == "fixed"@ {
        Some(TriggerKind::Fixed)
    } else if name == "cron"@ {
        Some(TriggerKind::Cron)
    } else {
        None
    }
}

/// The interval of the configured job, from the values of the options
/// `type`, `fixed` and `cron`; `None` stands for an option that is absent.
pub open spec fn interval_of(
    kind: Option<Seq<char>>,
    fixed: Option<Seq<char>>,
    cron: Option<Seq<char>>,
) -> Result<u64, ConfigError> {
    match kind {
        None => Err(ConfigError::MissingType),
        Some(name) => match kind_of(name) {
            Some(TriggerKind::Fixed) => match fixed {
                None => Err(ConfigError::MissingInterval),
                Some(text) => seconds_of(text),
            },
            Some(TriggerKind::Cron) => match cron {
                None => Err(ConfigError::MissingCron),
                Some(_) => Err(ConfigError::UnsupportedType),
            },
            None => Err(ConfigError::UnsupportedType),
        },
    }
}

/// The jobs of a configuration with the given interval: the configured job,
/// then the test job.
pub open spec fn jobs_of(interval: u64) -> Seq<JobSpecView> {
    seq![
        JobSpecView { id: CONFIGURED_JOB@, interval: interval as nat },
        JobSpecView { id: TEST_JOB@, interval: TEST_JOB_INTERVAL as nat },
    ]
}

proof fn lemma_digits_value_push(s: Seq<char>, c: char)
    ensures
        digits_value(s.push(c)) == digits_value(s) * 10 + (c as nat - '0' as nat) as nat,
{
    assert(s.push(c).drop_last() =~= s);
}

proof fn lemma_digits_value_grows(s: Seq<char>, n: int)
    requires
        0 <= n <= s.len(),
    ensures
        digits_value(s.take(n)) <= digits_value(s),
    decreases s.len() - n,
{
    if n < s.len() {
        lemma_digits_value_grows(s, n + 1);
        assert(s.take(n + 1).drop_last() =~= s.take(n));
    } else {
        assert(s.take(n) =~= s);
    }
}

/// Whether `a` and `b` hold the same text.
fn same_text(a: &str, b: &str) -> (same: bool)
    ensures
        same == (a@ == b@),
{
    let left = a.as_bytes();
    let right = b.as_bytes();
    proof {
        encode_utf8_decode_utf8(a@);
        encode_utf8_decode_utf8(b@);
    }
    if left.len() != right.len() {
        return false;
    }
    let mut index: usize = 0;
    while index < left.len()
        invariant
            index <= left.len() == right.len(),
            left@ == a.spec_bytes(),
            right@ == b.spec_bytes(),
            a@ == b@ ==> left@ == right@,
            forall|i: int| 0 <= i < index ==> left@[i] == right@[i],
        decreases left.len() - index,
    {
        if left[index] != right[index] {
            return false;
        }
        index = index + 1;
    }
    assert(left@ =~= right@);
    true
}

impl TriggerKind {
    /// Reads a trigger type by its name on the command line.
    pub fn from_name(name: &str) -> (kind: Option<TriggerKind>)
        ensures
            kind == kind_of(name@),
    {
        if same_text(name, "fixed") {
            Some(TriggerKind::Fixed)
        } else if same_text(name, "cron") {
            Some(TriggerKind::Cron)
        } else {
            None
        }
    }
}

/// Reads an interval in seconds: a decimal number, with or without a
/// leading `+`, that is positive and fits 64 bits.
pub fn parse_seconds(text: &str) -> (seconds: Result<u64, ConfigError>)
    ensures
        seconds == seconds_of(text@),
{
    broadcast use vstd::string::is_ascii_spec_bytes;

    let ghost digits = unsigned_part(text@);
    if !text.is_ascii() {
        proof {
            let i = choose|i: int| 0 <= i < text@.len() && !('\0' <= #[trigger] text@[i] <= '\u{7f}');
            if digits.len() == text@.len() {
                assert(!is_digit(digits[i]));
            } else {
                assert(i > 0);
                assert(!is_digit(digits[i - 1]));
            }
        }
        return Err(ConfigError::InvalidInterval);
    }
    let bytes = text.as_bytes();
    let len = bytes.len();
    let start: usize = if len > 0 && bytes[0] == PLUS {
        1
    } else {
        0
    };
    assert(digits =~= text@.subrange(start as int, len as int));
    if start == len {
        return Err(ConfigError::InvalidInterval);
    }
    let mut value: u64 = 0;
    let mut index: usize = start;
    assert(text@.subrange(start as int, start as int) =~= Seq::<char>::empty());
    while index < len
        invariant
            start <= index <= len,
            len == text@.len(),
            text.is_ascii(),
            bytes@ == text.spec_bytes(),
            digits == unsigned_part(text@),
            digits == text@.subrange(start as int, len as int),
            all_digits(text@.subrange(start as int, index as int)),
            value == digits_value(text@.subrange(start as int, index as int)),
        decreases len - index,
    {
        let ghost seen = text@.subrange(start as int, index as int);
        let byte = bytes[index];
        let ghost c = text@[index as int];
        assert(c == digits[index - start]);
        if byte < DIGIT_ZERO || byte > DIGIT_NINE {
            return Err(ConfigError::InvalidInterval);
        }
        let digit: u64 = (byte - DIGIT_ZERO) as u64;
        proof {
            assert(text@.subrange(start as int, index + 1) =~= seen.push(c));
            lemma_digits_value_push(seen, c);
            assert(digits.take(index + 1 - start) =~= text@.subrange(start as int, index + 1));
            lemma_digits_value_grows(digits, index + 1 - start);
        }
        if value > (u64::MAX - digit) / 10 {
            return Err(ConfigError::InvalidInterval);
        }
        value = value * 10 + digit;
        index = index + 1;
    }
    if value == 0 {
        Err(ConfigError::ZeroInterval)
    } else {
        Ok(value)
    }
}

/// What a caller knows of an option: its text, or that it is absent.
pub open spec fn text_of(option: Option<&str>) -> Option<Seq<char>> {
    match option {
        Some(text) => Some(text@),
        None => None,
    }
}

/// Decides from the values of the options `type`, `fixed` and `cron` which
/// jobs run: the configured job at the given interval and the test job. Any
/// other configuration is an error, and then no job is described at all.
pub fn job_specs(kind: Option<&str>, fixed: Option<&str>, cron: Option<&str>) -> (jobs: Result<
    Vec<JobSpec>,
    ConfigError,
>)
    ensures
        interval_of(text_of(kind), text_of(fixed), text_of(cron)) matches Ok(interval) ==> (jobs matches Ok(
            list,
        ) && list.deep_view() == jobs_of(interval)),
        interval_of(text_of(kind), text_of(fixed), text_of(cron)) matches Err(error) ==> jobs == Err::<
            Vec<JobSpec>,
            ConfigError,
        >(error),
{
    let name = match kind {
        Some(name) => name,
        None => { return Err(ConfigError::MissingType); },
    };
    let interval = match TriggerKind::from_name(name) {
        Some(TriggerKind::Fixed) => match fixed {
            Some(text) => parse_seconds(text)?,
            None => { return Err(ConfigError::MissingInterval); },
        },
        Some(TriggerKind::Cron) => match cron {
            Some(_) => { return Err(ConfigError::UnsupportedType); },
            None => { return Err(ConfigError::MissingCron); },
        },
        None => { return Err(ConfigError::UnsupportedType); },
    };
    let mut list: Vec<JobSpec> = Vec::new();
    list.push(JobSpec::new(CONFIGURED_JOB, interval).unwrap());
    list.push(JobSpec::new(TEST_JOB, TEST_JOB_INTERVAL).unwrap());
    assert(list.deep_view() =~= jobs_of(interval));
    Ok(list)
}

} // verus!
