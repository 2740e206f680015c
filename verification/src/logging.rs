//! Logger configuration: log categories and their sets, the parsing of
//! configuration strings, and the decisions of the logging macros.
use crate::strings::{dec, decimal, str_eq, strip_prefix_str, trim_seq, trim_str};
use vstd::prelude::*;
use vstd::string::{StrSliceExecFns, StringExecFns};

verus! {

/// `std::io::Error`, carried opaquely inside `LindLoggerInitError::Io`.
#[verifier::external_type_specification]
#[verifier::external_body]
pub struct ExIoError(std::io::Error);

/// A category of log messages.
#[derive(Clone, Copy, Debug, PartialEq, Eq, Structural, Hash)]
pub enum LogCategory {
    /// Uncategorized diagnostics.
    Default,
    /// Dynamic linking.
    DYLINK,
    /// Syscall routing and interposition.
    THREEI,
}

/// Bit of the `Default` category.
pub const BIT_DEFAULT: u8 = 0b001;
/// Bit of the `DYLINK` category.
pub const BIT_DYLINK: u8 = 0b010;
/// Bit of the `THREEI` category.
pub const BIT_THREEI: u8 = 0b100;

/// The bit of a category.
pub open spec fn category_bit(c: LogCategory) -> u8 {
    match c {
        LogCategory::Default => BIT_DEFAULT,
        LogCategory::DYLINK => BIT_DYLINK,
        LogCategory::THREEI => BIT_THREEI,
    }
}

/// The name of a category.
pub open spec fn category_name(c: LogCategory) -> Seq<char> {
    match c {
        LogCategory::Default => "Default"@,
        LogCategory::DYLINK => "DYLINK"@,
        LogCategory::THREEI => "THREEI"@,
    }
}

impl LogCategory {
    /// The category's name.
    pub fn as_str(self) -> (r: &'static str)
        ensures
            r@ == category_name(self),
            self == LogCategory::Default ==> r == "Default",
            self == LogCategory::DYLINK ==> r == "DYLINK",
            self == LogCategory::THREEI ==> r == "THREEI",
    {
        match self {
            LogCategory::Default => "Default",
            LogCategory::DYLINK => "DYLINK",
            LogCategory::THREEI => "THREEI",
        }
    }
}

/// A set of enabled categories, as a bit mask.
#[derive(Clone, Copy, Debug, PartialEq, Eq, Structural)]
pub struct LogCategorySet(pub u8);

/// Where log output goes.
pub enum LogOutput {
    Stdout,
    Stderr,
    /// Append to the file at this path.
    File(String),
    /// Discard ordinary log output.
    Discard,
}

/// What a debug panic does.
#[derive(Clone, Copy, Debug, PartialEq, Eq, Structural)]
pub enum PanicBehavior {
    /// Log, then panic.
    PanicAndExit,
    /// Log and return.
    LogOnly,
    /// Do nothing.
    NoAction,
}

/// Logger configuration.
pub struct LindLoggerConfig {
    pub output: LogOutput,
    pub panic_behavior: PanicBehavior,
    pub enabled_categories: LogCategorySet,
}

/// Logger set-up errors.
pub enum LindLoggerInitError {
    /// The logger was already set up; the first set-up wins.
    AlreadyInitialized,
    /// The output file could not be opened.
    Io(std::io::Error),
    /// A configuration value was not recognised.
    InvalidConfig(String),
}

/// The Unicode lowercase mapping of `s`, as `str::to_lowercase` computes it.
pub uninterp spec fn lowercase(s: Seq<char>) -> Seq<char>;

/// Calls `str::to_lowercase`.
#[verifier::external_body]
fn to_lowercase_str(s: &str) -> (r: String)
    ensures
        r@ == lowercase(s@),
{
    s.to_lowercase()
}

/// The message for an unknown log category.
fn unknown_category_message(other: &str) -> (r: String)
    ensures
        r@ == "unknown log category: '"@ + other@ + "'"@,
{
    let mut m = String::from_str("unknown log category: '");
    m.append(other);
    m.append("'");
    m
}

/// The message for an unknown debug-panic setting.
fn unknown_panic_message(other: &str) -> (r: String)
    ensures
        r@ == "unknown LIND_DEBUG_PANIC value: '"@ + other@ + "' (expected: panic, log, none)"@,
{
    let mut m = String::from_str("unknown LIND_DEBUG_PANIC value: '");
    m.append(other);
    m.append("' (expected: panic, log, none)");
    m
}

/// `[<file>:<line> <module>]`, where a log line comes from.
fn location_tag(file: &str, line: u32, module: &str) -> (r: String)
    ensures
        r@ == "["@ + file@ + ":"@ + dec(line as nat) + " "@ + module@ + "]"@,
{
    let mut t = String::from_str("[");
    t.append(file);
    t.append(":");
    let digits = decimal(line as u64);
    t.append(digits.as_str());
    t.append(" ");
    t.append(module);
    t.append("]");
    t
}

/// A log line: `head`, where it comes from, a space and the message.
pub open spec fn located_line(
    head: Seq<char>,
    file: Seq<char>,
    line: u32,
    module: Seq<char>,
    message: Seq<char>,
) -> Seq<char> {
    head + ("["@ + file + ":"@ + dec(line as nat) + " "@ + module + "]"@) + " "@ + message
}

/// `head` followed by where the line comes from and the message.
fn build_line(head: &str, file: &str, line: u32, module: &str, message: &str) -> (r: String)
    ensures
        r@ == located_line(head@, file@, line, module@, message@),
{
    let mut s = String::from_str(head);
    let tag = location_tag(file, line, module);
    s.append(tag.as_str());
    s.append(" ");
    s.append(message);
    s
}

/// The line an ordinary log message of `category` is written as:
/// `[LIND][<category>][<file>:<line> <module>] <message>`.
pub fn log_line(category: LogCategory, message: &str, file: &str, line: u32, module: &str) -> (r:
    String)
    ensures
        r@ == located_line("[LIND]["@ + category_name(category) + "]"@, file@, line, module@, message@),
{
    let mut head = String::from_str("[LIND][");
    head.append(category.as_str());
    head.append("]");
    build_line(head.as_str(), file, line, module, message)
}

/// The line a debug panic is logged (and panics) with:
/// `[LIND][DEBUG PANIC][<file>:<line> <module>] <message>`, or, when the
/// program goes on, `[LIND][DEBUG PANIC continuing][...] <message>`.
pub fn debug_panic_line(continuing: bool, message: &str, file: &str, line: u32, module: &str) -> (r:
    String)
    ensures
        r@ == located_line(
            if continuing {
                "[LIND][DEBUG PANIC continuing]"@
            } else {
                "[LIND][DEBUG PANIC]"@
            },
            file@,
            line,
            module@,
            message@,
        ),
{
    if continuing {
        build_line("[LIND][DEBUG PANIC continuing]", file, line, module, message)
    } else {
        build_line("[LIND][DEBUG PANIC]", file, line, module, message)
    }
}

/// The bit a category name (already lowercase and trimmed) stands for.
pub open spec fn name_bit(p: Seq<char>) -> Option<u8> {
    if p == "default"@ {
        Some(BIT_DEFAULT)
    } else if p == "dylink"@ {
        Some(BIT_DYLINK)
    } else if p == "threei"@ {
        Some(BIT_THREEI)
    } else {
        None
    }
}

/// `s` split at every comma.
pub open spec fn split_commas(s: Seq<char>) -> Seq<Seq<char>>
    decreases s.len(),
{
    if s.len() == 0 {
        seq![Seq::<char>::empty()]
    } else {
        let p = split_commas(s.drop_last());
        if s.last() == ',' {
            p.push(Seq::<char>::empty())
        } else {
            p.update(p.len() - 1, p.last().push(s.last()))
        }
    }
}

/// Folds the parts left to right: the union of their bits, or the first
/// part (trimmed) that names no category.
pub open spec fn parts_bits(parts: Seq<Seq<char>>) -> Result<u8, Seq<char>>
    decreases parts.len(),
{
    if parts.len() == 0 {
        Ok(0u8)
    } else {
        match parts_bits(parts.drop_last()) {
            Err(e) => Err(e),
            Ok(b) => match name_bit(trim_seq(parts.last())) {
                Some(x) => Ok(b | x),
                None => Err(trim_seq(parts.last())),
            },
        }
    }
}

/// Result of parsing a category list that is already lowercase: `all`,
/// `none`, or comma-separated names.
pub open spec fn spec_lower_csv(lower: Seq<char>) -> Result<u8, Seq<char>> {
    if lower == "all"@ {
        Ok((BIT_DEFAULT | BIT_DYLINK | BIT_THREEI) as u8)
    } else if lower == "none"@ {
        Ok(0u8)
    } else {
        parts_bits(split_commas(lower))
    }
}

/// Whether `r` is the parse result `spec` describes.
pub open spec fn csv_result_matches(
    r: Result<LogCategorySet, LindLoggerInitError>,
    spec: Result<u8, Seq<char>>,
) -> bool {
    match spec {
        Ok(b) => r == Ok::<LogCategorySet, LindLoggerInitError>(LogCategorySet(b)),
        Err(bad) => r matches Err(LindLoggerInitError::InvalidConfig(m)) && m@ == "unknown log category: '"@
            + bad + "'"@,
    }
}

/// The bit of a trimmed, lowercase category name.
fn part_bit(p: &str) -> (r: Option<u8>)
    ensures
        r == name_bit(p@),
{
    if str_eq(p, "default") {
        Some(BIT_DEFAULT)
    } else if str_eq(p, "dylink") {
        Some(BIT_DYLINK)
    } else if str_eq(p, "threei") {
        Some(BIT_THREEI)
    } else {
        None
    }
}

/// The parts of `s[..i]`: all complete parts, then the part still open
/// from `start`.
proof fn lemma_split_step(s: Seq<char>, i: int, start: int)
    requires
        0 <= start <= i < s.len(),
        split_commas(s.subrange(0, i)).last() == s.subrange(start, i),
    ensures
        s[i] == ',' ==> split_commas(s.subrange(0, i + 1)) == split_commas(s.subrange(0, i)).push(
            Seq::<char>::empty(),
        ),
        s[i] != ',' ==> split_commas(s.subrange(0, i + 1)) == split_commas(
            s.subrange(0, i),
        ).update(split_commas(s.subrange(0, i)).len() - 1, s.subrange(start, i + 1)),
{
    let t = s.subrange(0, i + 1);
    assert(t.drop_last() =~= s.subrange(0, i));
    assert(t.last() == s[i]);
    assert(s.subrange(start, i).push(s[i]) =~= s.subrange(start, i + 1));
}

/// Splitting two lists joined by a comma gives the parts of the first
/// followed by the parts of the second.
pub(crate) proof fn lemma_split_join(a: Seq<char>, b: Seq<char>)
    ensures
        split_commas(a.push(',') + b) == split_commas(a) + split_commas(b),
    decreases b.len(),
{
    let t = a.push(',') + b;
    if b.len() == 0 {
        assert(t =~= a.push(','));
        assert(t.drop_last() =~= a);
        assert(split_commas(a) + split_commas(b) =~= split_commas(a).push(Seq::<char>::empty()));
    } else {
        lemma_split_join(a, b.drop_last());
        lemma_split_nonempty(b.drop_last());
        lemma_split_nonempty(a);
        assert(t.drop_last() =~= a.push(',') + b.drop_last());
        assert(t.last() == b.last());
        let p = split_commas(a);
        let q = split_commas(b.drop_last());
        if b.last() == ',' {
            assert((p + q).push(Seq::<char>::empty()) =~= p + q.push(Seq::<char>::empty()));
        } else {
            let pq = p + q;
            assert(pq.update(pq.len() - 1, pq.last().push(b.last())) =~= p + q.update(
                q.len() - 1,
                q.last().push(b.last()),
            ));
        }
    }
}

/// The bits of two part lists, one after the other, are the union of
/// their bits.
pub(crate) proof fn lemma_parts_join(p: Seq<Seq<char>>, q: Seq<Seq<char>>, x: u8, y: u8)
    requires
        parts_bits(p) == Ok::<u8, Seq<char>>(x),
        parts_bits(q) == Ok::<u8, Seq<char>>(y),
    ensures
        parts_bits(p + q) == Ok::<u8, Seq<char>>(x | y),
    decreases q.len(),
{
    if q.len() == 0 {
        assert(p + q =~= p);
        assert(y == 0);
        assert(x | 0u8 == x) by (bit_vector);
    } else {
        let y0 = parts_bits(q.drop_last())->Ok_0;
        let z = name_bit(trim_seq(q.last()))->Some_0;
        lemma_parts_join(p, q.drop_last(), x, y0);
        assert((p + q).drop_last() =~= p + q.drop_last());
        assert((p + q).last() == q.last());
        assert((x | y0) | z == x | (y0 | z)) by (bit_vector);
    }
}

/// `split_commas` never yields an empty list of parts.
proof fn lemma_split_nonempty(s: Seq<char>)
    ensures
        split_commas(s).len() >= 1,
    decreases s.len(),
{
    if s.len() > 0 {
        lemma_split_nonempty(s.drop_last());
    }
}

impl LogCategorySet {
    /// Every category.
    pub fn all() -> (r: Self)
        ensures
            r.0 == BIT_DEFAULT | BIT_DYLINK | BIT_THREEI,
    {
        LogCategorySet(BIT_DEFAULT | BIT_DYLINK | BIT_THREEI)
    }

    /// No category.
    pub fn none() -> (r: Self)
        ensures
            r.0 == 0,
    {
        LogCategorySet(0)
    }

    /// Only the `Default` category.
    pub fn default_only() -> (r: Self)
        ensures
            r.0 == BIT_DEFAULT,
    {
        LogCategorySet(BIT_DEFAULT)
    }

    /// Whether `category` is in the set.
    pub fn contains(&self, category: LogCategory) -> (r: bool)
        ensures
            r == (self.0 & category_bit(category) != 0),
    {
        let bit = match category {
            LogCategory::Default => BIT_DEFAULT,
            LogCategory::DYLINK => BIT_DYLINK,
            LogCategory::THREEI => BIT_THREEI,
        };
        self.0 & bit != 0
    }

    /// Parses a category list already trimmed and lowercased: `all`,
    /// `none`, or comma-separated `default`, `dylink`, `threei` (each part
    /// trimmed). An unknown part gives `InvalidConfig`.
    pub fn from_lowercase_csv(lower: &str) -> (r: Result<Self, LindLoggerInitError>)
        ensures
            csv_result_matches(r, spec_lower_csv(lower@)),
    {
        if str_eq(lower, "all") {
            return Ok(Self::all());
        }
        if str_eq(lower, "none") {
            return Ok(Self::none());
        }
        let n = lower.unicode_len();
        let ghost s = lower@;
        let mut bits: u8 = 0;
        let mut bad: Option<&str> = None;
        let mut start: usize = 0;
        let mut i: usize = 0;
        proof {
            assert(s.subrange(0, 0) =~= Seq::<char>::empty());
        }
        while i < n
            invariant
                n == s.len(),
                s == lower@,
                start <= i <= n,
                split_commas(s.subrange(0, i as int)).last() == s.subrange(start as int, i as int),
                parts_bits(split_commas(s.subrange(0, i as int)).drop_last()) == (match bad {
                    None => Ok::<u8, Seq<char>>(bits),
                    Some(b) => Err::<u8, Seq<char>>(b@),
                }),
            decreases n - i,
        {
            proof {
                lemma_split_nonempty(s.subrange(0, i as int));
                lemma_split_step(s, i as int, start as int);
            }
            let c = lower.get_char(i);
            if c == ',' {
                let part = lower.substring_char(start, i);
                let tp = trim_str(part);
                let ghost prev = split_commas(s.subrange(0, i as int));
                proof {
                    assert(prev.push(Seq::<char>::empty()).drop_last() =~= prev);
                    assert(prev.drop_last().push(prev.last()) =~= prev);
                    assert(prev.drop_last() == prev.drop_last());
                }
                if bad.is_none() {
                    match part_bit(tp) {
                        Some(x) => {
                            bits = bits | x;
                        },
                        None => {
                            bad = Some(tp);
                        },
                    }
                }
                start = i + 1;
                proof {
                    assert(s.subrange(start as int, i + 1) =~= Seq::<char>::empty());
                }
            } else {
                proof {
                    let prev = split_commas(s.subrange(0, i as int));
                    let next = prev.update(prev.len() - 1, s.subrange(start as int, i + 1));
                    assert(next.drop_last() =~= prev.drop_last());
                }
            }
            i = i + 1;
        }
        let part = lower.substring_char(start, n);
        let tp = trim_str(part);
        proof {
            assert(s.subrange(0, n as int) =~= s);
            lemma_split_nonempty(s);
            let parts = split_commas(s);
            assert(parts.drop_last().push(parts.last()) =~= parts);
        }
        match bad {
            Some(b) => Err(LindLoggerInitError::InvalidConfig(unknown_category_message(b))),
            None => match part_bit(tp) {
                Some(x) => Ok(LogCategorySet(bits | x)),
                None => Err(LindLoggerInitError::InvalidConfig(unknown_category_message(tp))),
            },
        }
    }

    /// Parses a category list: trimmed, lowercased, then as
    /// `from_lowercase_csv`.
    pub fn from_csv(s: &str) -> (r: Result<Self, LindLoggerInitError>)
        ensures
            csv_result_matches(r, spec_lower_csv(lowercase(trim_seq(s@)))),
    {
        let t = trim_str(s);
        let lower = to_lowercase_str(t);
        Self::from_lowercase_csv(lower.as_str())
    }
}

/// The path of a file output setting: the setting without a leading
/// `file:`.
pub open spec fn spec_file_path(t: Seq<char>) -> Seq<char> {
    if t.len() >= 5 && t.subrange(0, 5) == "file:"@ {
        t.subrange(5, t.len() as int)
    } else {
        t
    }
}

/// Whether `r` is the parse of the trimmed output setting `t`.
pub open spec fn output_matches(r: Result<LogOutput, LindLoggerInitError>, t: Seq<char>) -> bool {
    if t == "stdout"@ {
        r matches Ok(LogOutput::Stdout)
    } else if t == "stderr"@ {
        r matches Ok(LogOutput::Stderr)
    } else if t == "none"@ {
        r matches Ok(LogOutput::Discard)
    } else {
        match r {
            Ok(LogOutput::File(p)) => p@ == spec_file_path(t),
            _ => false,
        }
    }
}

/// Whether `r` is the parse of the trimmed debug-panic setting `t`.
pub open spec fn panic_matches(r: Result<PanicBehavior, LindLoggerInitError>, t: Seq<char>) -> bool {
    if t == "panic"@ || t == "panic-and-exit"@ {
        r == Ok::<PanicBehavior, LindLoggerInitError>(PanicBehavior::PanicAndExit)
    } else if t == "log"@ || t == "log-only"@ {
        r == Ok::<PanicBehavior, LindLoggerInitError>(PanicBehavior::LogOnly)
    } else if t == "none"@ || t == "no-action"@ {
        r == Ok::<PanicBehavior, LindLoggerInitError>(PanicBehavior::NoAction)
    } else {
        match r {
            Err(LindLoggerInitError::InvalidConfig(m)) => m@ == "unknown LIND_DEBUG_PANIC value: '"@
                + t + "' (expected: panic, log, none)"@,
            _ => false,
        }
    }
}

/// Parses a trimmed output setting: `stdout`, `stderr`, `none`, or a path
/// (after an optional `file:` prefix).
pub fn parse_trimmed_log_output(t: &str) -> (r: Result<LogOutput, LindLoggerInitError>)
    ensures
        output_matches(r, t@),
{
    if str_eq(t, "stdout") {
        return Ok(LogOutput::Stdout);
    }
    if str_eq(t, "stderr") {
        return Ok(LogOutput::Stderr);
    }
    if str_eq(t, "none") {
        return Ok(LogOutput::Discard);
    }
    proof {
        reveal_strlit("file:");
    }
    let path = match strip_prefix_str(t, "file:") {
        Some(p) => {
            proof {
                assert(t@.subrange(0, 5) =~= "file:"@);
                assert(p@ =~= t@.subrange(5, t@.len() as int));
            }
            p
        },
        None => t,
    };
    Ok(LogOutput::File(path.to_owned()))
}

/// Parses an output setting after trimming it (see
/// `parse_trimmed_log_output`).
pub fn parse_log_output(s: &str) -> (r: Result<LogOutput, LindLoggerInitError>)
    ensures
        output_matches(r, trim_seq(s@)),
{
    parse_trimmed_log_output(trim_str(s))
}

/// Parses a debug-panic setting after trimming it: `panic` or
/// `panic-and-exit`, `log` or `log-only`, `none` or `no-action`; anything
/// else is `InvalidConfig`.
pub fn parse_panic_behavior(s: &str) -> (r: Result<PanicBehavior, LindLoggerInitError>)
    ensures
        panic_matches(r, trim_seq(s@)),
{
    let t = trim_str(s);
    if str_eq(t, "panic") || str_eq(t, "panic-and-exit") {
        Ok(PanicBehavior::PanicAndExit)
    } else if str_eq(t, "log") || str_eq(t, "log-only") {
        Ok(PanicBehavior::LogOnly)
    } else if str_eq(t, "none") || str_eq(t, "no-action") {
        Ok(PanicBehavior::NoAction)
    } else {
        Err(LindLoggerInitError::InvalidConfig(unknown_panic_message(t)))
    }
}

impl LindLoggerConfig {
    /// The default configuration, logging to the file at `log_path`:
    /// debug panics panic, and only the `Default` category is enabled.
    pub fn with_log_path(log_path: String) -> (r: LindLoggerConfig)
        ensures
            r.output == LogOutput::File(log_path),
            r.panic_behavior == PanicBehavior::PanicAndExit,
            r.enabled_categories == LogCategorySet(BIT_DEFAULT),
    {
        LindLoggerConfig {
            output: LogOutput::File(log_path),
            panic_behavior: PanicBehavior::PanicAndExit,
            enabled_categories: LogCategorySet::default_only(),
        }
    }

    /// The defaults of a configuration read from the environment, for each
    /// setting left unset: output to standard error, every category
    /// enabled, and debug panics that panic.
    pub fn env_defaults() -> (r: LindLoggerConfig)
        ensures
            r.output == LogOutput::Stderr,
            r.panic_behavior == PanicBehavior::PanicAndExit,
            r.enabled_categories == LogCategorySet(BIT_DEFAULT | BIT_DYLINK | BIT_THREEI),
    {
        LindLoggerConfig {
            output: LogOutput::Stderr,
            panic_behavior: PanicBehavior::PanicAndExit,
            enabled_categories: LogCategorySet::all(),
        }
    }
}

/// Whether messages of `category` are emitted, given the enabled set of an
/// initialized logger (`None` when the logger was never set up, in which
/// case every category is enabled).
pub fn category_enabled(enabled: Option<&LogCategorySet>, category: LogCategory) -> (r: bool)
    ensures
        enabled is None ==> r,
        enabled matches Some(set) ==> r == (set.0 & category_bit(category) != 0),
{
    match enabled {
        Some(set) => set.contains(category),
        None => true,
    }
}

/// What a debug panic does.
#[derive(Clone, Copy, Debug, PartialEq, Eq, Structural)]
pub enum DebugPanicAction {
    /// Return at once.
    Nothing,
    /// Log a "continuing" line and return.
    LogAndContinue,
    /// Log the line, then panic with it.
    LogAndPanic,
}

/// The action of a debug panic under the configured behavior (`None` when
/// the logger was never set up, which behaves as `PanicAndExit`).
pub fn debug_panic(behavior: Option<PanicBehavior>) -> (r: DebugPanicAction)
    ensures
        r == (match behavior {
            Some(PanicBehavior::NoAction) => DebugPanicAction::Nothing,
            Some(PanicBehavior::LogOnly) => DebugPanicAction::LogAndContinue,
            _ => DebugPanicAction::LogAndPanic,
        }),
{
    match behavior {
        Some(PanicBehavior::NoAction) => DebugPanicAction::Nothing,
        Some(PanicBehavior::LogOnly) => DebugPanicAction::LogAndContinue,
        _ => DebugPanicAction::LogAndPanic,
    }
}

/// A configuration built from the optional settings of the environment on
/// top of `base`: the output setting, then the category list, then the
/// debug-panic setting, each parsed as its own parser does; the first
/// setting that fails to parse gives the error.
pub fn config_from_values(
    base: LindLoggerConfig,
    output: Option<&str>,
    categories: Option<&str>,
    panic_behavior: Option<&str>,
) -> (r: Result<LindLoggerConfig, LindLoggerInitError>)
    ensures
        match categories {
            Some(c) => match spec_lower_csv(lowercase(trim_seq(c@))) {
                Err(bad) => r matches Err(LindLoggerInitError::InvalidConfig(m)) && m@
                    == "unknown log category: '"@ + bad + "'"@,
                Ok(bits) => match panic_behavior {
                    Some(p) => {
                        let t = trim_seq(p@);
                        if t == "panic"@ || t == "panic-and-exit"@ || t == "log"@ || t == "log-only"@
                            || t == "none"@ || t == "no-action"@ {
                            r matches Ok(cfg) && cfg.enabled_categories == LogCategorySet(bits)
                                && panic_matches(Ok(cfg.panic_behavior), t)
                        } else {
                            panic_matches(
                                match r {
                                    Ok(cfg) => Ok(cfg.panic_behavior),
                                    Err(e) => Err(e),
                                },
                                t,
                            ) && r is Err
                        }
                    },
                    None => r matches Ok(cfg) && cfg.enabled_categories == LogCategorySet(bits)
                        && cfg.panic_behavior == base.panic_behavior,
                },
            },
            None => match panic_behavior {
                Some(p) => {
                    let t = trim_seq(p@);
                    match r {
                        Ok(cfg) => cfg.enabled_categories == base.enabled_categories && panic_matches(
                            Ok(cfg.panic_behavior),
                            t,
                        ),
                        Err(e) => panic_matches(Err(e), t),
                    }
                },
                None => r matches Ok(cfg) && cfg.enabled_categories == base.enabled_categories
                    && cfg.panic_behavior == base.panic_behavior,
            },
        },
        r matches Ok(cfg) ==> match output {
            Some(o) => output_matches(Ok(cfg.output), trim_seq(o@)),
            None => cfg.output == base.output,
        },
{
    let mut config = base;
    match output {
        Some(o) => {
            match parse_log_output(o) {
                Ok(out) => config.output = out,
                Err(e) => return Err(e),
            }
        },
        None => {},
    }
    match categories {
        Some(c) => {
            match LogCategorySet::from_csv(c) {
                Ok(set) => config.enabled_categories = set,
                Err(e) => return Err(e),
            }
        },
        None => {},
    }
    match panic_behavior {
        Some(p) => {
            match parse_panic_behavior(p) {
                Ok(b) => config.panic_behavior = b,
                Err(e) => return Err(e),
            }
        },
        None => {},
    }
    Ok(config)
}

} // verus!
