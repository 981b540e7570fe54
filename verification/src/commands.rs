//! The decisions behind the settings window's commands and the start-up:
//! testing a command, the platform, the port and window flags of the command
//! line, and download progress.
use vstd::prelude::*;
use crate::config::PluginConfig;
use crate::server::run_line;
use crate::text::{chars_of, concat};
use crate::tts::str_eq;

verus! {

/// Why a command cannot be tested.
pub enum TestCommandError {
    /// No command has the id.
    NotFound,
    /// The command has no command line for this platform.
    NoCommandForPlatform,
}

impl TestCommandError {
    /// The message shown to the user.
    pub fn message(&self) -> (r: String)
        ensures
            r@ == match self {
                TestCommandError::NotFound => "Команда не найдена"@,
                TestCommandError::NoCommandForPlatform => "Команда не задана для текущей платформы"@,
            },
    {
        match self {
            TestCommandError::NotFound => "Команда не найдена".to_owned(),
            TestCommandError::NoCommandForPlatform => "Команда не задана для текущей платформы".to_owned(),
        }
    }
}

/// The command line that testing the command `command_id` runs: that of the
/// first command with the id, for the platform; an error when there is no such
/// command or its line is empty.
pub fn command_to_test(cfg: &PluginConfig, command_id: &str, windows: bool) -> (r: Result<
    String,
    TestCommandError,
>)
    ensures
        match r {
            Ok(line) => exists|i: int|
                0 <= i < cfg.commands@.len() && cfg.commands@[i].id@ == command_id@ && (forall|j: int|
                    0 <= j < i ==> cfg.commands@[j].id@ != command_id@) && line@ == run_line(
                    cfg.commands@[i],
                    false,
                    windows,
                ) && line@.len() > 0,
            Err(TestCommandError::NotFound) => forall|i: int|
                0 <= i < cfg.commands@.len() ==> cfg.commands@[i].id@ != command_id@,
            Err(TestCommandError::NoCommandForPlatform) => exists|i: int|
                0 <= i < cfg.commands@.len() && cfg.commands@[i].id@ == command_id@ && (forall|j: int|
                    0 <= j < i ==> cfg.commands@[j].id@ != command_id@) && run_line(
                    cfg.commands@[i],
                    false,
                    windows,
                ).len() == 0,
        },
{
    let mut i: usize = 0;
    while i < cfg.commands.len()
        invariant
            i <= cfg.commands.len(),
            forall|j: int| 0 <= j < i ==> cfg.commands@[j].id@ != command_id@,
        decreases cfg.commands.len() - i,
    {
        let c = &cfg.commands[i];
        if str_eq(c.id.as_str(), command_id) {
            let line = if windows {
                c.windows_cmd.clone()
            } else {
                c.linux_cmd.clone()
            };
            if line.as_str().is_empty() {
                return Err(TestCommandError::NoCommandForPlatform);
            }
            return Ok(line);
        }
        i = i + 1;
    }
    Err(TestCommandError::NotFound)
}

/// The message after a command line was started.
pub fn launched_message(line: &str) -> (r: String)
    ensures
        r@ == "Запущено: "@ + line@,
{
    concat("Запущено: ", line)
}

/// The name of the platform the settings window shows.
pub fn get_current_platform(windows: bool) -> (r: &'static str)
    ensures
        r@ == if windows {
            "windows"@
        } else {
            "linux"@
        },
{
    if windows {
        "windows"
    } else {
        "linux"
    }
}

// ───────────────────────────── the command line ─────────────────────────────

/// `c` is an ASCII decimal digit.
pub open spec fn is_digit(c: char) -> bool {
    '0' <= c && c <= '9'
}

/// The number written by the decimal digits `ds`.
pub open spec fn digits_value(ds: Seq<char>) -> int
    decreases ds.len(),
{
    if ds.len() == 0 {
        0
    } else {
        digits_value(ds.drop_last()) * 10 + (ds.last() as int - '0' as int)
    }
}

/// `s` without one leading `+`.
pub open spec fn unsigned_digits(s: Seq<char>) -> Seq<char> {
    if s.len() > 0 && s[0] == '+' {
        s.drop_first()
    } else {
        s
    }
}

/// What `str::parse::<u16>` gives: an optional `+`, then one or more decimal
/// digits whose value fits in 16 bits.
pub open spec fn parsed_u16(s: Seq<char>) -> Option<u16> {
    let ds = unsigned_digits(s);
    if ds.len() > 0 && (forall|i: int| 0 <= i < ds.len() ==> is_digit(#[trigger] ds[i]))
        && digits_value(ds) <= u16::MAX {
        Some(digits_value(ds) as u16)
    } else {
        None
    }
}

proof fn lemma_digits_value_nonneg(ds: Seq<char>)
    requires
        forall|i: int| 0 <= i < ds.len() ==> is_digit(#[trigger] ds[i]),
    ensures
        digits_value(ds) >= 0,
    decreases ds.len(),
{
    if ds.len() > 0 {
        lemma_digits_value_nonneg(ds.drop_last());
        assert(is_digit(ds[ds.len() - 1]));
    }
}

/// `s` read as a 16-bit number.
pub fn parse_u16(s: &str) -> (r: Option<u16>)
    ensures
        r == parsed_u16(s@),
{
    let v = chars_of(s);
    let start: usize = if v.len() > 0 && v[0] == '+' {
        1
    } else {
        0
    };
    let ghost ds = unsigned_digits(v@);
    assert(ds == v@.subrange(start as int, v@.len() as int));
    if start >= v.len() {
        return None;
    }
    let mut value: u32 = 0;
    let mut i: usize = start;
    while i < v.len()
        invariant
            start <= i <= v.len(),
            ds == v@.subrange(start as int, v@.len() as int),
            v@ == s@,
            ds == unsigned_digits(s@),
            forall|k: int| start <= k < i ==> is_digit(#[trigger] v@[k]),
            value == digits_value(v@.subrange(start as int, i as int)),
            value <= u16::MAX,
        decreases v.len() - i,
    {
        let c = v[i];
        assert(v@.subrange(start as int, i + 1).drop_last() == v@.subrange(start as int, i as int));
        if !('0' <= c && c <= '9') {
            assert(ds[i - start] == c);
            assert(!is_digit(ds[i - start]));
            return None;
        }
        let d: u32 = (c as u32) - ('0' as u32);
        let next: u32 = value * 10 + d;
        assert(digits_value(v@.subrange(start as int, i + 1)) == next);
        if next > 65535 {
            proof {
                assert(ds.take(i - start + 1) == v@.subrange(start as int, i + 1));
                assert forall|k: int| 0 <= k < i - start + 1 implies is_digit(#[trigger] ds[k]) by {
                    assert(ds[k] == v@[start + k]);
                }
                lemma_prefix_grows(ds, i - start + 1);
            }
            return None;
        }
        value = next;
        i = i + 1;
    }
    assert(v@.subrange(start as int, v@.len() as int) == ds);
    Some(value as u16)
}

/// A longer digit string is worth at least as much as its prefix.
proof fn lemma_prefix_grows(ds: Seq<char>, n: int)
    requires
        0 <= n <= ds.len(),
        forall|i: int| 0 <= i < n ==> is_digit(#[trigger] ds[i]),
    ensures
        (forall|i: int| 0 <= i < ds.len() ==> is_digit(#[trigger] ds[i])) ==> digits_value(ds)
            >= digits_value(ds.take(n)),
    decreases ds.len() - n,
{
    if forall|i: int| 0 <= i < ds.len() ==> is_digit(#[trigger] ds[i]) {
        if n < ds.len() {
            lemma_prefix_grows(ds, n + 1);
            assert(ds.take(n + 1).drop_last() == ds.take(n));
            assert(is_digit(ds[n]));
            lemma_digits_value_nonneg(ds.take(n));
        } else {
            assert(ds.take(n) == ds);
        }
    }
}

/// The port given on the command line: the argument after the first `--port`
/// that has one, when it reads as a 16-bit number.
pub fn port_from_args(args: &Vec<String>) -> (r: Option<u16>)
    ensures
        match r {
            Some(p) => exists|i: int|
                0 <= i && i + 1 < args@.len() && (#[trigger] args@[i])@ == "--port"@ && (forall|j: int|
                    0 <= j < i ==> args@[j]@ != "--port"@) && parsed_u16(args@[i + 1]@) == Some(p),
            None => forall|i: int|
                0 <= i && i + 1 < args@.len() && (#[trigger] args@[i])@ == "--port"@ && (forall|j: int|
                    0 <= j < i ==> args@[j]@ != "--port"@) ==> parsed_u16(args@[i + 1]@) is None,
        },
{
    let mut i: usize = 0;
    while i < args.len() && i + 1 < args.len()
        invariant
            forall|j: int| 0 <= j < i ==> args@[j]@ != "--port"@,
        decreases args.len() - i,
    {
        if str_eq(args[i].as_str(), "--port") {
            return parse_u16(args[i + 1].as_str());
        }
        i = i + 1;
    }
    None
}

/// Whether the command line asks to start hidden in the background.
pub fn starts_in_background(args: &Vec<String>) -> (r: bool)
    ensures
        r == exists|i: int| 0 <= i < args@.len() && args@[i]@ == "--background"@,
{
    let mut i: usize = 0;
    while i < args.len()
        invariant
            i <= args.len(),
            forall|j: int| 0 <= j < i ==> args@[j]@ != "--background"@,
        decreases args.len() - i,
    {
        if str_eq(args[i].as_str(), "--background") {
            return true;
        }
        i = i + 1;
    }
    false
}

// ───────────────────────────── downloads ─────────────────────────────

/// The percentage of a download: none known while the total is unknown (0).
pub open spec fn percent(downloaded: u64, total: u64) -> int {
    if total > 0 {
        (downloaded * 100) / (total as int)
    } else {
        0
    }
}

/// The percentage shown while downloading.
pub fn progress_percent(downloaded: u64, total: u64) -> (r: u64)
    requires
        downloaded * 100 <= u64::MAX,
    ensures
        r == percent(downloaded, total),
{
    if total > 0 {
        downloaded * 100 / total
    } else {
        0
    }
}

/// While the download is not past its known total, the percentage is at most 100.
pub proof fn law_percent_bounded(downloaded: u64, total: u64)
    requires
        downloaded <= total,
    ensures
        0 <= percent(downloaded, total) <= 100,
{
    if total > 0 {
        assert((downloaded * 100) / (total as int) <= 100) by (nonlinear_arith)
            requires
                downloaded <= total,
                total > 0,
        ;
        assert((downloaded * 100) / (total as int) >= 0) by (nonlinear_arith)
            requires
                total > 0,
        ;
    }
}

} // verus!
