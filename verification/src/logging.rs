//! How the monitor logs, and what it says of its last failure.

use vstd::prelude::*;
use vstd::string::{StrSliceExecFns, StringExecFns};

use crate::config::{text_in, Host, Os};
use crate::errno::Errno;
use crate::snapshot::{find_code, position};

verus! {

/// The filter for a level.
pub open spec fn filter_of(level: u32) -> Seq<char> {
    match level {
        0 => "off"@,
        1 => "error"@,
        2 => "warn"@,
        3 => "info"@,
        4 => "debug"@,
        _ => "trace"@,
    }
}

/// The filter for a level.
pub fn log_level_to_filter_str(level: u32) -> (r: &'static str)
    ensures
        r@ == filter_of(level),
{
    match level {
        0 => "off",
        1 => "error",
        2 => "warn",
        3 => "info",
        4 => "debug",
        _ => "trace",
    }
}

/// Where the log goes.
#[derive(Debug, Clone, Copy, PartialEq, Eq, Structural)]
pub enum LogTarget {
    /// Where the logger writes by itself.
    Standard,
    Stdout,
    Stderr,
    /// A descriptor.
    Pipe(i32),
}

/// The target with the number: a descriptor, or -1 for the logger's own
/// choice. The log cannot go to the standard input.
pub open spec fn target_of(host: Host, target: i32) -> Option<LogTarget> {
    if target < -1 || target == 0 {
        None
    } else if target == -1 {
        Some(LogTarget::Standard)
    } else if target == 1 {
        Some(LogTarget::Stdout)
    } else if target == 2 {
        Some(LogTarget::Stderr)
    } else if host.os == Os::Windows {
        None
    } else {
        Some(LogTarget::Pipe(target))
    }
}

/// When the log is coloured.
pub open spec fn style_of(style: u32) -> Option<Seq<char>> {
    match style {
        0 => Some("auto"@),
        1 => Some("always"@),
        2 => Some("never"@),
        _ => None,
    }
}

/// How to log.
#[derive(Debug)]
pub struct LogSetup {
    pub target: LogTarget,
    pub filter: &'static str,
    pub write_style: &'static str,
    /// The environment may override the filter and the style.
    pub use_env: bool,
    /// Enclaves run in debug mode.
    pub debug: bool,
}

fn log_target(host: &Host, target: i32) -> (r: Option<LogTarget>)
    ensures
        r == target_of(*host, target),
{
    if target < -1 || target == 0 {
        None
    } else if target == -1 {
        Some(LogTarget::Standard)
    } else if target == 1 {
        Some(LogTarget::Stdout)
    } else if target == 2 {
        Some(LogTarget::Stderr)
    } else if host.os == Os::Windows {
        None
    } else {
        Some(LogTarget::Pipe(target))
    }
}

/// How to log, from the numbers of the interface.
pub fn krun_init_log(host: &Host, target: i32, level: u32, style: u32, options: u32) -> (r: Result<
    LogSetup,
    Errno,
>)
    ensures
        match (target_of(*host, target), style_of(style)) {
            (Some(t), Some(w)) => if options <= 1 {
                r matches Ok(setup) && setup.target == t && setup.filter@ == filter_of(level)
                    && setup.write_style@ == w && setup.use_env == (options == 0) && setup.debug
                    == (level >= 4)
            } else {
                r == Err::<LogSetup, Errno>(Errno::Inval)
            },
            _ => r == Err::<LogSetup, Errno>(Errno::Inval),
        },
{
    let target = match log_target(host, target) {
        Some(t) => t,
        None => return Err(Errno::Inval),
    };
    let filter = log_level_to_filter_str(level);
    let write_style = match style {
        0 => "auto",
        1 => "always",
        2 => "never",
        _ => return Err(Errno::Inval),
    };
    let use_env: bool = match options {
        0 => true,
        1 => false,
        _ => return Err(Errno::Inval),
    };
    Ok(LogSetup { target, filter, write_style, use_env, debug: level >= 4 })
}

/// How to log at a level: to the logger's own choice of target and style,
/// which the environment may override.
pub fn krun_set_log_level(level: u32) -> (r: LogSetup)
    ensures
        r.target == LogTarget::Standard,
        r.filter@ == filter_of(level),
        r.write_style@ == "auto"@,
        r.use_env,
        r.debug == (level == 4),
{
    LogSetup {
        target: LogTarget::Standard,
        filter: log_level_to_filter_str(level),
        write_style: "auto",
        use_env: true,
        debug: level == 4,
    }
}

/// The description of a failure that can be handed out as a C string: it holds
/// no NUL.
pub open spec fn last_error_of(message: Seq<char>) -> Seq<char> {
    if find_code(message, 0, 0) < message.len() {
        "libkrun error contained an interior NUL byte"@
    } else {
        message
    }
}

/// The description of a failure that can be handed out as a C string.
pub fn last_error_text(message: &str) -> (r: String)
    ensures
        r@ == last_error_of(message@),
{
    let n: usize = message.unicode_len();
    if position(message, 0, 0, n) < n {
        String::from_str("libkrun error contained an interior NUL byte")
    } else {
        String::from_str(message)
    }
}

/// The description of the last failure on a thread.
#[derive(Debug)]
pub struct LastError {
    message: Option<String>,
}

impl View for LastError {
    type V = Option<Seq<char>>;

    closed spec fn view(&self) -> Option<Seq<char>> {
        text_in(self.message)
    }
}

impl LastError {
    /// No failure yet.
    pub fn new() -> (r: Self)
        ensures
            r@ is None,
    {
        LastError { message: None }
    }

    /// Forget the failure.
    pub fn clear(&mut self)
        ensures
            final(self)@ is None,
    {
        self.message = None;
    }

    /// Describe the failure.
    pub fn set(&mut self, message: &str)
        ensures
            final(self)@ == Some(last_error_of(message@)),
    {
        self.message = Some(last_error_text(message));
    }

    /// The description, where there was a failure.
    pub fn text(&self) -> (r: Option<&str>)
        ensures
            match r {
                Some(t) => self@ == Some(t@),
                None => self@ is None,
            },
    {
        match &self.message {
            Some(t) => Some(t.as_str()),
            None => None,
        }
    }
}

} // verus!
