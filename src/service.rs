use vstd::prelude::*;

verus! {

/// How much the server logs, from nothing to everything.
#[derive(Clone, Copy, Debug, PartialEq, Eq, Structural)]
pub enum LogLevel {
    Off,
    Error,
    Warn,
    Info,
    Debug,
    Trace,
}

pub open spec fn level_text(level: LogLevel) -> Seq<char> {
    match level {
        LogLevel::Off => "off"@,
        LogLevel::Error => "error"@,
        LogLevel::Warn => "warn"@,
        LogLevel::Info => "info"@,
        LogLevel::Debug => "debug"@,
        LogLevel::Trace => "trace"@,
    }
}

/// The name of a level as log filters write it.
pub fn level_name(level: LogLevel) -> (r: &'static str)
    ensures
        r@ == level_text(level),
{
    match level {
        LogLevel::Off => "off",
        LogLevel::Error => "error",
        LogLevel::Warn => "warn",
        LogLevel::Info => "info",
        LogLevel::Debug => "debug",
        LogLevel::Trace => "trace",
    }
}

/// The command-line flag that selects a level; the default level, error,
/// needs none.
pub open spec fn level_flag(level: LogLevel) -> Option<Seq<char>> {
    match level {
        LogLevel::Off => Some("-q"@),
        LogLevel::Error => None,
        LogLevel::Warn => Some("-v"@),
        LogLevel::Info => Some("-vv"@),
        LogLevel::Debug => Some("-vvv"@),
        LogLevel::Trace => Some("-vvvv"@),
    }
}

/// The arguments an installed service is started with to log at `level`.
pub fn verbose_to_str(level: LogLevel) -> (r: Vec<String>)
    ensures
        match level_flag(level) {
            None => r@.len() == 0,
            Some(flag) => r@.len() == 1 && r@[0]@ == flag,
        },
{
    let flag = match level {
        LogLevel::Off => "-q",
        LogLevel::Error => {
            return Vec::new();
        },
        LogLevel::Warn => "-v",
        LogLevel::Info => "-vv",
        LogLevel::Debug => "-vvv",
        LogLevel::Trace => "-vvvv",
    };
    let mut args: Vec<String> = Vec::new();
    args.push(String::from_str(flag));
    args
}

/// The log filter for `level`: nothing when logging is off, else `level` for
/// the HTTP layers and for the crate named `crate_name`, and nothing for the rest.
pub open spec fn filter_text(level: LogLevel, crate_name: Seq<char>) -> Seq<char> {
    if level == LogLevel::Off {
        "none"@
    } else {
        "none,tower_http="@ + level_text(level) + ",axum="@ + level_text(level) + ","@ + crate_name
            + "="@ + level_text(level)
    }
}

pub fn log_filter(level: LogLevel, crate_name: &str) -> (r: String)
    ensures
        r@ == filter_text(level, crate_name@),
{
    if level == LogLevel::Off {
        return String::from_str("none");
    }
    let name = level_name(level);
    let mut r = String::from_str("none,tower_http=");
    r.append(name);
    r.append(",axum=");
    r.append(name);
    r.append(",");
    r.append(crate_name);
    r.append("=");
    r.append(name);
    r
}

/// The state of the installed service as the service manager reports it.
#[derive(Clone, Copy, Debug, PartialEq, Eq, Structural)]
pub enum ServiceState {
    NotInstalled,
    Running,
    Stopped,
}

/// Whether the service must be stopped before it is uninstalled.
pub fn should_stop(state: ServiceState) -> (r: bool)
    ensures
        r == (state == ServiceState::Running),
{
    match state {
        ServiceState::Running => true,
        _ => false,
    }
}

/// Whether there is an installed service to remove.
pub fn should_uninstall(state: ServiceState) -> (r: bool)
    ensures
        r == (state != ServiceState::NotInstalled),
{
    match state {
        ServiceState::NotInstalled => false,
        _ => true,
    }
}

} // verus!
