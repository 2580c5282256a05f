use vstd::prelude::*;
use vstd::string::*;

verus! {

/// Log levels, from the most to the least verbose.
#[derive(Debug, Clone, Copy, PartialEq, Eq, PartialOrd, Ord, Hash, Structural)]
pub enum LogLevel {
    Trace,
    Debug,
    Info,
    Warn,
    Error,
}

impl LogLevel {
    /// Position of the level, `Trace` being 0 and `Error` 4.
    pub open spec fn spec_rank(self) -> u8 {
        match self {
            LogLevel::Trace => 0,
            LogLevel::Debug => 1,
            LogLevel::Info => 2,
            LogLevel::Warn => 3,
            LogLevel::Error => 4,
        }
    }

    /// The level as printed in a log line (five characters).
    pub open spec fn spec_label(self) -> Seq<char> {
        match self {
            LogLevel::Trace => "TRACE"@,
            LogLevel::Debug => "DEBUG"@,
            LogLevel::Info => " INFO"@,
            LogLevel::Warn => " WARN"@,
            LogLevel::Error => "ERROR"@,
        }
    }

    pub fn rank(&self) -> (r: u8)
        ensures
            r == self.spec_rank(),
    {
        match self {
            LogLevel::Trace => 0,
            LogLevel::Debug => 1,
            LogLevel::Info => 2,
            LogLevel::Warn => 3,
            LogLevel::Error => 4,
        }
    }

    pub fn label(&self) -> (r: &'static str)
        ensures
            r@ == self.spec_label(),
    {
        match self {
            LogLevel::Trace => "TRACE",
            LogLevel::Debug => "DEBUG",
            LogLevel::Info => " INFO",
            LogLevel::Warn => " WARN",
            LogLevel::Error => "ERROR",
        }
    }
}

/// The part of the application a log entry comes from, with a name.
#[derive(Debug, Clone, Copy)]
pub enum LogComponent {
    Domain(&'static str),
    Application(&'static str),
    Infrastructure(&'static str),
    Presentation(&'static str),
}

impl LogComponent {
    /// The component as printed in a log line, such as `DOM:Chart`.
    pub open spec fn spec_text(self) -> Seq<char> {
        match self {
            LogComponent::Domain(name) => "DOM:"@ + name@,
            LogComponent::Application(name) => "APP:"@ + name@,
            LogComponent::Infrastructure(name) => "INF:"@ + name@,
            LogComponent::Presentation(name) => "PRE:"@ + name@,
        }
    }

    pub fn text(&self) -> (r: String)
        ensures
            r@ == self.spec_text(),
    {
        let (prefix, name) = match self {
            LogComponent::Domain(name) => ("DOM:", *name),
            LogComponent::Application(name) => ("APP:", *name),
            LogComponent::Infrastructure(name) => ("INF:", *name),
            LogComponent::Presentation(name) => ("PRE:", *name),
        };
        let mut r = String::from_str(prefix);
        r.append(name);
        r
    }
}

/// Structured log entry.
#[derive(Debug, Clone)]
pub struct LogEntry {
    pub timestamp: u64,
    pub level: LogLevel,
    pub component: LogComponent,
    pub message: String,
    pub metadata: Option<String>,
}

impl LogEntry {
    /// An entry stamped `timestamp` (read from the time provider by the caller).
    pub fn new(timestamp: u64, level: LogLevel, component: LogComponent, message: &str) -> (e: Self)
        ensures
            e.timestamp == timestamp,
            e.level == level,
            e.component == component,
            e.message@ == message@,
            e.metadata is None,
    {
        LogEntry { timestamp, level, component, message: String::from_str(message), metadata: None }
    }

    pub fn new_with_metadata(
        timestamp: u64,
        level: LogLevel,
        component: LogComponent,
        message: &str,
        metadata: &str,
    ) -> (e: Self)
        ensures
            e.timestamp == timestamp,
            e.level == level,
            e.component == component,
            e.message@ == message@,
            e.metadata matches Some(m) && m@ == metadata@,
    {
        LogEntry {
            timestamp,
            level,
            component,
            message: String::from_str(message),
            metadata: Some(String::from_str(metadata)),
        }
    }
}

/// A log line: `[time] LEVEL COMPONENT | message`, then ` | metadata` when
/// the entry has metadata.
pub open spec fn spec_log_line(time_text: Seq<char>, e: LogEntry) -> Seq<char> {
    let head = "["@ + time_text + "] "@ + e.level.spec_label() + " "@ + e.component.spec_text()
        + " | "@ + e.message@;
    match e.metadata {
        Some(m) => head + " | "@ + m@,
        None => head,
    }
}

/// Logger writing to the browser console from a minimum level up.
#[derive(Debug, Clone, Copy)]
pub struct ConsoleLogger {
    pub min_level: LogLevel,
}

impl ConsoleLogger {
    pub fn new(min_level: LogLevel) -> (l: Self)
        ensures
            l.min_level == min_level,
    {
        ConsoleLogger { min_level }
    }

    /// Production logging: `Info` and above.
    pub fn new_production() -> (l: Self)
        ensures
            l.min_level == LogLevel::Info,
    {
        Self::new(LogLevel::Info)
    }

    /// Development logging: `Debug` and above.
    pub fn new_development() -> (l: Self)
        ensures
            l.min_level == LogLevel::Debug,
    {
        Self::new(LogLevel::Debug)
    }

    /// Whether an entry of `level` is written.
    pub fn should_log(&self, level: LogLevel) -> (b: bool)
        ensures
            b == (level.spec_rank() >= self.min_level.spec_rank()),
    {
        level.rank() >= self.min_level.rank()
    }

    /// The line written for `entry`, `time_text` being its formatted timestamp.
    pub fn format_log_entry(&self, entry: &LogEntry, time_text: &str) -> (r: String)
        ensures
            r@ == spec_log_line(time_text@, *entry),
    {
        let mut line = String::from_str("[");
        line.append(time_text);
        line.append("] ");
        line.append(entry.level.label());
        line.append(" ");
        let component = entry.component.text();
        line.append(component.as_str());
        line.append(" | ");
        line.append(entry.message.as_str());
        match &entry.metadata {
            Some(metadata) => {
                line.append(" | ");
                line.append(metadata.as_str());
            },
            None => {},
        }
        line
    }
}

/// Raising a logger's minimum level never writes more, and errors are
/// written whatever the minimum.
pub proof fn law_log_filter_monotone(level: LogLevel, lower: LogLevel, higher: LogLevel)
    requires
        lower.spec_rank() <= higher.spec_rank(),
    ensures
        level.spec_rank() >= higher.spec_rank() ==> level.spec_rank() >= lower.spec_rank(),
        LogLevel::Error.spec_rank() >= higher.spec_rank(),
{
}

/// Time provider reading the browser clock.
#[derive(Debug, Clone, Copy)]
pub struct BrowserTimeProvider;

impl BrowserTimeProvider {
    pub fn new() -> (p: Self) {
        BrowserTimeProvider
    }
}

} // verus!
