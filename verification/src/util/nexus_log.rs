use vstd::prelude::*;

verus! {

/// The kinds of log messages.
#[derive(Debug, Clone, Copy, PartialEq, Eq, Structural)]
pub enum LogTypes {
    Info,
    Warning,
    Error,
    Debug,
}

/// The parts of the compiler that log messages.
#[derive(Debug, Clone, Copy, PartialEq, Eq, Structural)]
pub enum LogSources {
    Nexus,
    Lexer,
    Parser,
    SemanticAnalyzer,
    CodeGenerator,
}

/// The name a log line shows for a kind of log message.
pub open spec fn log_type_name(n: LogTypes) -> Seq<char> {
    match n {
        LogTypes::Info => "INFO"@,
        LogTypes::Warning => "WARNING"@,
        LogTypes::Error => "ERROR"@,
        LogTypes::Debug => "DEBUG"@,
    }
}

impl LogTypes {
    /// The upper-case name a log line shows.
    pub fn name(&self) -> (r: &'static str)
        ensures
            r@ == log_type_name(*self),
    {
        match self {
            LogTypes::Info => "INFO",
            LogTypes::Warning => "WARNING",
            LogTypes::Error => "ERROR",
            LogTypes::Debug => "DEBUG",
        }
    }
}

/// The name a log line shows for a part of the compiler.
pub open spec fn log_source_name(n: LogSources) -> Seq<char> {
    match n {
        LogSources::Nexus => "NEXUS"@,
        LogSources::Lexer => "LEXER"@,
        LogSources::Parser => "PARSER"@,
        LogSources::SemanticAnalyzer => "SEMANTICANALYZER"@,
        LogSources::CodeGenerator => "CODEGENERATOR"@,
    }
}

impl LogSources {
    /// The upper-case name a log line shows.
    pub fn name(&self) -> (r: &'static str)
        ensures
            r@ == log_source_name(*self),
    {
        match self {
            LogSources::Nexus => "NEXUS",
            LogSources::Lexer => "LEXER",
            LogSources::Parser => "PARSER",
            LogSources::SemanticAnalyzer => "SEMANTICANALYZER",
            LogSources::CodeGenerator => "CODEGENERATOR",
        }
    }
}

/// The text of a log line: `[TYPE - SOURCE]: message`.
pub open spec fn log_text(t: LogTypes, src: LogSources, msg: Seq<char>) -> Seq<char> {
    "["@ + log_type_name(t) + " - "@ + log_source_name(src) + "]: "@ + msg
}

/// The text of a log line: the kind and the source in upper case, then the
/// message.
pub fn log_line(log_type: LogTypes, src: LogSources, msg: &str) -> (r: String)
    ensures
        r@ == log_text(log_type, src, msg@),
{
    let mut line = String::from_str("[");
    line.append(log_type.name());
    line.append(" - ");
    line.append(src.name());
    line.append("]: ");
    line.append(msg);
    line
}

/// Whether a log line of this kind is shown: debug lines only in verbose
/// mode.
pub fn is_shown(log_type: LogTypes, verbose: bool) -> (r: bool)
    ensures
        r == (log_type != LogTypes::Debug || verbose),
{
    match log_type {
        LogTypes::Debug => verbose,
        _ => true,
    }
}

} // verus!
