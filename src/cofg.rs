//! Run settings: paths, flags, the archive name template, locale and log
//! level, with the rules that settle the last two.
use vstd::prelude::*;
use crate::path::same_text;

verus! {

/// Where a run reads mods, stages copies and writes archives.
pub struct PathCofg {
    pub tmp_path: String,
    pub results_path: String,
    pub mods_path: String,
}

/// The settings of one run.
pub struct Cofg {
    /// Locale of the messages: "zh_cn", "zh_tw" or "en".
    pub locale: String,
    /// Log level: "warn", "info", "debug" or "trace".
    pub loglv: String,
    pub path: PathCofg,
    /// Wait for a key before exiting.
    pub pause: bool,
    /// Compile script sources before packaging.
    pub ts_process: bool,
    /// Archive file name template, with `{name}` and `{ver}`.
    pub file_name: String,
}

/// What the command line may set.
pub struct CliArgs {
    pub locale: Option<String>,
    pub loglv: Option<String>,
    pub ts_process: bool,
    pub pause: bool,
}

/// How much a run logs.
#[derive(PartialEq, Eq, Structural, Clone, Copy, Debug)]
pub enum LogLevel {
    Warn,
    Info,
    Debug,
    Trace,
}

pub uninterp spec fn lower_of(s: Seq<char>) -> Seq<char>;

/// Relies on str::to_lowercase: the lowercase form of a text, which depends
/// on its characters alone.
#[verifier::external_body]
fn lowercase(s: &str) -> (r: String)
    ensures
        r@ == lower_of(s@),
{
    s.to_lowercase()
}

/// The locale that a lowercase locale name stands for; unknown names give
/// "en".
pub open spec fn locale_for(lower: Seq<char>) -> Seq<char> {
    if lower == "zh_cn"@ || lower == "zh-cn"@ || lower == "cn"@ || lower == "zh"@ {
        "zh_cn"@
    } else if lower == "zh_tw"@ || lower == "zh-tw"@ || lower == "tw"@ {
        "zh_tw"@
    } else {
        "en"@
    }
}

/// The log level that a name stands for, if any.
pub open spec fn level_for(name: Seq<char>) -> Option<LogLevel> {
    if name == "warn"@ {
        Some(LogLevel::Warn)
    } else if name == "info"@ {
        Some(LogLevel::Info)
    } else if name == "debug"@ {
        Some(LogLevel::Debug)
    } else if name == "trace"@ {
        Some(LogLevel::Trace)
    } else {
        None
    }
}

/// The locale that an already lowercase locale name stands for.
pub fn locale_from_lowercase(lower: &str) -> (r: String)
    ensures
        r@ == locale_for(lower@),
{
    if same_text(lower, "zh_cn") || same_text(lower, "zh-cn") || same_text(lower, "cn")
        || same_text(lower, "zh") {
        String::from_str("zh_cn")
    } else if same_text(lower, "zh_tw") || same_text(lower, "zh-tw") || same_text(lower, "tw") {
        String::from_str("zh_tw")
    } else {
        String::from_str("en")
    }
}

/// The log level that `name` stands for, if any.
pub fn parse_log_level(name: &str) -> (r: Option<LogLevel>)
    ensures
        r == level_for(name@),
{
    if same_text(name, "warn") {
        Some(LogLevel::Warn)
    } else if same_text(name, "info") {
        Some(LogLevel::Info)
    } else if same_text(name, "debug") {
        Some(LogLevel::Debug)
    } else if same_text(name, "trace") {
        Some(LogLevel::Trace)
    } else {
        None
    }
}

impl Cofg {
    /// The locale named by the settings, in its canonical spelling, whatever
    /// the case it was written in.
    pub fn normalize_locale(&self) -> (r: String)
        ensures
            r@ == locale_for(lower_of(self.locale@)),
    {
        let lower = lowercase(self.locale.as_str());
        locale_from_lowercase(lower.as_str())
    }

    /// `None` where the log level names a known level, else the level to
    /// use instead: "info".
    pub fn validate_log_level(&self) -> (r: Option<String>)
        ensures
            level_for(self.loglv@) is Some ==> r is None,
            level_for(self.loglv@) is None ==> r is Some && r->0@ == "info"@,
    {
        match parse_log_level(self.loglv.as_str()) {
            Some(_) => None,
            None => Some(String::from_str("info")),
        }
    }

    /// The log level of the settings, if it names one.
    pub fn log_level(&self) -> (r: Option<LogLevel>)
        ensures
            r == level_for(self.loglv@),
    {
        parse_log_level(self.loglv.as_str())
    }

    /// The settings with the locale in its canonical spelling and an
    /// unknown log level replaced by "info".
    pub fn settled(self) -> (r: Cofg)
        ensures
            r.locale@ == locale_for(lower_of(self.locale@)),
            level_for(self.loglv@) is Some ==> r.loglv@ == self.loglv@,
            level_for(self.loglv@) is None ==> r.loglv@ == "info"@,
            r.path == self.path,
            r.pause == self.pause,
            r.ts_process == self.ts_process,
            r.file_name == self.file_name,
    {
        let locale = self.normalize_locale();
        let loglv = match self.validate_log_level() {
            Some(v) => v,
            None => self.loglv,
        };
        Cofg {
            locale,
            loglv,
            path: self.path,
            pause: self.pause,
            ts_process: self.ts_process,
            file_name: self.file_name,
        }
    }

    /// The settings with the command line's choices laid over them: a given
    /// locale or log level replaces the configured one, and a flag given on
    /// the command line switches its setting on.
    pub fn load_cli(self, cli: CliArgs) -> (r: Cofg)
        ensures
            r.locale == (match cli.locale {
                Some(v) => v,
                None => self.locale,
            }),
            r.loglv == (match cli.loglv {
                Some(v) => v,
                None => self.loglv,
            }),
            r.pause == (self.pause || cli.pause),
            r.ts_process == (self.ts_process || cli.ts_process),
            r.path == self.path,
            r.file_name == self.file_name,
    {
        let locale = match cli.locale {
            Some(v) => v,
            None => self.locale,
        };
        let loglv = match cli.loglv {
            Some(v) => v,
            None => self.loglv,
        };
        Cofg {
            locale,
            loglv,
            path: self.path,
            pause: self.pause || cli.pause,
            ts_process: self.ts_process || cli.ts_process,
            file_name: self.file_name,
        }
    }
}

impl Default for Cofg {
    /// English messages, "info" logging, `./tmp`, `./results` and `./mods`,
    /// both flags set, and archives named `{name}.mod.zip`.
    fn default() -> (r: Cofg)
        ensures
            r.locale@ == "en"@,
            r.loglv@ == "info"@,
            r.path.tmp_path@ == "./tmp"@,
            r.path.results_path@ == "./results"@,
            r.path.mods_path@ == "./mods"@,
            r.pause,
            r.ts_process,
            r.file_name@ == "{name}.mod.zip"@,
    {
        Cofg {
            locale: String::from_str("en"),
            loglv: String::from_str("info"),
            path: PathCofg {
                tmp_path: String::from_str("./tmp"),
                results_path: String::from_str("./results"),
                mods_path: String::from_str("./mods"),
            },
            pause: true,
            ts_process: true,
            file_name: String::from_str("{name}.mod.zip"),
        }
    }
}

} // verus!
