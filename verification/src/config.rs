//! The settings that the exporter runs with.

use crate::text::{
    case_is_ignored_of_ascii_letters_only, eq_ignore_ascii_case, same_ignoring_ascii_case,
    same_text,
};
use vstd::prelude::*;

verus! {

/// How much goes to the log.
#[derive(Clone, Copy, Debug, PartialEq, Eq, Structural)]
pub enum LevelFilter {
    Off,
    Error,
    Warn,
    Info,
    Debug,
    Trace,
}

/// Why an environment variable has no value.
#[derive(Clone, Copy, Debug, PartialEq, Eq, Structural)]
pub enum VarError {
    /// It is not set.
    NotPresent,
    /// It is set to something that is no Unicode text.
    NotUnicode,
}

/// The settings that the exporter runs with.
pub struct Config {
    pub port: u16,
    pub min_log_level: LevelFilter,
    pub collect_image_metrics: bool,
    pub collect_volume_metrics: bool,
}

/// The port that metrics are served on.
pub const PORT: u16 = 9417;

/// The text that switches a setting on.
pub open spec fn truthy(text: Seq<char>) -> bool {
    text == "1"@ || same_ignoring_ascii_case(text, "true"@)
}

/// What a variable says of a setting whose default is `default`.
pub open spec fn switched_on(var: Result<String, VarError>, default: bool) -> bool {
    match var {
        Ok(s) => truthy(s@),
        Err(_) => default,
    }
}

/// The settings that three variables ask for.
pub open spec fn settings(
    verbose: Result<String, VarError>,
    collect_image_metrics: Result<String, VarError>,
    collect_volume_metrics: Result<String, VarError>,
    default: bool,
) -> Config {
    Config {
        port: PORT,
        min_log_level: if switched_on(verbose, default) {
            LevelFilter::Debug
        } else {
            LevelFilter::Info
        },
        collect_image_metrics: switched_on(collect_image_metrics, default),
        collect_volume_metrics: switched_on(collect_volume_metrics, default),
    }
}

impl Config {
    /// Whether a variable switches a setting on. A variable without a value leaves the default
    /// in force; any text but `1` and `true` switches the setting off.
    pub fn is_truthy(var: Result<String, VarError>, default: bool) -> (r: bool)
        ensures
            r == switched_on(var, default),
    {
        match var {
            Ok(s) => same_text(s.as_str(), "1") || eq_ignore_ascii_case(s.as_str(), "true"),
            Err(_) => default,
        }
    }

    /// The settings that the variables `VERBOSE`, `COLLECT_IMAGE_METRICS` and
    /// `COLLECT_VOLUME_METRICS` ask for.
    pub fn new(
        verbose: Result<String, VarError>,
        collect_image_metrics: Result<String, VarError>,
        collect_volume_metrics: Result<String, VarError>,
        default: bool,
    ) -> (r: Config)
        ensures
            r.port == PORT,
            r.min_log_level == (if switched_on(verbose, default) {
                LevelFilter::Debug
            } else {
                LevelFilter::Info
            }),
            r.collect_image_metrics == switched_on(collect_image_metrics, default),
            r.collect_volume_metrics == switched_on(collect_volume_metrics, default),
            r == settings(verbose, collect_image_metrics, collect_volume_metrics, default),
    {
        Config {
            port: PORT,
            min_log_level: if Self::is_truthy(verbose, default) {
                LevelFilter::Debug
            } else {
                LevelFilter::Info
            },
            collect_image_metrics: Self::is_truthy(collect_image_metrics, default),
            collect_volume_metrics: Self::is_truthy(collect_volume_metrics, default),
        }
    }
}

/// A setting is on exactly where its variable is `1` or the word `true` in letters of either
/// case. Without a value the default holds, and only then.
pub proof fn one_and_true_switch_on(text: String, error: VarError, default: bool)
    ensures
        switched_on(Ok(text), default) <==> text@ == seq!['1'] || (text@.len() == 4 && (text@[0]
            == 't' || text@[0] == 'T') && (text@[1] == 'r' || text@[1] == 'R') && (text@[2] == 'u'
            || text@[2] == 'U') && (text@[3] == 'e' || text@[3] == 'E')),
        switched_on(Err(error), default) == default,
{
    reveal_strlit("1");
    reveal_strlit("true");
    let word = "true"@;
    let capitals = seq!['T', 'R', 'U', 'E'];
    assert("1"@ =~= seq!['1']);
    assert(word =~= seq!['t', 'r', 'u', 'e']);
    case_is_ignored_of_ascii_letters_only(text@, word);
    assert forall|i: int| 0 <= i < 4 implies 'a' <= #[trigger] word[i] <= 'z' && word[i] as int
        == capitals[i] as int + 32 && 'A' <= capitals[i] <= 'Z' by {}
    if text@.len() == 4 {
        assert(word[0] == 't' && word[1] == 'r' && word[2] == 'u' && word[3] == 'e');
        if same_ignoring_ascii_case(text@, word) {
            assert(text@[0] == word[0] || text@[0] == capitals[0]);
            assert(text@[1] == word[1] || text@[1] == capitals[1]);
            assert(text@[2] == word[2] || text@[2] == capitals[2]);
            assert(text@[3] == word[3] || text@[3] == capitals[3]);
        }
    }
}

/// Each variable decides its own setting and no other.
pub proof fn each_variable_decides_its_own_setting(
    verbose: Result<String, VarError>,
    images: Result<String, VarError>,
    volumes: Result<String, VarError>,
    other: Result<String, VarError>,
    another: Result<String, VarError>,
    default: bool,
)
    ensures
        settings(verbose, images, volumes, default).collect_image_metrics == settings(
            other,
            images,
            another,
            default,
        ).collect_image_metrics,
        settings(verbose, images, volumes, default).collect_volume_metrics == settings(
            other,
            another,
            volumes,
            default,
        ).collect_volume_metrics,
        settings(verbose, images, volumes, default).min_log_level == settings(
            verbose,
            other,
            another,
            default,
        ).min_log_level,
        settings(verbose, images, volumes, default).collect_image_metrics == switched_on(
            images,
            default,
        ),
        settings(verbose, images, volumes, default).collect_volume_metrics == switched_on(
            volumes,
            default,
        ),
        settings(verbose, images, volumes, default).min_log_level == LevelFilter::Debug
            <==> switched_on(verbose, default),
        settings(verbose, images, volumes, default).min_log_level == LevelFilter::Info
            <==> !switched_on(verbose, default),
        settings(verbose, images, volumes, default).port == 9417,
{
}

} // verus!
