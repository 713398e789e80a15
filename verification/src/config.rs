//! The agent's configuration: defaults, overridden by the environment, then by
//! a configuration file.
use vstd::prelude::*;
use crate::text::{to_chars, parse_unsigned, parse_unsigned_range};

verus! {

/// The agent's configuration.
#[derive(Clone, Debug, PartialEq, Eq)]
pub struct Config {
    pub model: String,
    pub provider: String,
    pub session_dir: String,
    pub max_steps: usize,
}

/// Settings that a configuration file or the environment may give; any may be missing.
#[derive(Clone, Debug, PartialEq, Eq, Default)]
pub struct PartialConfig {
    pub model: Option<String>,
    pub provider: Option<String>,
    pub session_dir: Option<String>,
    pub max_steps: Option<usize>,
}

/// A setting, or the fallback when it is missing.
pub open spec fn or_text(o: Option<String>, d: Seq<char>) -> Seq<char> {
    match o {
        Some(s) => s@,
        None => d,
    }
}

impl Config {
    /// The default configuration: the mock model and provider, sessions under
    /// `data/sessions`, and ten steps.
    pub fn default_config() -> (r: Config)
        ensures
            r.model@ == "mock"@,
            r.provider@ == "mock"@,
            r.session_dir@ == "data/sessions"@,
            r.max_steps == 10,
    {
        Config {
            model: "mock".to_string(),
            provider: "mock".to_string(),
            session_dir: "data/sessions".to_string(),
            max_steps: 10,
        }
    }

    /// The configuration with each setting that `partial` gives replaced.
    pub fn overlay(self, partial: PartialConfig) -> (r: Config)
        ensures
            r.model@ == or_text(partial.model, self.model@),
            r.provider@ == or_text(partial.provider, self.provider@),
            r.session_dir@ == or_text(partial.session_dir, self.session_dir@),
            r.max_steps == (match partial.max_steps {
                Some(n) => n,
                None => self.max_steps,
            }),
    {
        Config {
            model: match partial.model {
                Some(m) => m,
                None => self.model,
            },
            provider: match partial.provider {
                Some(p) => p,
                None => self.provider,
            },
            session_dir: match partial.session_dir {
                Some(d) => d,
                None => self.session_dir,
            },
            max_steps: match partial.max_steps {
                Some(n) => n,
                None => self.max_steps,
            },
        }
    }

    /// The configuration from the values of `SWAL_MODEL`, `SWAL_PROVIDER`,
    /// `SWAL_SESSION_DIR` and `SWAL_MAX_STEPS` (each absent when unset); a step
    /// count that is not a number is ignored; missing settings take their
    /// defaults.
    pub fn from_env_values(
        model: Option<String>,
        provider: Option<String>,
        session_dir: Option<String>,
        max_steps: Option<String>,
    ) -> (r: Config)
        ensures
            r.model@ == or_text(model, "mock"@),
            r.provider@ == or_text(provider, "mock"@),
            r.session_dir@ == or_text(session_dir, "data/sessions"@),
            r.max_steps == (match max_steps {
                Some(t) => match parse_unsigned(t@, usize::MAX as nat) {
                    Ok(n) => n as usize,
                    Err(_) => 10usize,
                },
                None => 10usize,
            }),
    {
        let steps: Option<usize> = match max_steps {
            Some(t) => {
                let v = to_chars(t.as_str());
                proof {
                    assert(v@.subrange(0, v@.len() as int) =~= t@);
                }
                match parse_unsigned_range(&v, 0, v.len(), usize::MAX as u64) {
                    Ok(n) => {
                        assert(n <= usize::MAX) by {
                            if n > usize::MAX {
                                lemma_parse_bound(t@, usize::MAX as nat);
                            }
                        }
                        Some(n as usize)
                    },
                    Err(_) => None,
                }
            },
            None => None,
        };
        Config::default_config().overlay(
            PartialConfig { model, provider, session_dir, max_steps: steps },
        )
    }
}

impl Default for Config {
    /// The default configuration.
    fn default() -> (r: Config)
        ensures
            r.model@ == "mock"@,
            r.provider@ == "mock"@,
            r.session_dir@ == "data/sessions"@,
            r.max_steps == 10,
    {
        Config::default_config()
    }
}

proof fn lemma_scan_bound(ds: Seq<char>, acc: nat, max: nat)
    requires
        acc <= max,
    ensures
        crate::text::scan_digits(ds, acc, max) matches Ok(n) ==> n <= max,
    decreases ds.len(),
{
    if ds.len() > 0 && crate::text::is_digit(ds[0]) && acc * 10 + crate::text::digit_value(ds[0]) <= max {
        lemma_scan_bound(ds.drop_first(), acc * 10 + crate::text::digit_value(ds[0]), max);
    }
}

/// A parsed value is within the bound.
proof fn lemma_parse_bound(s: Seq<char>, max: nat)
    ensures
        parse_unsigned(s, max) matches Ok(n) ==> n <= max,
{
    if s.len() > 0 {
        lemma_scan_bound(s, 0, max);
        lemma_scan_bound(s.drop_first(), 0, max);
    }
}

} // verus!
