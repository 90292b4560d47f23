//! The user configuration the pager honours: whether the tutorial is
//! shown and whether the line highlighter starts enabled. Reading the
//! configuration file is the surrounding program's business; the
//! interpretation of its values and defaults is decided here.

use vstd::prelude::*;
use crate::search::{lower_of, lower_str};

verus! {

/// The two optional settings; `None` means "not configured".
pub struct AppConfig {
    pub enable_tutorial: Option<bool>,
    pub enable_line_highlighter: Option<bool>,
}

impl Default for AppConfig {
    /// Nothing configured.
    fn default() -> (r: Self)
        ensures
            r.enable_tutorial is None,
            r.enable_line_highlighter is None,
    {
        AppConfig { enable_tutorial: None, enable_line_highlighter: None }
    }
}

/// A configuration value counts as true exactly when it case-folds to
/// `true`.
pub fn config_value(val: &str) -> (r: bool)
    ensures
        r == (lower_of(val@) == "true"@),
{
    let lowered = lower_str(val);
    let pat = String::new();
    let mut pat = pat;
    pat.push('t');
    pat.push('r');
    pat.push('u');
    pat.push('e');
    proof {
        reveal_strlit("true");
        assert(pat@ =~= "true"@);
    }
    lowered == pat
}

/// The highlighter starts enabled unless the configuration turns it off.
pub fn effective_highlighter(c: &AppConfig) -> (r: bool)
    ensures
        r == (match c.enable_line_highlighter {
            Some(b) => b,
            None => true,
        }),
{
    match c.enable_line_highlighter {
        Some(b) => b,
        None => true,
    }
}

/// The tutorial is shown on an empty document or when no prior progress
/// exists — unless the configuration turns it off outright.
pub fn wants_tutorial(c: &AppConfig, lines_empty: bool, have_progress: bool) -> (r: bool)
    ensures
        r == (match c.enable_tutorial {
            Some(false) => false,
            _ => lines_empty || !have_progress,
        }),
{
    match c.enable_tutorial {
        Some(false) => false,
        _ => lines_empty || !have_progress,
    }
}

} // verus!
