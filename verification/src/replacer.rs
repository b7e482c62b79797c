//! The per-line pipeline: quote, substitute placeholders through the
//! external substitution engine, unquote.

use vstd::prelude::*;

use crate::kicad_quoter::quote;
use crate::kicad_quoter::quote_spec;
use crate::kicad_quoter::unquote;
use crate::kicad_quoter::unquote_spec;

verus! {

/// The Variable Table that a list of entries describes: keys are unique, a
/// later entry for the same key wins.
pub open spec fn vars_map(entries: Seq<(String, String)>) -> Map<Seq<char>, Seq<char>>
    decreases entries.len(),
{
    if entries.len() == 0 {
        Map::empty()
    } else {
        vars_map(entries.drop_last()).insert(entries.last().0@, entries.last().1@)
    }
}

/// The configuration bundle of one run: the Variable Table entries and the
/// policy flags. Constructed once, read-only afterwards.
pub struct Settings {
    /// The Variable Table entries, in the order they were supplied.
    pub vars: Vec<(String, String)>,
    /// Whether a placeholder without a Variable Table entry aborts the run.
    pub fail_on_missing: bool,
    /// Whether the run wants verbose diagnostics.
    pub verbose: bool,
}

impl Settings {
    /// The Variable Table these settings carry.
    pub open spec fn table(&self) -> Map<Seq<char>, Seq<char>> {
        vars_map(self.vars@)
    }
}

/// What the external substitution engine returns for a line under a Variable
/// Table and a `fail_on_missing` policy: either the line with every `${KEY}`
/// occurrence replaced, or the message naming the first missing key.
pub uninterp spec fn subst_result(
    line: Seq<char>,
    vars: Map<Seq<char>, Seq<char>>,
    fail_on_missing: bool,
) -> Result<Seq<char>, Seq<char>>;

/// Relies on `repvar::replacer::replace_in_string`: it replaces every
/// `${KEY}` occurrence in the line through the Variable Table,
/// deterministically from the line, the table and the policy flag alone, and
/// it fails only when `fail_on_missing` is set and some key has no entry; the
/// error message then identifies that key.
#[verifier::external_body]
fn subst_line(line: &str, settings: &Settings) -> (r: Result<String, String>)
    ensures
        (r matches Ok(out) ==> subst_result(line@, settings.table(), settings.fail_on_missing)
            == Ok::<Seq<char>, Seq<char>>(out@)),
        (r matches Err(msg) ==> subst_result(line@, settings.table(), settings.fail_on_missing)
            == Err::<Seq<char>, Seq<char>>(msg@) && settings.fail_on_missing),
        !settings.fail_on_missing ==> r is Ok,
{
    let mut vars = std::collections::HashMap::new();
    for (key, value) in settings.vars.iter() {
        vars.insert(key.clone(), value.clone());
    }
    let engine = repvar::replacer::Settings::builder().vars(vars).fail_on_missing(
        settings.fail_on_missing,
    ).build();
    match repvar::replacer::replace_in_string(line, &engine) {
        Ok(replaced) => Ok(replaced.into_owned()),
        Err(err) => Err(err.to_string()),
    }
}

/// The one failure the pipeline itself can report.
#[derive(Debug, Clone, PartialEq, Eq)]
pub enum ProcessError {
    /// A placeholder key had no Variable Table entry while `fail_on_missing`
    /// was set; the message identifies the key.
    MissingVariable(String),
}

/// Runs the pipeline on one line: `quote`, then the external substitution
/// engine, then `unquote`. Fails exactly when the engine fails, which it can
/// do only when `fail_on_missing` is set.
pub fn process_line(line: &str, settings: &Settings) -> (r: Result<String, ProcessError>)
    ensures
        (r matches Ok(out) ==> (subst_result(
            quote_spec(line@),
            settings.table(),
            settings.fail_on_missing,
        ) matches Ok(mid) && out@ == unquote_spec(mid))),
        (r matches Err(e) ==> (e matches ProcessError::MissingVariable(msg) && subst_result(
            quote_spec(line@),
            settings.table(),
            settings.fail_on_missing,
        ) == Err::<Seq<char>, Seq<char>>(msg@) && settings.fail_on_missing)),
        !settings.fail_on_missing ==> r is Ok,
{
    let quoted = quote(line);
    match subst_line(quoted.as_str(), settings) {
        Ok(mid) => Ok(unquote(mid.as_str())),
        Err(msg) => Err(ProcessError::MissingVariable(msg)),
    }
}

} // verus!
