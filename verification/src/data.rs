//! Plain data shared by the monitor's decisions.
use vstd::prelude::*;

verus! {

/// Which processes the monitor reports in detail.
#[derive(Debug, Clone)]
pub enum ProcessFilter {
    /// These process ids, in this order; an id with no running process is
    /// reported as a placeholder.
    Pids(Vec<u32>),
    /// Every process with exactly this name.
    Name(String),
    /// Every process whose name is one of these.
    Names(Vec<String>),
    /// Every process whose name the regular expression matches.
    NameRegex(String),
}

/// A filter was asked for without any criterion.
#[derive(Debug, Clone, Copy, PartialEq, Eq, Structural)]
pub enum FilterError {
    /// None of `pids`, `name`, `names`, `name_regex` was given.
    NoCriterion,
}

impl ProcessFilter {
    /// The filter for the criteria given, the first given one winning in
    /// the order `pids`, `names`, `name`, `name_regex`.
    pub fn from_options(
        pids: Option<Vec<u32>>,
        name: Option<String>,
        names: Option<Vec<String>>,
        name_regex: Option<String>,
    ) -> (r: Result<ProcessFilter, FilterError>)
        ensures
            match pids {
                Some(p) => r == Ok::<ProcessFilter, FilterError>(ProcessFilter::Pids(p)),
                None => match names {
                    Some(n) => r == Ok::<ProcessFilter, FilterError>(ProcessFilter::Names(n)),
                    None => match name {
                        Some(n) => r == Ok::<ProcessFilter, FilterError>(ProcessFilter::Name(n)),
                        None => match name_regex {
                            Some(p) => r == Ok::<ProcessFilter, FilterError>(
                                ProcessFilter::NameRegex(p),
                            ),
                            None => r == Err::<ProcessFilter, FilterError>(
                                FilterError::NoCriterion,
                            ),
                        },
                    },
                },
            },
    {
        if let Some(p) = pids {
            Ok(ProcessFilter::Pids(p))
        } else if let Some(n) = names {
            Ok(ProcessFilter::Names(n))
        } else if let Some(n) = name {
            Ok(ProcessFilter::Name(n))
        } else if let Some(p) = name_regex {
            Ok(ProcessFilter::NameRegex(p))
        } else {
            Err(FilterError::NoCriterion)
        }
    }
}

/// The integer part of one process's sample: what the filtering, grouping
/// and ranking decisions read. The measured percentages and sizes travel
/// beside it, indexed the same way.
#[derive(Debug, Clone)]
pub struct ProcessRecord {
    pub pid: u32,
    pub name: String,
    pub handle_count: u32,
}

} // verus!
