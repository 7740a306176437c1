//! Cleaning: what stands before a deletion batch, the order in which the
//! categories are cleaned, and the count of what went through. Each removal
//! stands for itself; one that fails is counted and the batch goes on.

use vstd::prelude::*;
use vstd::string::StringExecFns;
use crate::scanner::{Category, CategoryResult, ScanResults};
use crate::session::successes;
use crate::text::{decimal, decimal_string};

verus! {

/// The number of items a scan found, over all categories.
pub open spec fn total_items(results: ScanResults) -> nat {
    (results.cache.items + results.temp.items + results.trash.items + results.build.items) as nat
}

/// Computes [`total_items`], or `None` where the number is beyond `usize`.
pub fn count_items(results: &ScanResults) -> (total: Option<usize>)
    ensures
        match total {
            Some(total) => total == total_items(*results),
            None => total_items(*results) > usize::MAX,
        },
{
    let first = results.cache.items.checked_add(results.temp.items);
    let second = match first {
        Some(sum) => sum.checked_add(results.trash.items),
        None => None,
    };
    match second {
        Some(sum) => sum.checked_add(results.build.items),
        None => None,
    }
}

/// What stands between a scan's findings and their deletion.
#[derive(Clone, Copy, Debug, PartialEq, Eq, Structural)]
pub enum CleanStart {
    /// Nothing was found; nothing is deleted.
    NothingToClean,
    /// The user is to be asked first whether to delete this many items.
    Confirm { total: usize },
    /// The batch was authorized beforehand; this many items are deleted.
    Clean { total: usize },
}

/// Decides how a cleaning begins: with nothing found there is nothing to do,
/// and unless confirmation is waived the user is asked.
pub fn clean_all(results: &ScanResults, skip_confirm: bool) -> (start: CleanStart)
    requires
        total_items(*results) <= usize::MAX,
    ensures
        start == if total_items(*results) == 0 {
            CleanStart::NothingToClean
        } else if skip_confirm {
            CleanStart::Clean { total: total_items(*results) as usize }
        } else {
            CleanStart::Confirm { total: total_items(*results) as usize }
        },
{
    let total: usize = results.cache.items + results.temp.items + results.trash.items
        + results.build.items;
    if total == 0 {
        CleanStart::NothingToClean
    } else if skip_confirm {
        CleanStart::Clean { total }
    } else {
        CleanStart::Confirm { total }
    }
}

/// A text without the white space around it, as `str::trim` leaves it.
pub uninterp spec fn trimmed(text: Seq<char>) -> Seq<char>;

/// Takes the white space off both ends of `text`.
///
/// Trusted: stands for `str::trim`. The contract only names the result.
#[verifier::external_body]
fn trim(text: &str) -> (out: &str)
    ensures
        out@ == trimmed(text@),
{
    text.trim()
}

/// Is `said` a lone `y`, in either case?
pub open spec fn says_yes(said: Seq<char>) -> bool {
    said == seq!['y'] || said == seq!['Y']
}

/// Computes [`says_yes`].
pub fn is_yes(said: &str) -> (yes: bool)
    ensures
        yes == says_yes(said@),
{
    let mut rest = said.chars();
    let first = rest.next();
    let second = rest.next();
    proof {
        if said@.len() > 0 {
            assert(said@.drop_first().len() == said@.len() - 1);
            if said@.len() == 1 {
                assert(said@ =~= seq![said@[0]]);
            }
        }
    }
    match (first, second) {
        (Some(c), None) => c == 'y' || c == 'Y',
        _ => false,
    }
}

/// Does the user's answer authorize the batch? Only a lone `y`, in either
/// case, with any white space around it.
pub open spec fn authorizes(answer: Seq<char>) -> bool {
    says_yes(trimmed(answer))
}

/// Computes [`authorizes`].
pub fn confirms(answer: &str) -> (yes: bool)
    ensures
        yes == authorizes(answer@),
{
    is_yes(trim(answer))
}

/// The categories that are cleaned, in the order they are cleaned: those of
/// which the scan found items.
pub open spec fn cleaning_order(results: ScanResults) -> Seq<Category> {
    (if results.cache.items > 0 {
        seq![Category::Cache]
    } else {
        Seq::empty()
    }) + (if results.temp.items > 0 {
        seq![Category::Temp]
    } else {
        Seq::empty()
    }) + (if results.trash.items > 0 {
        seq![Category::Trash]
    } else {
        Seq::empty()
    }) + (if results.build.items > 0 {
        seq![Category::Build]
    } else {
        Seq::empty()
    })
}

/// Computes [`cleaning_order`].
pub fn categories_to_clean(results: &ScanResults) -> (order: Vec<Category>)
    ensures
        order@ == cleaning_order(*results),
{
    let mut order: Vec<Category> = Vec::new();
    if results.cache.items > 0 {
        order.push(Category::Cache);
    }
    if results.temp.items > 0 {
        order.push(Category::Temp);
    }
    if results.trash.items > 0 {
        order.push(Category::Trash);
    }
    if results.build.items > 0 {
        order.push(Category::Build);
    }
    proof {
        assert(order@ =~= cleaning_order(*results));
    }
    order
}

/// How the removals went: for the categories cleaned path by path, one
/// outcome per path; for the trash store, which is emptied in one go, one
/// outcome.
#[derive(Debug)]
pub struct CleanOutcomes {
    pub cache: Vec<bool>,
    pub temp: Vec<bool>,
    pub trash: bool,
    pub build: Vec<bool>,
}

/// What a cleaning came to.
#[derive(Clone, Copy, Debug, PartialEq, Eq, Structural)]
pub struct CleanTally {
    /// Items removed.
    pub cleaned: usize,
    /// Removals that failed.
    pub errors: usize,
}

/// Items removed of a category that is cleaned path by path.
pub open spec fn cleaned_of(found: CategoryResult, outcomes: Seq<bool>) -> nat {
    if found.items > 0 {
        successes(outcomes)
    } else {
        0
    }
}

/// Removals that failed of a category that is cleaned path by path.
pub open spec fn errors_of(found: CategoryResult, outcomes: Seq<bool>) -> nat {
    if found.items > 0 {
        (outcomes.len() - successes(outcomes)) as nat
    } else {
        0
    }
}

/// Items removed in all: each path removed is one item, and the emptied trash
/// store is as many items as the scan found in it.
pub open spec fn cleaned_in_all(results: ScanResults, outcomes: CleanOutcomes) -> nat {
    cleaned_of(results.cache, outcomes.cache@) + cleaned_of(results.temp, outcomes.temp@) + (
    if results.trash.items > 0 && outcomes.trash {
        results.trash.items as nat
    } else {
        0
    }) + cleaned_of(results.build, outcomes.build@)
}

/// Failed removals in all: each path not removed is one, and the trash store
/// not emptied is one.
pub open spec fn errors_in_all(results: ScanResults, outcomes: CleanOutcomes) -> nat {
    errors_of(results.cache, outcomes.cache@) + errors_of(results.temp, outcomes.temp@) + (
    if results.trash.items > 0 && !outcomes.trash {
        1nat
    } else {
        0nat
    }) + errors_of(results.build, outcomes.build@)
}

fn count_successes(outcomes: &Vec<bool>) -> (won: usize)
    ensures
        won == successes(outcomes@),
        won <= outcomes@.len(),
{
    let mut won: usize = 0;
    let mut at: usize = 0;
    while at < outcomes.len()
        invariant
            at <= outcomes.len(),
            won == successes(outcomes@.take(at as int)),
            won <= at,
        decreases outcomes.len() - at,
    {
        proof {
            assert(outcomes@.take(at + 1).drop_last() == outcomes@.take(at as int));
            assert(outcomes@.take(at + 1).last() == outcomes@[at as int]);
        }
        if outcomes[at] {
            won = won + 1;
        }
        at = at + 1;
    }
    proof {
        assert(outcomes@.take(at as int) == outcomes@);
    }
    won
}

/// Counts what a cleaning came to. The outcomes of a category of which the
/// scan found nothing are not counted: that category is not cleaned.
pub fn tally_cleaning(results: &ScanResults, outcomes: &CleanOutcomes) -> (tally: CleanTally)
    requires
        cleaned_in_all(*results, *outcomes) <= usize::MAX,
        errors_in_all(*results, *outcomes) <= usize::MAX,
    ensures
        tally.cleaned == cleaned_in_all(*results, *outcomes),
        tally.errors == errors_in_all(*results, *outcomes),
{
    let mut cleaned: usize = 0;
    let mut errors: usize = 0;
    if results.cache.items > 0 {
        let won = count_successes(&outcomes.cache);
        cleaned = cleaned + won;
        errors = errors + (outcomes.cache.len() - won);
    }
    if results.temp.items > 0 {
        let won = count_successes(&outcomes.temp);
        cleaned = cleaned + won;
        errors = errors + (outcomes.temp.len() - won);
    }
    if results.trash.items > 0 {
        if outcomes.trash {
            cleaned = cleaned + results.trash.items;
        } else {
            errors = errors + 1;
        }
    }
    if results.build.items > 0 {
        let won = count_successes(&outcomes.build);
        cleaned = cleaned + won;
        errors = errors + (outcomes.build.len() - won);
    }
    CleanTally { cleaned, errors }
}

/// Do the counts of this cleaning fit `usize`?
pub fn can_tally(results: &ScanResults, outcomes: &CleanOutcomes) -> (yes: bool)
    ensures
        yes == (cleaned_in_all(*results, *outcomes) <= usize::MAX && errors_in_all(
            *results,
            *outcomes,
        ) <= usize::MAX),
{
    let mut cleaned: u128 = 0;
    let mut errors: u128 = 0;
    if results.cache.items > 0 {
        let won = count_successes(&outcomes.cache);
        cleaned = cleaned + won as u128;
        errors = errors + (outcomes.cache.len() - won) as u128;
    }
    if results.temp.items > 0 {
        let won = count_successes(&outcomes.temp);
        cleaned = cleaned + won as u128;
        errors = errors + (outcomes.temp.len() - won) as u128;
    }
    if results.trash.items > 0 {
        if outcomes.trash {
            cleaned = cleaned + results.trash.items as u128;
        } else {
            errors = errors + 1;
        }
    }
    if results.build.items > 0 {
        let won = count_successes(&outcomes.build);
        cleaned = cleaned + won as u128;
        errors = errors + (outcomes.build.len() - won) as u128;
    }
    cleaned <= usize::MAX as u128 && errors <= usize::MAX as u128
}

impl CleanTally {
    /// The closing line of a cleaning.
    pub open spec fn text(self) -> Seq<char> {
        if self.errors > 0 {
            "Cleanup complete. "@ + decimal(self.cleaned as nat) + " items cleaned, "@ + decimal(
                self.errors as nat,
            ) + " errors encountered."@
        } else {
            "Cleanup complete. "@ + decimal(self.cleaned as nat) + " items cleaned."@
        }
    }

    /// Computes [`Self::text`].
    pub fn message(&self) -> (out: String)
        ensures
            out@ == self.text(),
    {
        let mut out = String::from_str("Cleanup complete. ");
        out.append(decimal_string(self.cleaned as u64).as_str());
        if self.errors > 0 {
            out.append(" items cleaned, ");
            out.append(decimal_string(self.errors as u64).as_str());
            out.append(" errors encountered.");
        } else {
            out.append(" items cleaned.");
        }
        out
    }
}

/// The question put to the user before `total` items are deleted.
pub fn confirmation_prompt(total: usize) -> (out: String)
    ensures
        out@ == "Delete "@ + decimal(total as nat) + " items? [y/N]: "@,
{
    let mut out = String::from_str("Delete ");
    out.append(decimal_string(total as u64).as_str());
    out.append(" items? [y/N]: ");
    out
}

impl Category {
    /// What is said when the cleaning of the category begins.
    pub fn cleaning_notice(&self) -> (out: &'static str)
        ensures
            out@ == match self {
                Category::Cache => "Cleaning cache directories..."@,
                Category::Temp => "Cleaning temp files..."@,
                Category::Trash => "Emptying Recycle Bin..."@,
                Category::Build => "Cleaning build artifacts..."@,
            },
    {
        match self {
            Category::Cache => "Cleaning cache directories...",
            Category::Temp => "Cleaning temp files...",
            Category::Trash => "Emptying Recycle Bin...",
            Category::Build => "Cleaning build artifacts...",
        }
    }
}

/// The warning for a path that could not be removed.
pub fn clean_warning(path: &str, cause: &str) -> (out: String)
    ensures
        out@ == "Warning: Failed to clean "@ + path@ + ": "@ + cause@,
{
    String::from_str("Warning: Failed to clean ").concat(path).concat(": ").concat(cause)
}

/// The warning for a trash store that could not be emptied.
pub fn trash_warning(cause: &str) -> (out: String)
    ensures
        out@ == "Warning: Failed to empty Recycle Bin: "@ + cause@,
{
    String::from_str("Warning: Failed to empty Recycle Bin: ").concat(cause)
}

/// What is said where nothing was found to clean.
pub const NOTHING_TO_CLEAN: &'static str = "Nothing to clean.";

/// What is said where the user did not authorize the batch.
pub const CANCELLED: &'static str = "Cancelled.";

} // verus!
