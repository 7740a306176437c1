//! Scanning: which categories of reclaimable items are looked for, and how
//! what the detectors found is put together. One detector failing leaves the
//! others' findings untouched.

use vstd::prelude::*;
use vstd::string::StringExecFns;

verus! {

/// A kind of reclaimable item.
#[derive(Clone, Copy, Debug, PartialEq, Eq, Structural)]
pub enum Category {
    Cache,
    Temp,
    Trash,
    Build,
}

/// Which categories a scan looks for.
#[derive(Clone, Copy, Debug, PartialEq, Eq, Structural)]
pub struct ScanOptions {
    pub cache: bool,
    pub temp: bool,
    pub trash: bool,
    pub build: bool,
    /// A project untouched for this many days counts as stale.
    pub project_age_days: u64,
}

impl ScanOptions {
    /// Whether the scan looks for `category`.
    pub open spec fn enables(self, category: Category) -> bool {
        match category {
            Category::Cache => self.cache,
            Category::Temp => self.temp,
            Category::Trash => self.trash,
            Category::Build => self.build,
        }
    }

    /// Computes [`Self::enables`].
    pub fn is_enabled(&self, category: Category) -> (yes: bool)
        ensures
            yes == self.enables(category),
    {
        match category {
            Category::Cache => self.cache,
            Category::Temp => self.temp,
            Category::Trash => self.trash,
            Category::Build => self.build,
        }
    }
}

/// What one detector found.
#[derive(Debug)]
pub struct CategoryResult {
    /// How many items.
    pub items: usize,
    /// Where they are.
    pub paths: Vec<String>,
}

impl CategoryResult {
    /// Nothing was found.
    pub open spec fn is_empty(self) -> bool {
        self.items == 0 && self.paths@.len() == 0
    }

    /// A finding of nothing.
    pub fn empty() -> (result: CategoryResult)
        ensures
            result.is_empty(),
    {
        CategoryResult { items: 0, paths: Vec::new() }
    }
}

/// What a scan found, by category.
#[derive(Debug)]
pub struct ScanResults {
    pub cache: CategoryResult,
    pub temp: CategoryResult,
    pub trash: CategoryResult,
    pub build: CategoryResult,
}

impl ScanResults {
    /// What was found of `category`.
    pub open spec fn of(self, category: Category) -> CategoryResult {
        match category {
            Category::Cache => self.cache,
            Category::Temp => self.temp,
            Category::Trash => self.trash,
            Category::Build => self.build,
        }
    }
}

impl Default for ScanResults {
    fn default() -> (results: ScanResults)
        ensures
            forall|category: Category| (#[trigger] results.of(category)).is_empty(),
    {
        ScanResults {
            cache: CategoryResult::empty(),
            temp: CategoryResult::empty(),
            trash: CategoryResult::empty(),
            build: CategoryResult::empty(),
        }
    }
}

/// What a scan came to: the findings, and the categories whose detector
/// failed and of which the user is to be warned.
#[derive(Debug)]
pub struct ScanReport {
    pub results: ScanResults,
    pub failed: Vec<Category>,
}

/// The categories a scan runs a detector for, in the order it runs them.
pub open spec fn scan_order(options: ScanOptions) -> Seq<Category> {
    (if options.cache {
        seq![Category::Cache]
    } else {
        Seq::empty()
    }) + (if options.temp {
        seq![Category::Temp]
    } else {
        Seq::empty()
    }) + (if options.trash {
        seq![Category::Trash]
    } else {
        Seq::empty()
    }) + (if options.build {
        seq![Category::Build]
    } else {
        Seq::empty()
    })
}

/// Computes [`scan_order`].
pub fn categories_to_scan(options: &ScanOptions) -> (order: Vec<Category>)
    ensures
        order@ == scan_order(*options),
{
    let mut order: Vec<Category> = Vec::new();
    if options.cache {
        order.push(Category::Cache);
    }
    if options.temp {
        order.push(Category::Temp);
    }
    if options.trash {
        order.push(Category::Trash);
    }
    if options.build {
        order.push(Category::Build);
    }
    proof {
        assert(order@ =~= scan_order(*options));
    }
    order
}

/// The contribution of one category: what its detector found, and nothing
/// where the category is not looked for or its detector failed.
pub open spec fn contribution(enabled: bool, found: Option<CategoryResult>, result: CategoryResult) -> bool {
    if enabled && found is Some {
        result == found->0
    } else {
        result.is_empty()
    }
}

/// The categories that are looked for and whose detector failed, in scan
/// order.
pub open spec fn failed_categories(
    options: ScanOptions,
    cache: Option<CategoryResult>,
    temp: Option<CategoryResult>,
    trash: Option<CategoryResult>,
    build: Option<CategoryResult>,
) -> Seq<Category> {
    (if options.cache && cache is None {
        seq![Category::Cache]
    } else {
        Seq::empty()
    }) + (if options.temp && temp is None {
        seq![Category::Temp]
    } else {
        Seq::empty()
    }) + (if options.trash && trash is None {
        seq![Category::Trash]
    } else {
        Seq::empty()
    }) + (if options.build && build is None {
        seq![Category::Build]
    } else {
        Seq::empty()
    })
}

fn settle(enabled: bool, found: Option<CategoryResult>, category: Category, failed: &mut Vec<
    Category,
>) -> (result: CategoryResult)
    ensures
        contribution(enabled, found, result),
        final(failed)@ == old(failed)@ + (if enabled && found is None {
            seq![category]
        } else {
            Seq::empty()
        }),
{
    if !enabled {
        return CategoryResult::empty();
    }
    match found {
        Some(result) => result,
        None => {
            failed.push(category);
            CategoryResult::empty()
        },
    }
}

/// Puts together what the detectors found. Each argument is the answer of one
/// category's detector, `None` where it failed or was not run. A category
/// that is not enabled contributes nothing whatever its argument; one whose
/// detector failed contributes nothing and is listed as failed.
pub fn scan_all(
    options: &ScanOptions,
    cache: Option<CategoryResult>,
    temp: Option<CategoryResult>,
    trash: Option<CategoryResult>,
    build: Option<CategoryResult>,
) -> (report: ScanReport)
    ensures
        contribution(options.cache, cache, report.results.cache),
        contribution(options.temp, temp, report.results.temp),
        contribution(options.trash, trash, report.results.trash),
        contribution(options.build, build, report.results.build),
        report.failed@ == failed_categories(*options, cache, temp, trash, build),
{
    let mut failed: Vec<Category> = Vec::new();
    let cache_found = settle(options.cache, cache, Category::Cache, &mut failed);
    let temp_found = settle(options.temp, temp, Category::Temp, &mut failed);
    let trash_found = settle(options.trash, trash, Category::Trash, &mut failed);
    let build_found = settle(options.build, build, Category::Build, &mut failed);
    proof {
        assert(failed@ =~= failed_categories(*options, cache, temp, trash, build));
    }
    ScanReport {
        results: ScanResults {
            cache: cache_found,
            temp: temp_found,
            trash: trash_found,
            build: build_found,
        },
        failed,
    }
}

impl Category {
    /// The category's name as warnings show it.
    pub open spec fn title(self) -> Seq<char> {
        match self {
            Category::Cache => "Cache"@,
            Category::Temp => "Temp"@,
            Category::Trash => "Trash"@,
            Category::Build => "Build"@,
        }
    }

    /// Computes [`Self::title`].
    pub fn name(&self) -> (name: &'static str)
        ensures
            name@ == self.title(),
    {
        match self {
            Category::Cache => "Cache",
            Category::Temp => "Temp",
            Category::Trash => "Trash",
            Category::Build => "Build",
        }
    }
}

/// The warning for a detector that failed with `cause`.
pub open spec fn scan_warning_text(category: Category, cause: Seq<char>) -> Seq<char> {
    "Warning: "@ + category.title() + " scan failed: "@ + cause
}

/// Computes [`scan_warning_text`].
pub fn scan_warning(category: Category, cause: &str) -> (out: String)
    ensures
        out@ == scan_warning_text(category, cause@),
{
    String::from_str("Warning: ").concat(category.name()).concat(" scan failed: ").concat(cause)
}

} // verus!
