use vstd::prelude::*;
use vstd::string::StringExecFns;

use crate::model::node::{DiskNode, NodeType};
use crate::model::time::{now_nanos, offset_nanos, EpochOffset};
use crate::strings::{
    binary_size_text, decimal, decimal_text, extension_of, format_size_binary, lowercase,
    text_after_last_dot, to_lowercase,
};

verus! {

/// Criteria for filtering the tree view.
#[derive(Debug, Clone)]
pub enum FilterCriteria {
    /// Filter by file extension (e.g., "rs", "txt").
    Extension(String),
    /// Filter by size range.
    SizeRange { min: Option<u64>, max: Option<u64> },
    /// Filter files modified within last N days.
    ModifiedWithin(u64),
}

/// Nanoseconds in a day.
pub open spec fn nanos_per_day() -> int {
    86_400_000_000_000
}

/// A filter whose day count converts to a duration in seconds that a signed 64-bit
/// clock can subtract.
pub open spec fn filter_ok(f: FilterCriteria) -> bool {
    match f {
        FilterCriteria::ModifiedWithin(days) => days * 86400 <= i64::MAX,
        _ => true,
    }
}

/// An optional filter that is `filter_ok` when present.
pub open spec fn opt_filter_ok(f: Option<&FilterCriteria>) -> bool {
    match f {
        Some(f) => filter_ok(*f),
        None => true,
    }
}

/// Whether `node` passes `f` when the clock reads `now` (nanoseconds relative to the
/// Unix epoch). Directories always pass.
pub open spec fn matches_spec(f: FilterCriteria, node: DiskNode, now: int) -> bool {
    if node.node_type == NodeType::Dir {
        true
    } else {
        match f {
            FilterCriteria::Extension(ext) => match extension_of(node.name@) {
                Some(e) => lowercase(e) == lowercase(ext@),
                None => false,
            },
            FilterCriteria::SizeRange { min, max } => {
                &&& (min matches Some(lo) ==> node.size >= lo)
                &&& (max matches Some(hi) ==> node.size <= hi)
            },
            FilterCriteria::ModifiedWithin(days) => match node.modified {
                Some(m) => m >= now - days * nanos_per_day(),
                None => false,
            },
        }
    }
}

/// Whether the outcome of `f` depends on the clock.
pub open spec fn reads_clock(f: FilterCriteria) -> bool {
    f is ModifiedWithin
}

/// The short description of a filter shown in the status bar.
pub open spec fn label_spec(f: FilterCriteria) -> Seq<char> {
    match f {
        FilterCriteria::Extension(ext) => "*."@ + ext@,
        FilterCriteria::SizeRange { min, max } => match (min, max) {
            (Some(lo), Some(hi)) => binary_size_text(lo) + "-"@ + binary_size_text(hi),
            (Some(lo), None) => ">"@ + binary_size_text(lo),
            (None, Some(hi)) => "<"@ + binary_size_text(hi),
            (None, None) => "all sizes"@,
        },
        FilterCriteria::ModifiedWithin(days) => "last "@ + decimal(days as nat) + "d"@,
    }
}

impl FilterCriteria {
    pub fn label(&self) -> (r: String)
        ensures
            r@ == label_spec(*self),
    {
        match self {
            FilterCriteria::Extension(ext) => {
                let mut s = String::from_str("*.");
                s.append(ext.as_str());
                s
            },
            FilterCriteria::SizeRange { min, max } => {
                match (min, max) {
                    (Some(lo), Some(hi)) => {
                        let mut s = format_size_binary(*lo);
                        s.append("-");
                        let h = format_size_binary(*hi);
                        s.append(h.as_str());
                        s
                    },
                    (Some(lo), None) => {
                        let mut s = String::from_str(">");
                        let l = format_size_binary(*lo);
                        s.append(l.as_str());
                        s
                    },
                    (None, Some(hi)) => {
                        let mut s = String::from_str("<");
                        let h = format_size_binary(*hi);
                        s.append(h.as_str());
                        s
                    },
                    (None, None) => String::from_str("all sizes"),
                }
            },
            FilterCriteria::ModifiedWithin(days) => {
                let mut s = String::from_str("last ");
                let d = decimal_text(*days);
                s.append(d.as_str());
                s.append("d");
                s
            },
        }
    }

    /// Check if a node matches this filter when the clock reads `now` (nanoseconds
    /// relative to the Unix epoch). Directories always match.
    pub fn matches_at(&self, node: &DiskNode, now: i128) -> (r: bool)
        requires
            filter_ok(*self),
        ensures
            r == matches_spec(*self, *node, now as int),
    {
        if node.node_type == NodeType::Dir {
            return true;
        }
        match self {
            FilterCriteria::Extension(ext) => {
                let ext_lower = to_lowercase(ext.as_str());
                match text_after_last_dot(node.name.as_str()) {
                    Some(e) => {
                        let e_lower = to_lowercase(e.as_str());
                        e_lower == ext_lower
                    },
                    None => false,
                }
            },
            FilterCriteria::SizeRange { min, max } => {
                if let Some(min) = min {
                    if node.size < *min {
                        return false;
                    }
                }
                if let Some(max) = max {
                    if node.size > *max {
                        return false;
                    }
                }
                true
            },
            FilterCriteria::ModifiedWithin(days) => {
                match node.modified {
                    Some(modified) => {
                        let span: i128 = (*days as i128) * 86_400_000_000_000i128;
                        match now.checked_sub(span) {
                            Some(cutoff) => modified >= cutoff,
                            None => true,
                        }
                    },
                    None => false,
                }
            },
        }
    }

    /// Check if a node matches this filter. Directories always match (to keep the
    /// tree structure visible), but they may be pruned if no descendants match.
    /// A modification-time filter reads the clock.
    pub fn matches(&self, node: &DiskNode) -> (r: bool)
        requires
            filter_ok(*self),
        ensures
            exists|o: EpochOffset| r == matches_spec(*self, *node, offset_nanos(o)),
            !reads_clock(*self) ==> r == matches_spec(*self, *node, 0),
    {
        let now = now_nanos();
        self.matches_at(node, now)
    }
}

/// The day counts of the date filter presets, in menu order.
pub open spec fn date_preset_days() -> Seq<u64> {
    seq![1u64, 7u64, 30u64, 365u64]
}

/// The byte thresholds of the size filter presets, in menu order.
pub open spec fn size_preset_bytes() -> Seq<u64> {
    seq![1048576u64, 10485760u64, 104857600u64, 1073741824u64]
}

/// Predefined date filter option `i` (of four): its day count and its menu label.
pub fn date_preset(i: usize) -> (r: (u64, &'static str))
    requires
        i < 4,
    ensures
        r.0 == date_preset_days()[i as int],
{
    if i == 0 {
        (1, "Last 24h")
    } else if i == 1 {
        (7, "Last 7 days")
    } else if i == 2 {
        (30, "Last 30 days")
    } else {
        (365, "Last year")
    }
}

/// Size filter preset `i` (of four): its byte threshold and its menu label.
pub fn size_preset(i: usize) -> (r: (u64, &'static str))
    requires
        i < 4,
    ensures
        r.0 == size_preset_bytes()[i as int],
{
    if i == 0 {
        (1024 * 1024, "> 1 MiB")
    } else if i == 1 {
        (10 * 1024 * 1024, "> 10 MiB")
    } else if i == 2 {
        (100 * 1024 * 1024, "> 100 MiB")
    } else {
        (1024 * 1024 * 1024, "> 1 GiB")
    }
}

} // verus!
