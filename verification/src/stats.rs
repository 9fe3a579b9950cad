//! Found-text statistics: how many records carry a located license text,
//! which share of the whole list that is, and which display tier the share
//! falls into.

use vstd::prelude::*;
use vstd::arithmetic::div_mod::lemma_div_is_ordered;
use vstd::arithmetic::div_mod::lemma_div_pos_is_pos;
use vstd::arithmetic::div_mod::lemma_fundamental_div_mod_converse;
use crate::errors::ReportError;
use crate::records::PackageList;
use crate::records::RecordView;

verus! {

/// Share (in percent) at or above which the summary renders in the "good"
/// tier. Display policy, not a domain invariant.
pub const GOOD_TIER_MIN_PERCENT: u128 = 98;

/// Share (in percent) below which the summary renders in the "bad" tier;
/// from here up to the good threshold it renders as a warning. Display
/// policy, not a domain invariant.
pub const WARNING_TIER_MIN_PERCENT: u128 = 90;

/// Visual tier of the found-text share.
#[derive(Clone, Copy, PartialEq, Eq, Structural, Debug)]
pub enum PercentageTier {
    Good,
    Warning,
    Bad,
}

/// Counts over a non-empty package list.
#[derive(Clone, Copy, PartialEq, Eq, Structural, Debug)]
pub struct Stats {
    pub total_count: usize,
    pub found_count: usize,
}

/// Whether a record's license text was located.
pub open spec fn text_found(r: RecordView) -> bool {
    r.license_text is Some
}

/// Number of records in the list whose license text was located.
pub open spec fn found_count_of(s: Seq<RecordView>) -> int
    decreases s.len(),
{
    if s.len() == 0 {
        0
    } else {
        found_count_of(s.drop_last()) + if text_found(s.last()) {
            1int
        } else {
            0int
        }
    }
}

/// The found share in percent, rounded half-up to whole percent.
pub open spec fn rounded_percentage(found: int, total: int) -> int
    recommends
        0 < total,
{
    (200 * found + total) / (2 * total)
}

/// The display tier of the exact (unrounded) found share.
pub open spec fn tier_spec(found: int, total: int) -> PercentageTier
    recommends
        0 < total,
{
    if 100 * found >= (GOOD_TIER_MIN_PERCENT as int) * total {
        PercentageTier::Good
    } else if 100 * found < (WARNING_TIER_MIN_PERCENT as int) * total {
        PercentageTier::Bad
    } else {
        PercentageTier::Warning
    }
}

impl Stats {
    /// Counts that fit their list: at most as many found as counted, and at
    /// least one record.
    pub open spec fn wf(self) -> bool {
        0 < self.total_count && self.found_count <= self.total_count
    }

    /// The counts describe the given list.
    pub open spec fn describes(self, s: Seq<RecordView>) -> bool {
        self.total_count == s.len() && self.found_count == found_count_of(s)
    }

    /// The found share in whole percent, rounded half-up; always between 0
    /// and 100.
    pub fn percentage(&self) -> (p: u8)
        requires
            self.wf(),
        ensures
            p == rounded_percentage(self.found_count as int, self.total_count as int),
            0 <= p <= 100,
    {
        let f: u128 = self.found_count as u128;
        let t: u128 = self.total_count as u128;
        proof {
            lemma_percentage_bounds(self.found_count as int, self.total_count as int);
        }
        ((200 * f + t) / (2 * t)) as u8
    }

    /// The display tier of the exact found share.
    pub fn tier(&self) -> (r: PercentageTier)
        requires
            self.wf(),
        ensures
            r == tier_spec(self.found_count as int, self.total_count as int),
    {
        let f: u128 = self.found_count as u128;
        let t: u128 = self.total_count as u128;
        if 100 * f >= GOOD_TIER_MIN_PERCENT * t {
            PercentageTier::Good
        } else if 100 * f < WARNING_TIER_MIN_PERCENT * t {
            PercentageTier::Bad
        } else {
            PercentageTier::Warning
        }
    }
}

/// The found count never exceeds the length of the list.
pub proof fn lemma_found_count_bounds(s: Seq<RecordView>)
    ensures
        0 <= found_count_of(s) <= s.len(),
    decreases s.len(),
{
    if s.len() > 0 {
        lemma_found_count_bounds(s.drop_last());
    }
}

/// For counts that fit their list, the rounded percentage lies between 0
/// and 100.
pub proof fn lemma_percentage_bounds(found: int, total: int)
    requires
        0 < total,
        0 <= found <= total,
    ensures
        0 <= rounded_percentage(found, total) <= 100,
{
    let x = 200 * found + total;
    let y = 201 * total;
    let d = 2 * total;
    lemma_div_pos_is_pos(x, d);
    lemma_div_is_ordered(x, y, d);
    lemma_fundamental_div_mod_converse(y, d, 100, total);
}

/// Law: over any package list, the records with a located license text and
/// those without one partition the list, and for a non-empty list the
/// rounded percentage is a value between 0 and 100.
pub proof fn lemma_stats_partition(s: Seq<RecordView>)
    ensures
        0 <= found_count_of(s) <= s.len(),
        found_count_of(s) + (s.len() - found_count_of(s)) == s.len(),
        s.len() > 0 ==> 0 <= rounded_percentage(found_count_of(s), s.len() as int) <= 100,
{
    lemma_found_count_bounds(s);
    if s.len() > 0 {
        lemma_percentage_bounds(found_count_of(s), s.len() as int);
    }
}

/// Computes the counts for a list, or signals the empty-dataset condition
/// on an empty list, where no percentage is defined.
pub fn compute_stats(pl: &PackageList) -> (r: Result<Stats, ReportError>)
    ensures
        pl@.len() == 0 <==> r is Err,
        r is Err ==> r->Err_0 == ReportError::EmptyDataset,
        r is Ok ==> r->Ok_0.describes(pl@) && r->Ok_0.wf(),
{
    let total: usize = pl.records.len();
    if total == 0 {
        return Err(ReportError::EmptyDataset);
    }
    let mut found: usize = 0;
    let mut i: usize = 0;
    while i < pl.records.len()
        invariant
            i <= pl.records.len(),
            pl.records.len() == pl@.len(),
            found == found_count_of(pl@.take(i as int)),
            found <= i,
        decreases pl.records.len() - i,
    {
        proof {
            assert(pl@.take(i as int + 1).drop_last() =~= pl@.take(i as int));
            assert(pl@.take(i as int + 1).last() == pl@[i as int]);
        }
        if pl.records[i].license_text.is_some() {
            found = found + 1;
        }
        i = i + 1;
    }
    proof {
        assert(pl@.take(pl@.len() as int) =~= pl@);
    }
    Ok(Stats { total_count: total, found_count: found })
}

} // verus!
