//! A scan of a repository: its options, the choice of analyzer, and the
//! totals that the history keeps of its results.
use vstd::prelude::*;

use crate::analyzer::{AnalyzedStruct, Arch, arch_name};
use crate::db::{ScanSummary, uppercase, language_column};
use crate::text::eq_str;

verus! {

/// The options a scan is started with.
#[derive(Debug, Clone)]
pub struct ScanOptions {
    pub ignore_patterns: Vec<String>,
    pub target_arch: String,
    /// "GO" or "TS", in any case.
    pub language: String,
}

/// The language of a scan, upper-cased, and whether it selects the
/// TypeScript analyzer (language `TS`); any other language scans Go.
pub fn scan_language(opts: &ScanOptions) -> (r: (String, bool))
    ensures
        r.0@ == uppercase(opts.language@),
        r.1 == (uppercase(opts.language@) == "TS"@),
{
    let language = language_column(opts.language.as_str());
    let is_typescript = eq_str(chars_of_string(&language).as_slice(), "TS");
    (language, is_typescript)
}

fn chars_of_string(s: &String) -> (v: Vec<char>)
    ensures
        v@ == s@,
{
    crate::text::chars_of(s.as_str())
}

/// The results whose bytes saved are more than zero.
pub open spec fn padded_count(rs: Seq<(String, AnalyzedStruct)>) -> int
    decreases rs.len(),
{
    if rs.len() == 0 {
        0
    } else {
        padded_count(rs.drop_last()) + if rs.last().1.bytes_saved > 0 {
            1int
        } else {
            0int
        }
    }
}

/// The bytes saved over all results, each taken as the signed number the
/// history stores.
pub open spec fn saved_total(rs: Seq<(String, AnalyzedStruct)>) -> int
    decreases rs.len(),
{
    if rs.len() == 0 {
        0
    } else {
        saved_total(rs.drop_last()) + if rs.last().1.bytes_saved > 0 {
            rs.last().1.bytes_saved as i64 as int
        } else {
            0int
        }
    }
}

/// The running totals of a prefix of the results fit in `i64`.
pub open spec fn totals_fit(rs: Seq<(String, AnalyzedStruct)>) -> bool {
    &&& rs.len() <= i64::MAX
    &&& forall|k: int| 0 <= k <= rs.len() ==> i64::MIN <= #[trigger] saved_total(rs.take(k)) <= i64::MAX
}

/// The totals a scan records: the number of results, the number of them that
/// save bytes, and the bytes they save; `None` where a running total
/// overflows `i64`.
pub fn scan_totals(results: &Vec<(String, AnalyzedStruct)>) -> (r: Option<(i64, i64, i64)>)
    ensures
        r is Some <==> totals_fit(results@),
        r matches Some(t) ==> t.0 == results@.len() && t.1 == padded_count(results@) && t.2 == saved_total(
            results@,
        ) && 0 <= t.1 <= t.0,
{
    let ghost rs = results@;
    let mut total: i64 = 0;
    let mut padded: i64 = 0;
    let mut saved: i64 = 0;
    let mut i: usize = 0;
    assert(rs.take(0) =~= Seq::<(String, AnalyzedStruct)>::empty());
    while i < results.len()
        invariant
            rs == results@,
            i <= rs.len(),
            total == i,
            padded == padded_count(rs.take(i as int)),
            0 <= padded <= i,
            saved == saved_total(rs.take(i as int)),
            forall|k: int| 0 <= k <= i ==> i64::MIN <= #[trigger] saved_total(rs.take(k)) <= i64::MAX,
        decreases rs.len() - i,
    {
        assert(rs.take(i + 1).drop_last() =~= rs.take(i as int));
        assert(rs.take(i + 1).last() == rs[i as int]);
        if total == i64::MAX {
            assert(!totals_fit(rs));
            return None;
        }
        total = total + 1;
        let b = results[i].1.bytes_saved;
        if b > 0 {
            padded = padded + 1;
            let add = b as i64;
            match saved.checked_add(add) {
                Some(x) => {
                    saved = x;
                },
                None => {
                    assert(!totals_fit(rs)) by {
                        assert(saved_total(rs.take(i + 1)) == saved + add);
                    }
                    return None;
                },
            }
        }
        i = i + 1;
    }
    assert(rs.take(rs.len() as int) =~= rs);
    Some((total, padded, saved))
}

/// The summary a scan answers with, from its id, time, totals and options.
pub fn scan_summary(
    id: i64,
    repo_path: String,
    scanned_at: i64,
    totals: (i64, i64, i64),
    ignore_patterns: Vec<String>,
    arch: Arch,
    language: String,
) -> (r: ScanSummary)
    ensures
        r.id == id,
        r.repo_path == repo_path,
        r.scanned_at == scanned_at,
        r.total_structs == totals.0,
        r.padded_structs == totals.1,
        r.bytes_saved == totals.2,
        r.ignore_patterns == ignore_patterns,
        r.target_arch@ == arch_name(arch),
        r.language == language,
{
    ScanSummary {
        id,
        repo_path,
        scanned_at,
        total_structs: totals.0,
        padded_structs: totals.1,
        bytes_saved: totals.2,
        ignore_patterns,
        target_arch: String::from_str(arch.as_str()),
        language,
    }
}

/// What a running scan does next with its results.
#[derive(Debug, Clone, Copy, PartialEq, Eq, Structural)]
pub enum ScanAction {
    /// Record the result at this index.
    Save(usize),
    /// Drop the scan record: the scan was cancelled.
    Cancel,
    /// Record the totals: every result is saved and the scan was not
    /// cancelled.
    Finish,
}

/// The next step of a scan that has saved `saved` of its `total` results: a
/// cancelled scan is dropped, whatever it has saved; otherwise the next
/// result is saved, and after the last one the totals are.
pub fn next_scan_action(saved: usize, total: usize, cancelled: bool) -> (a: ScanAction)
    ensures
        a == (if cancelled {
            ScanAction::Cancel
        } else if saved < total {
            ScanAction::Save(saved)
        } else {
            ScanAction::Finish
        }),
{
    if cancelled {
        ScanAction::Cancel
    } else if saved < total {
        ScanAction::Save(saved)
    } else {
        ScanAction::Finish
    }
}

} // verus!
