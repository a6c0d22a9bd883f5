//! The size report of a rendered chunk.

use crate::chunk::RenderedModule;
use rustc_hash::FxHashMap;
use vstd::prelude::*;

verus! {

/// For each path of a rendered module, its sizes.
pub type SizeReport = FxHashMap<String, RenderedModule>;

/// What a size report holds: for each path of a rendered module, its sizes.
pub uninterp spec fn report_entries(report: SizeReport) -> Map<Seq<char>, RenderedModule>;

/// `FxHashMap::default`: a report without entries.
#[verifier::external_body]
pub(crate) fn report_new() -> (report: SizeReport)
    ensures
        report_entries(report).dom() == Set::<Seq<char>>::empty(),
{
    FxHashMap::default()
}

/// `HashMap::insert` on a map hashed by `FxHasher`: afterwards the path has
/// these sizes, and every other path what it had before.
#[verifier::external_body]
pub(crate) fn report_insert(report: &mut SizeReport, path: String, sizes: RenderedModule)
    ensures
        report_entries(*final(report)) == report_entries(*old(report)).insert(path@, sizes),
{
    report.insert(path, sizes);
}

} // verus!
