//! The shorter report record, without the watt-hour figure, built from
//! figures computed elsewhere.
use vstd::prelude::*;
use crate::decimal::{text_of, Decimal};

verus! {

#[derive(Clone, Debug, Default)]
pub struct CarbonCrushResult {
    pub consumption: String,
    pub app_id: String,
    pub duration: String,
    pub branch: String,
    pub commit_sha: String,
    pub energy: String,
    pub ci_pipeline_url: String,
}

/// Builds the record from a power, an energy and a duration, each written as
/// its shortest decimal text, and the context strings.
pub fn build_cc_result(
    consumption: Decimal,
    app_id: &str,
    branch: &str,
    commit_sha: &str,
    ci_pipeline_url: &str,
    energy: Decimal,
    duration: Decimal,
) -> (r: CarbonCrushResult)
    ensures
        r.consumption@ == text_of(consumption),
        r.app_id@ == app_id@,
        r.duration@ == text_of(duration),
        r.branch@ == branch@,
        r.commit_sha@ == commit_sha@,
        r.energy@ == text_of(energy),
        r.ci_pipeline_url@ == ci_pipeline_url@,
{
    CarbonCrushResult {
        consumption: consumption.to_text(),
        app_id: app_id.to_owned(),
        energy: energy.to_text(),
        branch: branch.to_owned(),
        ci_pipeline_url: ci_pipeline_url.to_owned(),
        commit_sha: commit_sha.to_owned(),
        duration: duration.to_text(),
    }
}

} // verus!
