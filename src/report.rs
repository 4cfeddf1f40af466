//! The report record: a process's figures as decimal text, with the build context.
use vstd::prelude::*;
use crate::aggregate::{
    average_consumption, average_of, duration_of, lemma_mean_fits, mean_units, powers,
    process_duration_seconds, MICRO_SCALE,
};
use crate::decimal::{lemma_decimal_round_trip, parsed_decimal, text_of, Decimal};
use crate::energy::{energy_uws_of, energy_wh_of, get_energy_uws, get_energy_wh};
use crate::error::AggregationError;
use crate::measure::{match_set, Measure};

verus! {

/// The energy report of one process over one run.
#[derive(Clone, Debug, Default)]
pub struct CarbonCrushResult {
    /// Mean power, in microwatts.
    pub consumption: String,
    pub app_id: String,
    /// Active duration, in seconds.
    pub duration: String,
    pub branch: String,
    pub commit_sha: String,
    /// Energy used, in microwatt-seconds.
    pub energy: String,
    /// Energy used, in watt-hours.
    pub energy_watthours: String,
    pub ci_pipeline_url: String,
}

impl CarbonCrushResult {
    /// One-line summary of the report: `consumption: <mean power>`.
    pub fn to_text(&self) -> (r: String)
        ensures
            r@ == "consumption: "@ + self.consumption@,
    {
        let mut line = String::new();
        line.append("consumption: ");
        line.append(self.consumption.as_str());
        line
    }
}

/// `r` reports the power `consumption` (microwatts) over `duration` (seconds),
/// with the energies they give and the context strings unchanged.
pub open spec fn describes(
    r: CarbonCrushResult,
    consumption: Decimal,
    app_id: Seq<char>,
    branch: Seq<char>,
    commit_sha: Seq<char>,
    ci_pipeline_url: Seq<char>,
    duration: Decimal,
) -> bool {
    &&& energy_uws_of(consumption, duration) is Ok
    &&& energy_wh_of(consumption, duration) is Ok
    &&& r.consumption@ == text_of(consumption)
    &&& r.app_id@ == app_id
    &&& r.duration@ == text_of(duration)
    &&& r.branch@ == branch
    &&& r.commit_sha@ == commit_sha
    &&& r.energy@ == text_of(energy_uws_of(consumption, duration)->Ok_0)
    &&& r.energy_watthours@ == text_of(energy_wh_of(consumption, duration)->Ok_0)
    &&& r.ci_pipeline_url@ == ci_pipeline_url
}

/// Every figure of a report reads back, at its scale, to the value it was
/// written from: the power, the duration and both energies.
pub proof fn lemma_report_figures_read_back(
    r: CarbonCrushResult,
    consumption: Decimal,
    app_id: Seq<char>,
    branch: Seq<char>,
    commit_sha: Seq<char>,
    ci_pipeline_url: Seq<char>,
    duration: Decimal,
)
    requires
        describes(r, consumption, app_id, branch, commit_sha, ci_pipeline_url, duration),
        consumption.wf(),
        duration.wf(),
    ensures
        parsed_decimal(r.consumption@, consumption.scale) == Some(consumption),
        parsed_decimal(r.duration@, duration.scale) == Some(duration),
        parsed_decimal(r.energy@, energy_uws_of(consumption, duration)->Ok_0.scale) == Some(
            energy_uws_of(consumption, duration)->Ok_0,
        ),
        parsed_decimal(r.energy_watthours@, energy_wh_of(consumption, duration)->Ok_0.scale)
            == Some(energy_wh_of(consumption, duration)->Ok_0),
{
    lemma_decimal_round_trip(consumption);
    lemma_decimal_round_trip(duration);
    lemma_decimal_round_trip(energy_uws_of(consumption, duration)->Ok_0);
    lemma_decimal_round_trip(energy_wh_of(consumption, duration)->Ok_0);
}

/// In a report of a process over snapshots whose matched timestamps do not
/// run backwards, the power reads back as the mean of the matched powers
/// (rounded down to a millionth) and the duration as the time from the first
/// to the last matched reading.
pub proof fn lemma_process_report_reads_back(
    measures: Seq<Measure>,
    process_name: Seq<char>,
    r: CarbonCrushResult,
    app_id: Seq<char>,
    branch: Seq<char>,
    commit_sha: Seq<char>,
    ci_pipeline_url: Seq<char>,
)
    requires
        match_set(measures, process_name).len() > 0,
        match_set(measures, process_name)[0].timestamp <= match_set(
            measures,
            process_name,
        ).last().timestamp,
        describes(
            r,
            average_of(match_set(measures, process_name))->Ok_0,
            app_id,
            branch,
            commit_sha,
            ci_pipeline_url,
            duration_of(match_set(measures, process_name))->Ok_0,
        ),
    ensures
        ({
            let m = match_set(measures, process_name);
            &&& mean_units(powers(m)) <= u128::MAX
            &&& parsed_decimal(r.consumption@, MICRO_SCALE) == Some(
                Decimal { units: mean_units(powers(m)) as u128, scale: MICRO_SCALE },
            )
            &&& parsed_decimal(r.duration@, MICRO_SCALE) == Some(
                Decimal {
                    units: (m.last().timestamp - m[0].timestamp) as u128,
                    scale: MICRO_SCALE,
                },
            )
        }),
{
    let m = match_set(measures, process_name);
    lemma_mean_fits(powers(m));
    lemma_decimal_round_trip(average_of(m)->Ok_0);
    lemma_decimal_round_trip(duration_of(m)->Ok_0);
}

/// Builds the report of a mean power (microwatts) over a duration (seconds).
/// Fails with `InvalidMeasurement` when the energies do not fit.
pub fn build_carboncrush_result(
    consumption_uw: Decimal,
    app_id: &str,
    branch: &str,
    commit_sha: &str,
    ci_pipeline_url: &str,
    duration_seconds: Decimal,
) -> (r: Result<CarbonCrushResult, AggregationError>)
    ensures
        energy_wh_of(consumption_uw, duration_seconds) is Err ==> r == Err::<
            CarbonCrushResult,
            AggregationError,
        >(AggregationError::InvalidMeasurement),
        energy_wh_of(consumption_uw, duration_seconds) is Ok ==> r is Ok && describes(
            r->Ok_0,
            consumption_uw,
            app_id@,
            branch@,
            commit_sha@,
            ci_pipeline_url@,
            duration_seconds,
        ),
{
    let energy_microwattseconds = match get_energy_uws(consumption_uw, duration_seconds) {
        Ok(e) => e,
        Err(e) => return Err(e),
    };
    let energy_watthours = match get_energy_wh(consumption_uw, duration_seconds) {
        Ok(e) => e,
        Err(e) => return Err(e),
    };
    Ok(
        CarbonCrushResult {
            consumption: consumption_uw.to_text(),
            app_id: app_id.to_owned(),
            energy: energy_microwattseconds.to_text(),
            branch: branch.to_owned(),
            ci_pipeline_url: ci_pipeline_url.to_owned(),
            commit_sha: commit_sha.to_owned(),
            duration: duration_seconds.to_text(),
            energy_watthours: energy_watthours.to_text(),
        },
    )
}

/// The whole aggregation: the mean power and the duration of `process_name`
/// over `measures`, their energies, and the context, in one report.
pub fn build_process_report(
    measures: &Vec<Measure>,
    process_name: &str,
    app_id: &str,
    branch: &str,
    commit_sha: &str,
    ci_pipeline_url: &str,
) -> (r: Result<CarbonCrushResult, AggregationError>)
    ensures
        ({
            let m = match_set(measures@, process_name@);
            match (average_of(m), duration_of(m)) {
                (Err(e), _) => r == Err::<CarbonCrushResult, AggregationError>(e),
                (Ok(_), Err(e)) => r == Err::<CarbonCrushResult, AggregationError>(e),
                (Ok(p), Ok(d)) => match energy_wh_of(p, d) {
                    Err(e) => r == Err::<CarbonCrushResult, AggregationError>(e),
                    Ok(_) => r is Ok && describes(
                        r->Ok_0,
                        p,
                        app_id@,
                        branch@,
                        commit_sha@,
                        ci_pipeline_url@,
                        d,
                    ),
                },
            }
        }),
{
    let power = match average_consumption(measures, process_name) {
        Ok(p) => p,
        Err(e) => return Err(e),
    };
    let duration = match process_duration_seconds(measures, process_name) {
        Ok(d) => d,
        Err(e) => return Err(e),
    };
    build_carboncrush_result(power, app_id, branch, commit_sha, ci_pipeline_url, duration)
}

} // verus!
