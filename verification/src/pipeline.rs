//! The whole cycle's transformation: resolve the competition, join every
//! entity, and sequence the races. The result is everything the emitters
//! consume; rendering it and writing the two files is the caller's part.

use vstd::prelude::*;
use crate::join::{
    cics_of, competitors_of, distances_of, get_competitors, get_competitors_in_competition,
    get_distances, get_lanes, get_programs, get_races, lanes_of, programs_of, races_of,
};
use crate::lookups::has_race_id;
use crate::model::{RaceData, RaceDataView};
use crate::resolve::{resolve_competition_id, resolve_spec, CompetitionError};
use crate::sequence::{lemma_sort_races_seq_sorted, races_sorted, sort_races, sort_races_seq};
use crate::tables::{
    TClubs, TClubsView, TCompetition, TDistancesStandards, TDistancesStandardsView, TPatVagues,
    TPatVaguesView, TPatineurCompe, TPatineurCompeView, TPatineurs, TPatineursView, TProgCourses,
    TProgCoursesView, TVagues, TVaguesView,
};

verus! {

/// The fully joined and sequenced model of one cycle, as a function of the
/// raw tables and the resolved competition id: competitors and distances
/// from their tables; competition entries, program items and races filtered
/// to the resolved competition; races in their final order; lanes restricted
/// to those races.
pub open spec fn race_data_spec(
    skater_rows: Seq<TPatineursView>,
    club_rows: Seq<TClubsView>,
    entry_rows: Seq<TPatineurCompeView>,
    distance_rows: Seq<TDistancesStandardsView>,
    program_rows: Seq<TProgCoursesView>,
    wave_rows: Seq<TVaguesView>,
    lane_rows: Seq<TPatVaguesView>,
    competition_id: i32,
) -> RaceDataView {
    let competitors = competitors_of(skater_rows);
    let distances = distances_of(distance_rows);
    let cics = cics_of(entry_rows, competitors, club_rows, competition_id);
    let programs = programs_of(program_rows, distances, competition_id);
    let races = sort_races_seq(races_of(wave_rows, programs, competition_id));
    RaceDataView {
        races,
        programs,
        lanes: lanes_of(lane_rows, races, cics),
        competitors,
        competitors_in_comp: cics,
    }
}

/// Builds the whole model of one cycle from the raw tables: resolves the
/// competition id (an override is used verbatim), joins every entity with
/// the filtering and derived fields of the data model, and sequences the
/// races. Fails exactly when the resolver fails, with its error.
pub fn build_race_data(
    competition_rows: &Vec<TCompetition>,
    skater_rows: &Vec<TPatineurs>,
    club_rows: &Vec<TClubs>,
    entry_rows: &Vec<TPatineurCompe>,
    distance_rows: &Vec<TDistancesStandards>,
    program_rows: &Vec<TProgCourses>,
    wave_rows: &Vec<TVagues>,
    lane_rows: &Vec<TPatVagues>,
    override_id: Option<i32>,
) -> (result: Result<RaceData, CompetitionError>)
    ensures
        match resolve_spec(competition_rows.deep_view(), override_id) {
            Ok(cid) => result is Ok && result->Ok_0.deep_view() == race_data_spec(
                skater_rows.deep_view(),
                club_rows.deep_view(),
                entry_rows.deep_view(),
                distance_rows.deep_view(),
                program_rows.deep_view(),
                wave_rows.deep_view(),
                lane_rows.deep_view(),
                cid,
            ),
            Err(e) => result == Err::<RaceData, CompetitionError>(e),
        },
        result is Ok ==> races_sorted(result->Ok_0.deep_view().races),
        result is Ok ==> forall|k: int|
            0 <= k < result->Ok_0.deep_view().lanes.len() ==> has_race_id(
                result->Ok_0.deep_view().races,
                #[trigger] result->Ok_0.deep_view().lanes[k].race_id,
            ),
{
    let competition_id = match resolve_competition_id(competition_rows, override_id) {
        Ok(cid) => cid,
        Err(e) => {
            return Err(e);
        },
    };
    let competitors = get_competitors(skater_rows);
    let competitors_in_comp = get_competitors_in_competition(
        &competitors,
        club_rows,
        entry_rows,
        competition_id,
    );
    let distances = get_distances(distance_rows);
    let programs = get_programs(&distances, program_rows, competition_id);
    let mut races = get_races(&programs, wave_rows, competition_id);
    sort_races(&mut races);
    proof {
        lemma_sort_races_seq_sorted(races_of(wave_rows.deep_view(), programs.deep_view(), competition_id));
    }
    let lanes = get_lanes(&races, &competitors_in_comp, lane_rows);
    Ok(RaceData { races, programs, lanes, competitors, competitors_in_comp })
}

/// Rebuilding from byte-identical source tables yields the identical model:
/// the pipeline is a function of the table contents and the resolved
/// competition id alone, so a cycle run twice on the same source produces
/// the same races, the same lanes, and hence the same two outputs.
pub proof fn lemma_pipeline_deterministic(
    skater_rows_a: Seq<TPatineursView>,
    club_rows_a: Seq<TClubsView>,
    entry_rows_a: Seq<TPatineurCompeView>,
    distance_rows_a: Seq<TDistancesStandardsView>,
    program_rows_a: Seq<TProgCoursesView>,
    wave_rows_a: Seq<TVaguesView>,
    lane_rows_a: Seq<TPatVaguesView>,
    skater_rows_b: Seq<TPatineursView>,
    club_rows_b: Seq<TClubsView>,
    entry_rows_b: Seq<TPatineurCompeView>,
    distance_rows_b: Seq<TDistancesStandardsView>,
    program_rows_b: Seq<TProgCoursesView>,
    wave_rows_b: Seq<TVaguesView>,
    lane_rows_b: Seq<TPatVaguesView>,
    competition_id: i32,
)
    requires
        skater_rows_a == skater_rows_b,
        club_rows_a == club_rows_b,
        entry_rows_a == entry_rows_b,
        distance_rows_a == distance_rows_b,
        program_rows_a == program_rows_b,
        wave_rows_a == wave_rows_b,
        lane_rows_a == lane_rows_b,
    ensures
        race_data_spec(
            skater_rows_a,
            club_rows_a,
            entry_rows_a,
            distance_rows_a,
            program_rows_a,
            wave_rows_a,
            lane_rows_a,
            competition_id,
        ) == race_data_spec(
            skater_rows_b,
            club_rows_b,
            entry_rows_b,
            distance_rows_b,
            program_rows_b,
            wave_rows_b,
            lane_rows_b,
            competition_id,
        ),
{
}

} // verus!
