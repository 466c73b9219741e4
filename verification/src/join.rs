//! The entity joiner: one retrieval function per entity.
//!
//! Each function makes one pass over its source rows. A row missing a field
//! used as a primary or required foreign key is silently excluded; rows of
//! another competition are excluded where the data model asks for it; derived
//! fields (track classification, affiliation fallback, removed-flag coercion)
//! are computed here. Each function's contract pins its result to a
//! `filter_map` over the row views.

use vstd::prelude::*;
use crate::lookups::{
    clone_opt_string, contains_race_id, find_cic, find_cic_idx, find_club, find_club_idx,
    find_competitor, find_competitor_idx, find_distance, find_distance_idx, find_program,
    find_program_idx, has_race_id,
};
use crate::model::{
    Competitor, CompetitorInCompetition, CompetitorInCompetitionView, CompetitorView, Distance,
    DistanceView, Lane, LaneView, ProgramItem, ProgramItemView, Race, RaceView,
};
use crate::strings::{contains_marker_111, contains_seq, marker_111};
use crate::tables::{
    TClubs, TClubsView, TDistancesStandards, TDistancesStandardsView, TPatVagues, TPatVaguesView,
    TPatineurCompe, TPatineurCompeView, TPatineurs, TPatineursView, TProgCourses,
    TProgCoursesView, TVagues, TVaguesView,
};

verus! {

/// The competitor built from one skaters row: dropped when the skater number
/// is missing, carried with all its optional fields otherwise.
pub open spec fn competitor_of_row(r: TPatineursView) -> Option<CompetitorView> {
    match r.no_patineur {
        Some(np) => Some(
            CompetitorView {
                id: r.code_pat,
                no_patineur: np,
                first_name: r.prenom,
                last_name: r.nom,
                birth_date: r.date_naissance,
                sex: r.sexe,
                division: r.division,
                category_id: r.no_categorie,
                club_id: r.no_club,
            },
        ),
        None => None,
    }
}

/// All competitors of the skaters table, in row order.
pub open spec fn competitors_of(rows: Seq<TPatineursView>) -> Seq<CompetitorView> {
    rows.filter_map(|r: TPatineursView| competitor_of_row(r))
}

/// Builds the competitor collection from the raw skaters table.
#[verifier::loop_isolation(false)]
pub fn get_competitors(rows: &Vec<TPatineurs>) -> (result: Vec<Competitor>)
    ensures
        result.deep_view() == competitors_of(rows.deep_view()),
{
    let ghost rsv = rows.deep_view();
    let ghost f = |r: TPatineursView| competitor_of_row(r);
    let mut out: Vec<Competitor> = Vec::new();
    proof {
        assert(out.deep_view() =~= rsv.take(0).filter_map(f));
    }
    let mut i: usize = 0;
    while i < rows.len()
        invariant
            i <= rows.len(),
            out.deep_view() == rsv.take(i as int).filter_map(f),
        decreases rows.len() - i,
    {
        let row = &rows[i];
        match row.no_patineur {
            Some(np) => {
                let c = Competitor {
                    id: clone_opt_string(&row.code_pat),
                    no_patineur: np,
                    first_name: clone_opt_string(&row.prenom),
                    last_name: clone_opt_string(&row.nom),
                    birth_date: clone_opt_string(&row.date_naissance),
                    sex: clone_opt_string(&row.sexe),
                    division: clone_opt_string(&row.division),
                    category_id: row.no_categorie,
                    club_id: row.no_club,
                };
                proof {
                    assert(c.deep_view() == competitor_of_row(rsv[i as int]).unwrap());
                }
                out.push(c);
            },
            None => {},
        }
        proof {
            rsv.lemma_filter_map_take_succ(f, i as int);
            assert(out.deep_view() =~= rsv.take(i + 1).filter_map(f));
        }
        i = i + 1;
    }
    proof {
        assert(rsv.take(rsv.len() as int) =~= rsv);
    }
    out
}

/// The track classification of a distance display name: 111 when the name
/// carries the `"(111)"` marker, else 100 (also when there is no name).
pub open spec fn track_of_name(name: Option<Seq<char>>) -> i32 {
    match name {
        Some(n) => if contains_seq(n, marker_111()) {
            111
        } else {
            100
        },
        None => 100,
    }
}

/// The distance built from one standard-distances row: dropped when the
/// distance id is missing.
pub open spec fn distance_of_row(r: TDistancesStandardsView) -> Option<DistanceView> {
    match r.no_distance {
        Some(id) => Some(
            DistanceView {
                id,
                name: r.distance,
                length: r.longueur_epreuve,
                track: track_of_name(r.distance),
            },
        ),
        None => None,
    }
}

/// All distances of the standard-distances table, in row order.
pub open spec fn distances_of(rows: Seq<TDistancesStandardsView>) -> Seq<DistanceView> {
    rows.filter_map(|r: TDistancesStandardsView| distance_of_row(r))
}

/// Builds the distance collection from the raw standard-distances table,
/// classifying each track from the display name.
#[verifier::loop_isolation(false)]
pub fn get_distances(rows: &Vec<TDistancesStandards>) -> (result: Vec<Distance>)
    ensures
        result.deep_view() == distances_of(rows.deep_view()),
{
    let ghost rsv = rows.deep_view();
    let ghost f = |r: TDistancesStandardsView| distance_of_row(r);
    let mut out: Vec<Distance> = Vec::new();
    proof {
        assert(out.deep_view() =~= rsv.take(0).filter_map(f));
    }
    let mut i: usize = 0;
    while i < rows.len()
        invariant
            i <= rows.len(),
            out.deep_view() == rsv.take(i as int).filter_map(f),
        decreases rows.len() - i,
    {
        let row = &rows[i];
        match row.no_distance {
            Some(id) => {
                let marked = match &row.distance {
                    Some(n) => contains_marker_111(n.as_str()),
                    None => false,
                };
                let track: i32 = if marked {
                    111
                } else {
                    100
                };
                let d = Distance {
                    id,
                    name: clone_opt_string(&row.distance),
                    length: row.longueur_epreuve,
                    track,
                };
                proof {
                    assert(d.deep_view() == distance_of_row(rsv[i as int]).unwrap());
                }
                out.push(d);
            },
            None => {},
        }
        proof {
            rsv.lemma_filter_map_take_succ(f, i as int);
            assert(out.deep_view() =~= rsv.take(i + 1).filter_map(f));
        }
        i = i + 1;
    }
    proof {
        assert(rsv.take(rsv.len() as int) =~= rsv);
    }
    out
}

/// The affiliation shown for a club: its abbreviation, falling back to the
/// full club name, absent when the club has neither or is unknown.
pub open spec fn affiliation_of_club(club: Option<TClubsView>) -> Option<Seq<char>> {
    match club {
        Some(cl) => match cl.abreviation {
            Some(a) => Some(a),
            None => cl.nom_du_club,
        },
        None => None,
    }
}

/// The competition entry built from one skater-in-competition row: dropped
/// when the row belongs to another competition or lacks its registration id
/// or skater number; club data and the back-reference to the competitor's
/// registration code are joined in, each tolerating an unresolvable key.
pub open spec fn cic_of_row(
    r: TPatineurCompeView,
    comps: Seq<CompetitorView>,
    clubs: Seq<TClubsView>,
    competition_id: i32,
) -> Option<CompetitorInCompetitionView> {
    if r.no_competition != Some(competition_id) {
        None
    } else {
        match (r.no_pat_compe, r.no_patineur) {
            (Some(id), Some(pid)) => {
                let club = match r.no_club {
                    Some(cid) => find_club(clubs, cid),
                    None => None,
                };
                Some(
                    CompetitorInCompetitionView {
                        id,
                        competitor_id: match find_competitor(comps, pid) {
                            Some(c) => c.id,
                            None => None,
                        },
                        club_id: r.no_club,
                        affiliation: affiliation_of_club(club),
                        club_name: match club {
                            Some(cl) => cl.nom_du_club,
                            None => None,
                        },
                        rank: r.rang,
                        removed: match r.retirer {
                            Some(v) => Some(v != 0),
                            None => None,
                        },
                        group: r.groupe,
                        helmet_id: r.no_casque,
                    },
                )
            },
            _ => None,
        }
    }
}

/// All competition entries of the resolved competition, in row order.
pub open spec fn cics_of(
    rows: Seq<TPatineurCompeView>,
    comps: Seq<CompetitorView>,
    clubs: Seq<TClubsView>,
    competition_id: i32,
) -> Seq<CompetitorInCompetitionView> {
    rows.filter_map(|r: TPatineurCompeView| cic_of_row(r, comps, clubs, competition_id))
}

/// Builds the competition-entry collection: rows of other competitions are
/// excluded, club affiliation falls back from abbreviation to full name, and
/// the removed flag coerces nonzero to true.
#[verifier::loop_isolation(false)]
pub fn get_competitors_in_competition(
    competitors: &Vec<Competitor>,
    clubs: &Vec<TClubs>,
    rows: &Vec<TPatineurCompe>,
    competition_id: i32,
) -> (result: Vec<CompetitorInCompetition>)
    ensures
        result.deep_view() == cics_of(
            rows.deep_view(),
            competitors.deep_view(),
            clubs.deep_view(),
            competition_id,
        ),
{
    let ghost rsv = rows.deep_view();
    let ghost cv = competitors.deep_view();
    let ghost clv = clubs.deep_view();
    let ghost f = |r: TPatineurCompeView| cic_of_row(r, cv, clv, competition_id);
    let mut out: Vec<CompetitorInCompetition> = Vec::new();
    proof {
        assert(out.deep_view() =~= rsv.take(0).filter_map(f));
    }
    let mut i: usize = 0;
    while i < rows.len()
        invariant
            i <= rows.len(),
            out.deep_view() == rsv.take(i as int).filter_map(f),
        decreases rows.len() - i,
    {
        let row = &rows[i];
        let in_competition = match row.no_competition {
            Some(c) => c == competition_id,
            None => false,
        };
        if in_competition {
            match (row.no_pat_compe, row.no_patineur) {
                (Some(id), Some(pid)) => {
                    let competitor_id = match find_competitor_idx(competitors, pid) {
                        Some(ci) => clone_opt_string(&competitors[ci].id),
                        None => None,
                    };
                    let club_idx = match row.no_club {
                        Some(cid) => find_club_idx(clubs, cid),
                        None => None,
                    };
                    let affiliation = match club_idx {
                        Some(cli) => match &clubs[cli].abreviation {
                            Some(a) => Some(a.clone()),
                            None => clone_opt_string(&clubs[cli].nom_du_club),
                        },
                        None => None,
                    };
                    let club_name = match club_idx {
                        Some(cli) => clone_opt_string(&clubs[cli].nom_du_club),
                        None => None,
                    };
                    let c = CompetitorInCompetition {
                        id,
                        competitor_id,
                        club_id: row.no_club,
                        affiliation,
                        club_name,
                        rank: row.rang,
                        removed: match row.retirer {
                            Some(v) => Some(v != 0),
                            None => None,
                        },
                        group: clone_opt_string(&row.groupe),
                        helmet_id: row.no_casque,
                    };
                    proof {
                        assert(c.deep_view() == cic_of_row(
                            rsv[i as int],
                            cv,
                            clv,
                            competition_id,
                        ).unwrap());
                    }
                    out.push(c);
                },
                _ => {},
            }
        }
        proof {
            rsv.lemma_filter_map_take_succ(f, i as int);
            assert(out.deep_view() =~= rsv.take(i + 1).filter_map(f));
        }
        i = i + 1;
    }
    proof {
        assert(rsv.take(rsv.len() as int) =~= rsv);
    }
    out
}

/// Whether a competition entry arises from some row of the resolved
/// competition.
pub open spec fn cic_from_competition(
    rows: Seq<TPatineurCompeView>,
    comps: Seq<CompetitorView>,
    clubs: Seq<TClubsView>,
    competition_id: i32,
    c: CompetitorInCompetitionView,
) -> bool {
    exists|j: int|
        0 <= j < rows.len() && rows[j].no_competition == Some(competition_id) && #[trigger] cic_of_row(
            rows[j],
            comps,
            clubs,
            competition_id,
        ) == Some(c)
}

/// Every competition entry in the joined collection comes from a source row
/// of the resolved competition: a row whose competition id differs (or is
/// absent) contributes nothing, so no entry of another competition can reach
/// an output, however a lane may refer to it.
pub proof fn lemma_cics_from_current_competition(
    rows: Seq<TPatineurCompeView>,
    comps: Seq<CompetitorView>,
    clubs: Seq<TClubsView>,
    competition_id: i32,
)
    ensures
        forall|k: int|
            0 <= k < cics_of(rows, comps, clubs, competition_id).len()
                ==> cic_from_competition(
                rows,
                comps,
                clubs,
                competition_id,
                #[trigger] cics_of(rows, comps, clubs, competition_id)[k],
            ),
    decreases rows.len(),
{
    let f = |r: TPatineurCompeView| cic_of_row(r, comps, clubs, competition_id);
    if rows.len() == 0 {
        assert(cics_of(rows, comps, clubs, competition_id).len() == 0);
    } else {
        let dl = rows.drop_last();
        lemma_cics_from_current_competition(dl, comps, clubs, competition_id);
        assert(forall|j: int| 0 <= j < dl.len() ==> rows[j] == dl[j]);
        let out = cics_of(rows, comps, clubs, competition_id);
        let prev = cics_of(dl, comps, clubs, competition_id);
        assert(out == match f(rows.last()) {
            Some(c) => prev.push(c),
            None => prev,
        });
        assert forall|k: int| 0 <= k < out.len() implies cic_from_competition(
            rows,
            comps,
            clubs,
            competition_id,
            out[k],
        ) by {
            if k < prev.len() {
                assert(cic_from_competition(dl, comps, clubs, competition_id, prev[k]));
                let j = choose|j: int|
                    0 <= j < dl.len() && dl[j].no_competition == Some(competition_id)
                        && #[trigger] cic_of_row(dl[j], comps, clubs, competition_id) == Some(
                        prev[k],
                    );
                assert(out[k] == prev[k]);
                assert(cic_of_row(rows[j], comps, clubs, competition_id) == Some(out[k]));
            } else {
                let j = rows.len() - 1;
                assert(out[k] == f(rows.last()).unwrap());
                assert(cic_of_row(rows[j], comps, clubs, competition_id) == Some(out[k]));
            }
        }
    }
}

/// The affiliation fallback: a club's abbreviation when it has one, else its
/// full name when it has one, else nothing; an unresolved club also yields
/// nothing.
pub proof fn lemma_affiliation_fallback(club: TClubsView)
    ensures
        club.abreviation is Some ==> affiliation_of_club(Some(club)) == club.abreviation,
        club.abreviation is None ==> affiliation_of_club(Some(club)) == club.nom_du_club,
        affiliation_of_club(None) is None,
{
}

/// The program item built from one programmed-courses row: dropped when the
/// row belongs to another competition or lacks its key or distance id;
/// length and track are copied from the linked distance, track defaulting to
/// 100 when that link does not resolve.
pub open spec fn program_of_row(
    r: TProgCoursesView,
    dists: Seq<DistanceView>,
    competition_id: i32,
) -> Option<ProgramItemView> {
    if r.no_competition != Some(competition_id) {
        None
    } else {
        match (r.no_distance, r.cle_distances_compe) {
            (Some(did), Some(id)) => {
                let dist = find_distance(dists, did);
                Some(
                    ProgramItemView {
                        id,
                        competition_id,
                        distance_id: did,
                        distance: r.distance,
                        group: r.groupe,
                        length: match dist {
                            Some(d) => d.length,
                            None => None,
                        },
                        track: match dist {
                            Some(d) => d.track,
                            None => 100,
                        },
                    },
                )
            },
            _ => None,
        }
    }
}

/// All program items of the resolved competition, in row order.
pub open spec fn programs_of(
    rows: Seq<TProgCoursesView>,
    dists: Seq<DistanceView>,
    competition_id: i32,
) -> Seq<ProgramItemView> {
    rows.filter_map(|r: TProgCoursesView| program_of_row(r, dists, competition_id))
}

/// Builds the program-item collection: rows of other competitions are
/// excluded and distance metadata is joined in.
#[verifier::loop_isolation(false)]
pub fn get_programs(
    distances: &Vec<Distance>,
    rows: &Vec<TProgCourses>,
    competition_id: i32,
) -> (result: Vec<ProgramItem>)
    ensures
        result.deep_view() == programs_of(
            rows.deep_view(),
            distances.deep_view(),
            competition_id,
        ),
{
    let ghost rsv = rows.deep_view();
    let ghost dv = distances.deep_view();
    let ghost f = |r: TProgCoursesView| program_of_row(r, dv, competition_id);
    let mut out: Vec<ProgramItem> = Vec::new();
    proof {
        assert(out.deep_view() =~= rsv.take(0).filter_map(f));
    }
    let mut i: usize = 0;
    while i < rows.len()
        invariant
            i <= rows.len(),
            out.deep_view() == rsv.take(i as int).filter_map(f),
        decreases rows.len() - i,
    {
        let row = &rows[i];
        let in_competition = match row.no_competition {
            Some(c) => c == competition_id,
            None => false,
        };
        if in_competition {
            match (row.no_distance, row.cle_distances_compe) {
                (Some(did), Some(id)) => {
                    let dist_idx = find_distance_idx(distances, did);
                    let (length, track) = match dist_idx {
                        Some(di) => (distances[di].length, distances[di].track),
                        None => (None, 100),
                    };
                    let p = ProgramItem {
                        id,
                        competition_id,
                        distance_id: did,
                        distance: clone_opt_string(&row.distance),
                        group: clone_opt_string(&row.groupe),
                        length,
                        track,
                    };
                    proof {
                        assert(p.deep_view() == program_of_row(
                            rsv[i as int],
                            dv,
                            competition_id,
                        ).unwrap());
                    }
                    out.push(p);
                },
                _ => {},
            }
        }
        proof {
            rsv.lemma_filter_map_take_succ(f, i as int);
            assert(out.deep_view() =~= rsv.take(i + 1).filter_map(f));
        }
        i = i + 1;
    }
    proof {
        assert(rsv.take(rsv.len() as int) =~= rsv);
    }
    out
}

/// The race built from one waves row: dropped when the row lacks its key or
/// program-item key, when the program item is unknown, or when the program
/// item belongs to another competition; an absent wave label becomes the
/// empty name.
pub open spec fn race_of_row(
    r: TVaguesView,
    progs: Seq<ProgramItemView>,
    competition_id: i32,
) -> Option<RaceView> {
    match r.cle_distances_compe {
        Some(cd) => match find_program(progs, cd) {
            Some(p) => if p.competition_id != competition_id {
                None
            } else {
                match r.cle_tvagues {
                    Some(id) => Some(
                        RaceView {
                            id,
                            name: match r.no_vague {
                                Some(n) => n,
                                None => Seq::empty(),
                            },
                            distance: p.length,
                            track: p.track,
                            program_item_id: p.id,
                            sequence: r.seq,
                            round: r.qual_ou_fin,
                        },
                    ),
                    None => None,
                }
            },
            None => None,
        },
        None => None,
    }
}

/// All races of the resolved competition, in row order.
pub open spec fn races_of(
    rows: Seq<TVaguesView>,
    progs: Seq<ProgramItemView>,
    competition_id: i32,
) -> Seq<RaceView> {
    rows.filter_map(|r: TVaguesView| race_of_row(r, progs, competition_id))
}

/// Builds the race collection: a wave becomes a race only when its program
/// item exists and belongs to the resolved competition.
#[verifier::loop_isolation(false)]
pub fn get_races(
    programs: &Vec<ProgramItem>,
    rows: &Vec<TVagues>,
    competition_id: i32,
) -> (result: Vec<Race>)
    ensures
        result.deep_view() == races_of(rows.deep_view(), programs.deep_view(), competition_id),
{
    let ghost rsv = rows.deep_view();
    let ghost pv = programs.deep_view();
    let ghost f = |r: TVaguesView| race_of_row(r, pv, competition_id);
    let mut out: Vec<Race> = Vec::new();
    proof {
        assert(out.deep_view() =~= rsv.take(0).filter_map(f));
    }
    let mut i: usize = 0;
    while i < rows.len()
        invariant
            i <= rows.len(),
            out.deep_view() == rsv.take(i as int).filter_map(f),
        decreases rows.len() - i,
    {
        let row = &rows[i];
        match row.cle_distances_compe {
            Some(cd) => match find_program_idx(programs, cd) {
                Some(pi) => {
                    let prog = &programs[pi];
                    if prog.competition_id == competition_id {
                        match row.cle_tvagues {
                            Some(id) => {
                                let name = match &row.no_vague {
                                    Some(n) => n.clone(),
                                    None => String::new(),
                                };
                                let race = Race {
                                    id,
                                    name,
                                    distance: prog.length,
                                    track: prog.track,
                                    program_item_id: prog.id,
                                    sequence: row.seq,
                                    round: clone_opt_string(&row.qual_ou_fin),
                                };
                                proof {
                                    assert(race.deep_view() == race_of_row(
                                        rsv[i as int],
                                        pv,
                                        competition_id,
                                    ).unwrap());
                                }
                                out.push(race);
                            },
                            None => {},
                        }
                    }
                },
                None => {},
            },
            None => {},
        }
        proof {
            rsv.lemma_filter_map_take_succ(f, i as int);
            assert(out.deep_view() =~= rsv.take(i + 1).filter_map(f));
        }
        i = i + 1;
    }
    proof {
        assert(rsv.take(rsv.len() as int) =~= rsv);
    }
    out
}

/// The lane built from one skater-in-wave row: dropped when the row lacks
/// its key, wave key or skater-entry key, or when its wave is not a race of
/// the resolved competition.
pub open spec fn lane_of_row(
    r: TPatVaguesView,
    races: Seq<RaceView>,
    cics: Seq<CompetitorInCompetitionView>,
) -> Option<LaneView> {
    match r.cle_tvagues {
        Some(race_id) => if !has_race_id(races, race_id) {
            None
        } else {
            match (r.no_pat_compe, r.cle_tpat_vagues) {
                (Some(np), Some(id)) => Some(
                    LaneView {
                        id,
                        race_id,
                        skater_in_competition_id: np,
                        skater_upid: match find_cic(cics, np) {
                            Some(c) => c.competitor_id,
                            None => None,
                        },
                        time: r.temps,
                        position: r.rang,
                        start_position: r.no_casque,
                    },
                ),
                _ => None,
            }
        },
        None => None,
    }
}

/// All lanes of the resolved competition's races, in row order.
pub open spec fn lanes_of(
    rows: Seq<TPatVaguesView>,
    races: Seq<RaceView>,
    cics: Seq<CompetitorInCompetitionView>,
) -> Seq<LaneView> {
    rows.filter_map(|r: TPatVaguesView| lane_of_row(r, races, cics))
}

/// Builds the lane collection: an assignment becomes a lane only when its
/// wave is one of the given races, so every lane points into the resolved
/// competition's race set.
#[verifier::loop_isolation(false)]
pub fn get_lanes(
    races: &Vec<Race>,
    competitors_in_comp: &Vec<CompetitorInCompetition>,
    rows: &Vec<TPatVagues>,
) -> (result: Vec<Lane>)
    ensures
        result.deep_view() == lanes_of(
            rows.deep_view(),
            races.deep_view(),
            competitors_in_comp.deep_view(),
        ),
        forall|k: int|
            0 <= k < result.deep_view().len() ==> has_race_id(
                races.deep_view(),
                result.deep_view()[k].race_id,
            ),
{
    let ghost rsv = rows.deep_view();
    let ghost rv = races.deep_view();
    let ghost cicv = competitors_in_comp.deep_view();
    let ghost f = |r: TPatVaguesView| lane_of_row(r, rv, cicv);
    let mut out: Vec<Lane> = Vec::new();
    proof {
        assert(out.deep_view() =~= rsv.take(0).filter_map(f));
    }
    let mut i: usize = 0;
    while i < rows.len()
        invariant
            i <= rows.len(),
            out.deep_view() == rsv.take(i as int).filter_map(f),
            forall|k: int|
                0 <= k < out.deep_view().len() ==> has_race_id(rv, out.deep_view()[k].race_id),
        decreases rows.len() - i,
    {
        let row = &rows[i];
        match row.cle_tvagues {
            Some(race_id) => {
                if contains_race_id(races, race_id) {
                    match (row.no_pat_compe, row.cle_tpat_vagues) {
                        (Some(np), Some(id)) => {
                            let skater_upid = match find_cic_idx(competitors_in_comp, np) {
                                Some(ci) => clone_opt_string(
                                    &competitors_in_comp[ci].competitor_id,
                                ),
                                None => None,
                            };
                            let lane = Lane {
                                id,
                                race_id,
                                skater_in_competition_id: np,
                                skater_upid,
                                time: clone_opt_string(&row.temps),
                                position: row.rang,
                                start_position: row.no_casque,
                            };
                            proof {
                                assert(lane.deep_view() == lane_of_row(
                                    rsv[i as int],
                                    rv,
                                    cicv,
                                ).unwrap());
                            }
                            out.push(lane);
                        },
                        _ => {},
                    }
                }
            },
            None => {},
        }
        proof {
            rsv.lemma_filter_map_take_succ(f, i as int);
            assert(out.deep_view() =~= rsv.take(i + 1).filter_map(f));
            assert(forall|k: int|
                0 <= k < out.deep_view().len() ==> has_race_id(rv, out.deep_view()[k].race_id));
        }
        i = i + 1;
    }
    proof {
        assert(rsv.take(rsv.len() as int) =~= rsv);
    }
    out
}

} // verus!
