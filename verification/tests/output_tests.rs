use gcpv_lynx_export::emit::{generate_evt_text, generate_race_json, render_outputs, trim_str};
use gcpv_lynx_export::pipeline::build_race_data;
use gcpv_lynx_export::resolve::CompetitionError;
use gcpv_lynx_export::tables::{
    TClubs, TCompetition, TDistancesStandards, TPatVagues, TPatineurCompe, TPatineurs,
    TProgCourses, TVagues,
};

const URL_PREFIX: &str = "logos/provinces/";
const URL_SUFFIX: &str = ".png";

struct Tables {
    competitions: Vec<TCompetition>,
    skaters: Vec<TPatineurs>,
    clubs: Vec<TClubs>,
    entries: Vec<TPatineurCompe>,
    distances: Vec<TDistancesStandards>,
    programs: Vec<TProgCourses>,
    waves: Vec<TVagues>,
    assignments: Vec<TPatVagues>,
}

/// One competition, one 500 m distance, one program item, two races "1A" and
/// "1B", and two lanes in "1A" with start positions 2 and 1.
fn scenario() -> Tables {
    Tables {
        competitions: vec![TCompetition {
            no_competition: Some(1),
            lieu: None,
            date: None,
            no_club: None,
        }],
        skaters: vec![TPatineurs {
            no_patineur: Some(10),
            prenom: Some("Ana".to_string()),
            nom: Some("Lee".to_string()),
            date_naissance: None,
            sexe: None,
            division: None,
            no_categorie: None,
            no_club: Some(5),
            code_pat: Some("U100".to_string()),
        }],
        clubs: vec![TClubs {
            no_club: Some(5),
            nom_du_club: Some("Speed Club".to_string()),
            commentaire: None,
            no_region: None,
            abreviation: Some("SC".to_string()),
        }],
        entries: vec![TPatineurCompe {
            no_pat_compe: Some(20),
            no_competition: Some(1),
            no_patineur: Some(10),
            no_categorie: None,
            no_club: Some(5),
            rang: None,
            retirer: None,
            groupe: None,
            no_casque: Some(7),
        }],
        distances: vec![TDistancesStandards {
            no_distance: Some(3),
            distance: Some("500m".to_string()),
            longueur_epreuve: Some(500),
        }],
        programs: vec![TProgCourses {
            cle_distances_compe: Some(30),
            no_competition: Some(1),
            no_distance: Some(3),
            distance: Some("500m".to_string()),
            no_vague: None,
            groupe: None,
        }],
        waves: vec![
            TVagues {
                cle_tvagues: Some(40),
                no_vague: Some("1A".to_string()),
                cle_distances_compe: Some(30),
                qual_ou_fin: None,
                seq: None,
            },
            TVagues {
                cle_tvagues: Some(41),
                no_vague: Some("1B".to_string()),
                cle_distances_compe: Some(30),
                qual_ou_fin: None,
                seq: None,
            },
        ],
        assignments: vec![
            TPatVagues {
                cle_tvagues: Some(40),
                no_pat_compe: Some(20),
                temps: None,
                rang: None,
                no_casque: Some(2),
                cle_tpat_vagues: Some(50),
            },
            TPatVagues {
                cle_tvagues: Some(40),
                no_pat_compe: Some(20),
                temps: None,
                rang: None,
                no_casque: Some(1),
                cle_tpat_vagues: Some(51),
            },
        ],
    }
}

fn build(t: &Tables) -> gcpv_lynx_export::model::RaceData {
    build_race_data(
        &t.competitions,
        &t.skaters,
        &t.clubs,
        &t.entries,
        &t.distances,
        &t.programs,
        &t.waves,
        &t.assignments,
        None,
    )
    .unwrap()
}

#[test]
fn end_to_end_text_lists_lanes_by_start_position() {
    let data = build(&scenario());
    let text = generate_evt_text(
        &data.races,
        &data.programs,
        &data.lanes,
        &data.competitors,
        &data.competitors_in_comp,
    );
    let expected = "1A,1,01,1A  500m 100m\n\
                    ,7,1,Lee,Ana,SC,,U100\n\
                    ,7,2,Lee,Ana,SC,,U100\n\
                    1B,1,01,1B  500m 100m\n";
    assert_eq!(text, expected);
}

#[test]
fn end_to_end_json_matches_text_order() {
    let data = build(&scenario());
    let json = generate_race_json(
        &data.races,
        &data.programs,
        &data.lanes,
        &data.competitors,
        &data.competitors_in_comp,
        URL_PREFIX,
        URL_SUFFIX,
    );
    assert_eq!(json.len(), 2);
    assert_eq!(json[0].name, "1A");
    assert_eq!(json[1].name, "1B");
    assert_eq!(json[0].lanes.len(), 2);
    assert_eq!(json[0].lanes[0].start_position, Some(1));
    assert_eq!(json[0].lanes[1].start_position, Some(2));
    assert_eq!(json[1].lanes.len(), 0);
    assert_eq!(json[0].title, "1A - 500m   (100m)");
    assert_eq!(json[0].event, "1");
    assert_eq!(json[0].heat, 1);
    assert_eq!(json[1].heat, 2);
    assert_eq!(json[0].length, Some(500));
    assert_eq!(json[0].track, 100);
    assert_eq!(json[0].lanes[0].name, "Ana Lee");
    assert_eq!(json[0].lanes[0].affiliation, Some("SC".to_string()));
    assert_eq!(json[0].lanes[0].affiliation_url, "logos/provinces/SC.png");
    assert_eq!(json[0].lanes[0].helmet_id, Some(7));
    assert_eq!(json[0].lanes[0].competitor_id, Some("U100".to_string()));
}

#[test]
fn json_lane_order_equals_text_lane_line_order() {
    let data = build(&scenario());
    let (text, json) = render_outputs(&data, URL_PREFIX, URL_SUFFIX);
    // Collect the lane lines of each block in text order.
    let mut text_lanes_per_race: Vec<Vec<String>> = Vec::new();
    for line in text.lines() {
        if line.starts_with(',') {
            text_lanes_per_race.last_mut().unwrap().push(line.to_string());
        } else {
            text_lanes_per_race.push(Vec::new());
        }
    }
    assert_eq!(text_lanes_per_race.len(), json.len());
    for (jr, lane_lines) in json.iter().zip(text_lanes_per_race.iter()) {
        assert_eq!(jr.lanes.len(), lane_lines.len());
        for (jl, line) in jr.lanes.iter().zip(lane_lines.iter()) {
            let start = jl.start_position.map(|p| p.to_string()).unwrap_or_default();
            let fields: Vec<&str> = line.split(',').collect();
            assert_eq!(fields[2], start);
        }
    }
}

#[test]
fn pipeline_is_idempotent() {
    let t = scenario();
    let data_a = build(&t);
    let data_b = build(&t);
    let (text_a, json_a) = render_outputs(&data_a, URL_PREFIX, URL_SUFFIX);
    let (text_b, json_b) = render_outputs(&data_b, URL_PREFIX, URL_SUFFIX);
    assert_eq!(text_a, text_b);
    assert_eq!(json_a.len(), json_b.len());
    for (a, b) in json_a.iter().zip(json_b.iter()) {
        assert_eq!(a.name, b.name);
        assert_eq!(a.title, b.title);
        assert_eq!(a.event, b.event);
        assert_eq!(a.heat, b.heat);
        assert_eq!(a.lanes.len(), b.lanes.len());
        for (la, lb) in a.lanes.iter().zip(b.lanes.iter()) {
            assert_eq!(la.start_position, lb.start_position);
            assert_eq!(la.name, lb.name);
            assert_eq!(la.affiliation_url, lb.affiliation_url);
        }
    }
}

#[test]
fn missing_values_render_as_empty_or_zero_in_text() {
    let mut t = scenario();
    // Entry without helmet, lane without start position, skater without names,
    // club with neither abbreviation nor name.
    t.skaters[0].prenom = None;
    t.skaters[0].nom = None;
    t.clubs[0].abreviation = None;
    t.clubs[0].nom_du_club = None;
    t.entries[0].no_casque = None;
    t.assignments.truncate(1);
    t.assignments[0].no_casque = None;
    let data = build(&t);
    let text = generate_evt_text(
        &data.races,
        &data.programs,
        &data.lanes,
        &data.competitors,
        &data.competitors_in_comp,
    );
    let expected = "1A,1,01,1A  500m 100m\n\
                    ,0,,,,,,U100\n\
                    1B,1,01,1B  500m 100m\n";
    assert_eq!(text, expected);
}

#[test]
fn absent_optional_fields_are_none_in_json() {
    let mut t = scenario();
    t.skaters[0].prenom = None;
    t.skaters[0].nom = None;
    t.clubs[0].abreviation = None;
    t.clubs[0].nom_du_club = None;
    t.entries[0].no_casque = None;
    t.assignments.truncate(1);
    t.assignments[0].no_casque = None;
    let data = build(&t);
    let json = generate_race_json(
        &data.races,
        &data.programs,
        &data.lanes,
        &data.competitors,
        &data.competitors_in_comp,
        URL_PREFIX,
        URL_SUFFIX,
    );
    let lane = &json[0].lanes[0];
    assert_eq!(lane.start_position, None);
    assert_eq!(lane.helmet_id, None);
    assert_eq!(lane.affiliation, None);
    assert_eq!(lane.first_name, None);
    assert_eq!(lane.last_name, None);
    assert_eq!(lane.name, "");
    assert_eq!(lane.affiliation_url, "logos/provinces/.png");
}

#[test]
fn lanes_without_start_position_sort_after_those_with_one() {
    let mut t = scenario();
    t.assignments[0].no_casque = None;
    let data = build(&t);
    let json = generate_race_json(
        &data.races,
        &data.programs,
        &data.lanes,
        &data.competitors,
        &data.competitors_in_comp,
        URL_PREFIX,
        URL_SUFFIX,
    );
    assert_eq!(json[0].lanes[0].start_position, Some(1));
    assert_eq!(json[0].lanes[1].start_position, None);
}

#[test]
fn build_fails_exactly_as_the_resolver_does() {
    let mut t = scenario();
    t.competitions.clear();
    let r = build_race_data(
        &t.competitions,
        &t.skaters,
        &t.clubs,
        &t.entries,
        &t.distances,
        &t.programs,
        &t.waves,
        &t.assignments,
        None,
    );
    assert!(matches!(r, Err(CompetitionError::NoCompetition)));
}

#[test]
fn trim_removes_outer_whitespace_only() {
    assert_eq!(trim_str("  Ana Lee \t"), "Ana Lee");
    assert_eq!(trim_str(" "), "");
    assert_eq!(trim_str(""), "");
    assert_eq!(trim_str("Ana  Lee"), "Ana  Lee");
}

#[test]
fn large_start_positions_still_sort_before_absent() {
    let mut t = scenario();
    t.assignments[0].no_casque = Some(1000);
    t.assignments[1].no_casque = None;
    let data = build(&t);
    let json = generate_race_json(
        &data.races,
        &data.programs,
        &data.lanes,
        &data.competitors,
        &data.competitors_in_comp,
        URL_PREFIX,
        URL_SUFFIX,
    );
    assert_eq!(json[0].lanes[0].start_position, Some(1000));
    assert_eq!(json[0].lanes[1].start_position, None);
}
