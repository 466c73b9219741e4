use gcpv_lynx_export::join::{
    get_competitors, get_competitors_in_competition, get_distances, get_lanes, get_programs,
    get_races,
};
use gcpv_lynx_export::model::Race;
use gcpv_lynx_export::tables::{
    TClubs, TDistancesStandards, TPatVagues, TPatineurCompe, TPatineurs, TProgCourses, TVagues,
};

fn skater(no_patineur: Option<i32>, code: Option<&str>) -> TPatineurs {
    TPatineurs {
        no_patineur,
        prenom: Some("Ana".to_string()),
        nom: Some("Lee".to_string()),
        date_naissance: None,
        sexe: None,
        division: None,
        no_categorie: None,
        no_club: Some(5),
        code_pat: code.map(|s| s.to_string()),
    }
}

fn club(no_club: Option<i32>, name: Option<&str>, abbrev: Option<&str>) -> TClubs {
    TClubs {
        no_club,
        nom_du_club: name.map(|s| s.to_string()),
        commentaire: None,
        no_region: None,
        abreviation: abbrev.map(|s| s.to_string()),
    }
}

fn entry(id: Option<i32>, competition: Option<i32>, skater: Option<i32>) -> TPatineurCompe {
    TPatineurCompe {
        no_pat_compe: id,
        no_competition: competition,
        no_patineur: skater,
        no_categorie: None,
        no_club: Some(5),
        rang: None,
        retirer: Some(2),
        groupe: None,
        no_casque: Some(7),
    }
}

fn race(id: i32, name: &str) -> Race {
    Race {
        id,
        name: name.to_string(),
        distance: None,
        track: 100,
        program_item_id: 0,
        sequence: None,
        round: None,
    }
}

fn lane_row(wave: Option<i32>, entry: Option<i32>, key: Option<i32>) -> TPatVagues {
    TPatVagues {
        cle_tvagues: wave,
        no_pat_compe: entry,
        temps: None,
        rang: None,
        no_casque: Some(1),
        cle_tpat_vagues: key,
    }
}

#[test]
fn skater_without_number_is_dropped() {
    let rows = vec![skater(Some(10), Some("U1")), skater(None, Some("U2"))];
    let competitors = get_competitors(&rows);
    assert_eq!(competitors.len(), 1);
    assert_eq!(competitors[0].no_patineur, 10);
    assert_eq!(competitors[0].id, Some("U1".to_string()));
    assert_eq!(competitors[0].first_name, Some("Ana".to_string()));
}

#[test]
fn entry_of_other_competition_is_excluded() {
    let competitors = get_competitors(&vec![skater(Some(10), Some("U1"))]);
    let clubs = vec![club(Some(5), Some("Speed Club"), Some("SC"))];
    let rows = vec![
        entry(Some(20), Some(1), Some(10)),
        entry(Some(21), Some(2), Some(10)),
        entry(Some(22), None, Some(10)),
    ];
    let cics = get_competitors_in_competition(&competitors, &clubs, &rows, 1);
    assert_eq!(cics.len(), 1);
    assert_eq!(cics[0].id, 20);
    assert_eq!(cics[0].affiliation, Some("SC".to_string()));
    assert_eq!(cics[0].removed, Some(true));
    assert_eq!(cics[0].helmet_id, Some(7));
    assert_eq!(cics[0].competitor_id, Some("U1".to_string()));
}

#[test]
fn affiliation_falls_back_to_full_club_name() {
    let competitors = get_competitors(&vec![skater(Some(10), Some("U1"))]);
    let clubs = vec![club(Some(5), Some("Speed Club"), None)];
    let rows = vec![entry(Some(20), Some(1), Some(10))];
    let cics = get_competitors_in_competition(&competitors, &clubs, &rows, 1);
    assert_eq!(cics[0].affiliation, Some("Speed Club".to_string()));
    assert_eq!(cics[0].club_name, Some("Speed Club".to_string()));
}

#[test]
fn affiliation_absent_when_club_has_neither_name() {
    let competitors = get_competitors(&vec![skater(Some(10), Some("U1"))]);
    let clubs = vec![club(Some(5), None, None)];
    let rows = vec![entry(Some(20), Some(1), Some(10))];
    let cics = get_competitors_in_competition(&competitors, &clubs, &rows, 1);
    assert_eq!(cics[0].affiliation, None);
}

#[test]
fn distance_track_comes_from_the_111_marker() {
    let rows = vec![
        TDistancesStandards {
            no_distance: Some(3),
            distance: Some("500m".to_string()),
            longueur_epreuve: Some(500),
        },
        TDistancesStandards {
            no_distance: Some(4),
            distance: Some("3000m (111)".to_string()),
            longueur_epreuve: Some(3000),
        },
        TDistancesStandards { no_distance: None, distance: None, longueur_epreuve: None },
    ];
    let distances = get_distances(&rows);
    assert_eq!(distances.len(), 2);
    assert_eq!(distances[0].track, 100);
    assert_eq!(distances[1].track, 111);
}

#[test]
fn program_defaults_track_when_distance_is_unknown() {
    let distances = get_distances(&vec![]);
    let rows = vec![TProgCourses {
        cle_distances_compe: Some(30),
        no_competition: Some(1),
        no_distance: Some(3),
        distance: None,
        no_vague: None,
        groupe: None,
    }];
    let programs = get_programs(&distances, &rows, 1);
    assert_eq!(programs.len(), 1);
    assert_eq!(programs[0].track, 100);
    assert_eq!(programs[0].length, None);
}

#[test]
fn wave_without_known_program_is_not_a_race() {
    let rows = vec![TVagues {
        cle_tvagues: Some(40),
        no_vague: Some("1A".to_string()),
        cle_distances_compe: Some(99),
        qual_ou_fin: None,
        seq: None,
    }];
    let races = get_races(&vec![], &rows, 1);
    assert_eq!(races.len(), 0);
}

#[test]
fn lane_with_unknown_race_is_excluded() {
    let races = vec![race(40, "1A")];
    let cics = vec![];
    let rows = vec![lane_row(Some(40), Some(20), Some(50)), lane_row(
        Some(99),
        Some(20),
        Some(51),
    )];
    let lanes = get_lanes(&races, &cics, &rows);
    assert_eq!(lanes.len(), 1);
    assert_eq!(lanes[0].id, 50);
    assert_eq!(lanes[0].race_id, 40);
    assert_eq!(lanes[0].start_position, Some(1));
}

#[test]
fn lane_missing_keys_is_excluded() {
    let races = vec![race(40, "1A")];
    let lanes = get_lanes(&races, &vec![], &vec![
        lane_row(None, Some(20), Some(50)),
        lane_row(Some(40), None, Some(51)),
        lane_row(Some(40), Some(20), None),
    ]);
    assert_eq!(lanes.len(), 0);
}
