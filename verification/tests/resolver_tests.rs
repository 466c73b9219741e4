use gcpv_lynx_export::resolve::{get_competition_id, resolve_competition_id, CompetitionError};
use gcpv_lynx_export::tables::TCompetition;

fn row(no_competition: Option<i32>) -> TCompetition {
    TCompetition { no_competition, lieu: None, date: None, no_club: None }
}

#[test]
fn no_rows_is_no_competition() {
    let rows: Vec<TCompetition> = vec![];
    assert_eq!(get_competition_id(&rows), Err(CompetitionError::NoCompetition));
}

#[test]
fn two_rows_are_ambiguous() {
    let rows = vec![row(Some(1)), row(Some(2))];
    assert_eq!(get_competition_id(&rows), Err(CompetitionError::AmbiguousCompetition));
}

#[test]
fn one_row_without_id_is_missing_id() {
    let rows = vec![row(None)];
    assert_eq!(get_competition_id(&rows), Err(CompetitionError::MissingCompetitionId));
}

#[test]
fn one_row_with_id_resolves() {
    let rows = vec![row(Some(42))];
    assert_eq!(get_competition_id(&rows), Ok(42));
}

#[test]
fn override_is_used_verbatim() {
    let rows = vec![row(Some(1)), row(Some(2))];
    assert_eq!(resolve_competition_id(&rows, Some(9)), Ok(9));
    let empty: Vec<TCompetition> = vec![];
    assert_eq!(resolve_competition_id(&empty, Some(-3)), Ok(-3));
}

#[test]
fn without_override_the_table_decides() {
    let rows = vec![row(Some(5))];
    assert_eq!(resolve_competition_id(&rows, None), Ok(5));
}
