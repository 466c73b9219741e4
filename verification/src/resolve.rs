//! The competition resolver: the single active competition id, or the exact
//! reason there is none.

use vstd::prelude::*;
use crate::tables::{TCompetition, TCompetitionView};

verus! {

/// Why no competition id could be resolved.
#[derive(Debug, Clone, Copy, PartialEq, Eq, Structural)]
pub enum CompetitionError {
    /// The competition table holds no row.
    NoCompetition,
    /// The competition table holds more than one row.
    AmbiguousCompetition,
    /// The single competition row has no competition id.
    MissingCompetitionId,
}

/// The competition id the competition table yields: the id of its single
/// row, or the error naming what is wrong with the table.
pub open spec fn competition_id_spec(rows: Seq<TCompetitionView>) -> Result<i32, CompetitionError> {
    if rows.len() == 0 {
        Err(CompetitionError::NoCompetition)
    } else if rows.len() > 1 {
        Err(CompetitionError::AmbiguousCompetition)
    } else {
        match rows[0].no_competition {
            Some(id) => Ok(id),
            None => Err(CompetitionError::MissingCompetitionId),
        }
    }
}

/// The competition id a cycle resolves to: the override verbatim when given,
/// else what the competition table yields.
pub open spec fn resolve_spec(rows: Seq<TCompetitionView>, override_id: Option<i32>) -> Result<
    i32,
    CompetitionError,
> {
    match override_id {
        Some(id) => Ok(id),
        None => competition_id_spec(rows),
    }
}

/// Reads the single active competition id from the competition table:
/// exactly one row must exist and carry an id.
pub fn get_competition_id(rows: &Vec<TCompetition>) -> (result: Result<i32, CompetitionError>)
    ensures
        result == competition_id_spec(rows.deep_view()),
        rows@.len() == 0 ==> result == Err::<i32, CompetitionError>(
            CompetitionError::NoCompetition,
        ),
        rows@.len() > 1 ==> result == Err::<i32, CompetitionError>(
            CompetitionError::AmbiguousCompetition,
        ),
        rows@.len() == 1 ==> result == (match rows.deep_view()[0].no_competition {
            Some(id) => Ok::<i32, CompetitionError>(id),
            None => Err::<i32, CompetitionError>(CompetitionError::MissingCompetitionId),
        }),
{
    if rows.len() == 0 {
        return Err(CompetitionError::NoCompetition);
    }
    if rows.len() > 1 {
        return Err(CompetitionError::AmbiguousCompetition);
    }
    match rows[0].no_competition {
        Some(id) => Ok(id),
        None => Err(CompetitionError::MissingCompetitionId),
    }
}

/// Resolves the competition id for a cycle: an explicit override is used
/// verbatim, without validation against the source; otherwise the competition
/// table must hold exactly one row with an id.
pub fn resolve_competition_id(
    rows: &Vec<TCompetition>,
    override_id: Option<i32>,
) -> (result: Result<i32, CompetitionError>)
    ensures
        result == resolve_spec(rows.deep_view(), override_id),
        override_id is Some ==> result == Ok::<i32, CompetitionError>(override_id.unwrap()),
        override_id is None ==> {
            &&& rows@.len() == 0 ==> result == Err::<i32, CompetitionError>(
                CompetitionError::NoCompetition,
            )
            &&& rows@.len() > 1 ==> result == Err::<i32, CompetitionError>(
                CompetitionError::AmbiguousCompetition,
            )
            &&& rows@.len() == 1 ==> result == (match rows.deep_view()[0].no_competition {
                Some(id) => Ok::<i32, CompetitionError>(id),
                None => Err::<i32, CompetitionError>(CompetitionError::MissingCompetitionId),
            })
        },
{
    match override_id {
        Some(id) => Ok(id),
        None => get_competition_id(rows),
    }
}

} // verus!
