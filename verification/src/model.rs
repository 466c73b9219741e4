//! The joined domain model.
//!
//! Each type is built by one pass over its source table (see `join`), with
//! rows that lack a required key silently dropped and derived fields computed
//! at join time. As with the raw rows, every type has a ghost counterpart
//! used by the contracts.

use vstd::prelude::*;

verus! {

/// A registered skater, keyed by `no_patineur`.
#[derive(Debug, Clone)]
pub struct Competitor {
    pub id: Option<String>,
    pub no_patineur: i32,
    pub first_name: Option<String>,
    pub last_name: Option<String>,
    pub birth_date: Option<String>,
    pub sex: Option<String>,
    pub division: Option<String>,
    pub category_id: Option<i32>,
    pub club_id: Option<i32>,
}

pub struct CompetitorView {
    pub id: Option<Seq<char>>,
    pub no_patineur: i32,
    pub first_name: Option<Seq<char>>,
    pub last_name: Option<Seq<char>>,
    pub birth_date: Option<Seq<char>>,
    pub sex: Option<Seq<char>>,
    pub division: Option<Seq<char>>,
    pub category_id: Option<i32>,
    pub club_id: Option<i32>,
}

impl DeepView for Competitor {
    type V = CompetitorView;

    open spec fn deep_view(&self) -> CompetitorView {
        CompetitorView {
            id: self.id.deep_view(),
            no_patineur: self.no_patineur,
            first_name: self.first_name.deep_view(),
            last_name: self.last_name.deep_view(),
            birth_date: self.birth_date.deep_view(),
            sex: self.sex.deep_view(),
            division: self.division.deep_view(),
            category_id: self.category_id,
            club_id: self.club_id,
        }
    }
}

/// A skater's entry into the resolved competition, keyed by its registration
/// id. `affiliation` is the club abbreviation, falling back to the full club
/// name; `removed` coerces the source's nonzero flag to a boolean.
#[derive(Debug, Clone)]
pub struct CompetitorInCompetition {
    pub id: i32,
    pub competitor_id: Option<String>,
    pub club_id: Option<i32>,
    pub affiliation: Option<String>,
    pub club_name: Option<String>,
    pub rank: Option<i32>,
    pub removed: Option<bool>,
    pub group: Option<String>,
    pub helmet_id: Option<i32>,
}

pub struct CompetitorInCompetitionView {
    pub id: i32,
    pub competitor_id: Option<Seq<char>>,
    pub club_id: Option<i32>,
    pub affiliation: Option<Seq<char>>,
    pub club_name: Option<Seq<char>>,
    pub rank: Option<i32>,
    pub removed: Option<bool>,
    pub group: Option<Seq<char>>,
    pub helmet_id: Option<i32>,
}

impl DeepView for CompetitorInCompetition {
    type V = CompetitorInCompetitionView;

    open spec fn deep_view(&self) -> CompetitorInCompetitionView {
        CompetitorInCompetitionView {
            id: self.id,
            competitor_id: self.competitor_id.deep_view(),
            club_id: self.club_id,
            affiliation: self.affiliation.deep_view(),
            club_name: self.club_name.deep_view(),
            rank: self.rank,
            removed: self.removed,
            group: self.group.deep_view(),
            helmet_id: self.helmet_id,
        }
    }
}

/// A standard distance, keyed by id. `track` is 111 when the display name
/// carries the `"(111)"` marker, else 100.
#[derive(Debug, Clone)]
pub struct Distance {
    pub id: i32,
    pub name: Option<String>,
    pub length: Option<i32>,
    pub track: i32,
}

pub struct DistanceView {
    pub id: i32,
    pub name: Option<Seq<char>>,
    pub length: Option<i32>,
    pub track: i32,
}

impl DeepView for Distance {
    type V = DistanceView;

    open spec fn deep_view(&self) -> DistanceView {
        DistanceView {
            id: self.id,
            name: self.name.deep_view(),
            length: self.length,
            track: self.track,
        }
    }
}

/// A scheduled distance/group entry within the resolved competition, keyed by
/// id. `length` and `track` are copied from the linked `Distance`, `track`
/// defaulting to 100 when that link does not resolve.
#[derive(Debug, Clone)]
pub struct ProgramItem {
    pub id: i32,
    pub competition_id: i32,
    pub distance_id: i32,
    pub distance: Option<String>,
    pub group: Option<String>,
    pub length: Option<i32>,
    pub track: i32,
}

pub struct ProgramItemView {
    pub id: i32,
    pub competition_id: i32,
    pub distance_id: i32,
    pub distance: Option<Seq<char>>,
    pub group: Option<Seq<char>>,
    pub length: Option<i32>,
    pub track: i32,
}

impl DeepView for ProgramItem {
    type V = ProgramItemView;

    open spec fn deep_view(&self) -> ProgramItemView {
        ProgramItemView {
            id: self.id,
            competition_id: self.competition_id,
            distance_id: self.distance_id,
            distance: self.distance.deep_view(),
            group: self.group.deep_view(),
            length: self.length,
            track: self.track,
        }
    }
}

/// One scheduled wave, keyed by id and named by its raw wave label (such as
/// `"101A"`). Only waves whose program item exists in the resolved
/// competition become races.
#[derive(Debug, Clone)]
pub struct Race {
    pub id: i32,
    pub name: String,
    pub distance: Option<i32>,
    pub track: i32,
    pub program_item_id: i32,
    pub sequence: Option<i32>,
    pub round: Option<String>,
}

pub struct RaceView {
    pub id: i32,
    pub name: Seq<char>,
    pub distance: Option<i32>,
    pub track: i32,
    pub program_item_id: i32,
    pub sequence: Option<i32>,
    pub round: Option<Seq<char>>,
}

impl DeepView for Race {
    type V = RaceView;

    open spec fn deep_view(&self) -> RaceView {
        RaceView {
            id: self.id,
            name: self.name.deep_view(),
            distance: self.distance,
            track: self.track,
            program_item_id: self.program_item_id,
            sequence: self.sequence,
            round: self.round.deep_view(),
        }
    }
}

/// One competitor's assignment and recorded result within a race. Only
/// assignments whose race is part of the resolved competition become lanes.
#[derive(Debug, Clone)]
pub struct Lane {
    pub id: i32,
    pub race_id: i32,
    pub skater_in_competition_id: i32,
    pub skater_upid: Option<String>,
    pub time: Option<String>,
    pub position: Option<i32>,
    pub start_position: Option<i32>,
}

pub struct LaneView {
    pub id: i32,
    pub race_id: i32,
    pub skater_in_competition_id: i32,
    pub skater_upid: Option<Seq<char>>,
    pub time: Option<Seq<char>>,
    pub position: Option<i32>,
    pub start_position: Option<i32>,
}

impl DeepView for Lane {
    type V = LaneView;

    open spec fn deep_view(&self) -> LaneView {
        LaneView {
            id: self.id,
            race_id: self.race_id,
            skater_in_competition_id: self.skater_in_competition_id,
            skater_upid: self.skater_upid.deep_view(),
            time: self.time.deep_view(),
            position: self.position,
            start_position: self.start_position,
        }
    }
}

/// The fully joined model of one cycle: races already in their final order,
/// together with everything the emitters need to render them.
#[derive(Debug, Clone)]
pub struct RaceData {
    pub races: Vec<Race>,
    pub programs: Vec<ProgramItem>,
    pub lanes: Vec<Lane>,
    pub competitors: Vec<Competitor>,
    pub competitors_in_comp: Vec<CompetitorInCompetition>,
}

pub struct RaceDataView {
    pub races: Seq<RaceView>,
    pub programs: Seq<ProgramItemView>,
    pub lanes: Seq<LaneView>,
    pub competitors: Seq<CompetitorView>,
    pub competitors_in_comp: Seq<CompetitorInCompetitionView>,
}

impl DeepView for RaceData {
    type V = RaceDataView;

    open spec fn deep_view(&self) -> RaceDataView {
        RaceDataView {
            races: self.races.deep_view(),
            programs: self.programs.deep_view(),
            lanes: self.lanes.deep_view(),
            competitors: self.competitors.deep_view(),
            competitors_in_comp: self.competitors_in_comp.deep_view(),
        }
    }
}

} // verus!
