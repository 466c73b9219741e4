//! Key-based lookups into the entity collections.
//!
//! Each join builds a key -> entity mapping over a collection before scanning
//! its dependent rows. Rows are mapped in order, so among entries that share
//! a key the one appearing last wins; the lookup functions here return the
//! index of that entry. Each has a ghost counterpart returning the entity's
//! view, which the join contracts are stated over.

use vstd::prelude::*;
use crate::model::{
    Competitor, CompetitorInCompetition, CompetitorInCompetitionView, CompetitorView, Distance,
    DistanceView, ProgramItem, ProgramItemView, Race, RaceView,
};
use crate::tables::{TClubs, TClubsView};

verus! {

/// Clones an optional string; the clone carries the same value.
pub fn clone_opt_string(o: &Option<String>) -> (r: Option<String>)
    ensures
        r == *o,
{
    match o {
        Some(s) => Some(s.clone()),
        None => None,
    }
}

/// The competitor with the given skater number, taking the last matching
/// entry.
pub open spec fn find_competitor(s: Seq<CompetitorView>, key: i32) -> Option<CompetitorView>
    decreases s.len(),
{
    if s.len() == 0 {
        None
    } else if s.last().no_patineur == key {
        Some(s.last())
    } else {
        find_competitor(s.drop_last(), key)
    }
}

pub fn find_competitor_idx(v: &Vec<Competitor>, key: i32) -> (r: Option<usize>)
    ensures
        match r {
            Some(i) => i < v.len() && find_competitor(v.deep_view(), key) == Some(
                v.deep_view()[i as int],
            ),
            None => find_competitor(v.deep_view(), key) is None,
        },
{
    let ghost s = v.deep_view();
    let mut i: usize = v.len();
    proof {
        assert(s.take(i as int) =~= s);
    }
    loop
        invariant
            i <= v.len(),
            s == v.deep_view(),
            v@.len() == s.len(),
            find_competitor(s, key) == find_competitor(s.take(i as int), key),
        decreases i,
    {
        if i == 0 {
            return None;
        }
        i = i - 1;
        if v[i].no_patineur == key {
            proof {
                assert(s.take(i + 1).last() == s[i as int]);
            }
            return Some(i);
        }
        proof {
            assert(s.take(i + 1).drop_last() =~= s.take(i as int));
        }
    }
}

/// The club row with the given club id, taking the last matching row; rows
/// without a club id never match.
pub open spec fn find_club(s: Seq<TClubsView>, key: i32) -> Option<TClubsView>
    decreases s.len(),
{
    if s.len() == 0 {
        None
    } else if s.last().no_club == Some(key) {
        Some(s.last())
    } else {
        find_club(s.drop_last(), key)
    }
}

pub fn find_club_idx(v: &Vec<TClubs>, key: i32) -> (r: Option<usize>)
    ensures
        match r {
            Some(i) => i < v.len() && find_club(v.deep_view(), key) == Some(
                v.deep_view()[i as int],
            ),
            None => find_club(v.deep_view(), key) is None,
        },
{
    let ghost s = v.deep_view();
    let mut i: usize = v.len();
    proof {
        assert(s.take(i as int) =~= s);
    }
    loop
        invariant
            i <= v.len(),
            s == v.deep_view(),
            v@.len() == s.len(),
            find_club(s, key) == find_club(s.take(i as int), key),
        decreases i,
    {
        if i == 0 {
            return None;
        }
        i = i - 1;
        let matched = match v[i].no_club {
            Some(c) => c == key,
            None => false,
        };
        if matched {
            proof {
                assert(s.take(i + 1).last() == s[i as int]);
            }
            return Some(i);
        }
        proof {
            assert(s.take(i + 1).drop_last() =~= s.take(i as int));
        }
    }
}

/// The distance with the given id, taking the last matching entry.
pub open spec fn find_distance(s: Seq<DistanceView>, key: i32) -> Option<DistanceView>
    decreases s.len(),
{
    if s.len() == 0 {
        None
    } else if s.last().id == key {
        Some(s.last())
    } else {
        find_distance(s.drop_last(), key)
    }
}

pub fn find_distance_idx(v: &Vec<Distance>, key: i32) -> (r: Option<usize>)
    ensures
        match r {
            Some(i) => i < v.len() && find_distance(v.deep_view(), key) == Some(
                v.deep_view()[i as int],
            ),
            None => find_distance(v.deep_view(), key) is None,
        },
{
    let ghost s = v.deep_view();
    let mut i: usize = v.len();
    proof {
        assert(s.take(i as int) =~= s);
    }
    loop
        invariant
            i <= v.len(),
            s == v.deep_view(),
            v@.len() == s.len(),
            find_distance(s, key) == find_distance(s.take(i as int), key),
        decreases i,
    {
        if i == 0 {
            return None;
        }
        i = i - 1;
        if v[i].id == key {
            proof {
                assert(s.take(i + 1).last() == s[i as int]);
            }
            return Some(i);
        }
        proof {
            assert(s.take(i + 1).drop_last() =~= s.take(i as int));
        }
    }
}

/// The program item with the given id, taking the last matching entry.
pub open spec fn find_program(s: Seq<ProgramItemView>, key: i32) -> Option<ProgramItemView>
    decreases s.len(),
{
    if s.len() == 0 {
        None
    } else if s.last().id == key {
        Some(s.last())
    } else {
        find_program(s.drop_last(), key)
    }
}

pub fn find_program_idx(v: &Vec<ProgramItem>, key: i32) -> (r: Option<usize>)
    ensures
        match r {
            Some(i) => i < v.len() && find_program(v.deep_view(), key) == Some(
                v.deep_view()[i as int],
            ),
            None => find_program(v.deep_view(), key) is None,
        },
{
    let ghost s = v.deep_view();
    let mut i: usize = v.len();
    proof {
        assert(s.take(i as int) =~= s);
    }
    loop
        invariant
            i <= v.len(),
            s == v.deep_view(),
            v@.len() == s.len(),
            find_program(s, key) == find_program(s.take(i as int), key),
        decreases i,
    {
        if i == 0 {
            return None;
        }
        i = i - 1;
        if v[i].id == key {
            proof {
                assert(s.take(i + 1).last() == s[i as int]);
            }
            return Some(i);
        }
        proof {
            assert(s.take(i + 1).drop_last() =~= s.take(i as int));
        }
    }
}

/// The competition entry with the given registration id, taking the last
/// matching entry.
pub open spec fn find_cic(s: Seq<CompetitorInCompetitionView>, key: i32) -> Option<
    CompetitorInCompetitionView,
>
    decreases s.len(),
{
    if s.len() == 0 {
        None
    } else if s.last().id == key {
        Some(s.last())
    } else {
        find_cic(s.drop_last(), key)
    }
}

pub fn find_cic_idx(v: &Vec<CompetitorInCompetition>, key: i32) -> (r: Option<usize>)
    ensures
        match r {
            Some(i) => i < v.len() && find_cic(v.deep_view(), key) == Some(
                v.deep_view()[i as int],
            ),
            None => find_cic(v.deep_view(), key) is None,
        },
{
    let ghost s = v.deep_view();
    let mut i: usize = v.len();
    proof {
        assert(s.take(i as int) =~= s);
    }
    loop
        invariant
            i <= v.len(),
            s == v.deep_view(),
            v@.len() == s.len(),
            find_cic(s, key) == find_cic(s.take(i as int), key),
        decreases i,
    {
        if i == 0 {
            return None;
        }
        i = i - 1;
        if v[i].id == key {
            proof {
                assert(s.take(i + 1).last() == s[i as int]);
            }
            return Some(i);
        }
        proof {
            assert(s.take(i + 1).drop_last() =~= s.take(i as int));
        }
    }
}

/// The competitor with the given registration code, taking the last matching
/// entry; competitors without a code never match.
pub open spec fn find_competitor_by_code(s: Seq<CompetitorView>, code: Seq<char>) -> Option<
    CompetitorView,
>
    decreases s.len(),
{
    if s.len() == 0 {
        None
    } else if s.last().id == Some(code) {
        Some(s.last())
    } else {
        find_competitor_by_code(s.drop_last(), code)
    }
}

pub fn find_competitor_by_code_idx(v: &Vec<Competitor>, code: &String) -> (r: Option<usize>)
    ensures
        match r {
            Some(i) => i < v.len() && find_competitor_by_code(v.deep_view(), code@) == Some(
                v.deep_view()[i as int],
            ),
            None => find_competitor_by_code(v.deep_view(), code@) is None,
        },
{
    let ghost s = v.deep_view();
    let mut i: usize = v.len();
    proof {
        assert(s.take(i as int) =~= s);
    }
    loop
        invariant
            i <= v.len(),
            s == v.deep_view(),
            v@.len() == s.len(),
            find_competitor_by_code(s, code@) == find_competitor_by_code(s.take(i as int), code@),
        decreases i,
    {
        if i == 0 {
            return None;
        }
        i = i - 1;
        let matched = match &v[i].id {
            Some(c) => c.eq(code),
            None => false,
        };
        if matched {
            proof {
                assert(s.take(i + 1).last() == s[i as int]);
            }
            return Some(i);
        }
        proof {
            assert(s.take(i + 1).drop_last() =~= s.take(i as int));
        }
    }
}

/// Whether some race in the collection carries the given id.
pub open spec fn has_race_id(s: Seq<RaceView>, id: i32) -> bool {
    exists|j: int| 0 <= j < s.len() && s[j].id == id
}

pub fn contains_race_id(v: &Vec<Race>, id: i32) -> (b: bool)
    ensures
        b == has_race_id(v.deep_view(), id),
{
    let ghost s = v.deep_view();
    let mut i: usize = 0;
    while i < v.len()
        invariant
            i <= v.len(),
            s == v.deep_view(),
            v@.len() == s.len(),
            forall|j: int| 0 <= j < i ==> s[j].id != id,
        decreases v.len() - i,
    {
        if v[i].id == id {
            proof {
                assert(s[i as int].id == id);
                assert(has_race_id(s, id));
            }
            return true;
        }
        i = i + 1;
    }
    false
}

} // verus!
