//! The race sequencer and the lane ordering.
//!
//! Races are ordered by the numeric value of the leading digit run of their
//! name, with the full name compared lexicographically (by codepoint,
//! case-sensitively) as the tie-break; the sort is stable. Within a race,
//! lanes are ordered ascending by start position, lanes without one sorting
//! after all lanes that have one; that sort is stable too. Both sorts are
//! insertion sorts pinned to a deterministic ghost counterpart, and proved
//! sorted and permuting below.

use vstd::prelude::*;
use vstd::seq_lib::group_to_multiset_ensures;
use core::cmp::Ordering;
use crate::model::{Lane, LaneView, Race, RaceView};
use crate::names::{compare_race_nums, race_num};

verus! {

/// Lexicographic comparison of two character sequences from position `i` on,
/// by codepoint: -1 when `a` comes first, 1 when `b` does, 0 when they agree
/// to the end.
pub open spec fn chars_cmp_from(a: Seq<char>, b: Seq<char>, i: int) -> int
    decreases a.len() - i,
{
    if i < 0 || (i >= a.len() && i >= b.len()) {
        0
    } else if i >= a.len() {
        -1
    } else if i >= b.len() {
        1
    } else if (a[i] as u32) < (b[i] as u32) {
        -1
    } else if (a[i] as u32) > (b[i] as u32) {
        1
    } else {
        chars_cmp_from(a, b, i + 1)
    }
}

/// Lexicographic comparison of two character sequences by codepoint.
pub open spec fn chars_cmp(a: Seq<char>, b: Seq<char>) -> int {
    chars_cmp_from(a, b, 0)
}

pub proof fn lemma_chars_cmp_from_range(a: Seq<char>, b: Seq<char>, i: int)
    ensures
        -1 <= chars_cmp_from(a, b, i) <= 1,
    decreases a.len() - i,
{
    if 0 <= i && i < a.len() && i < b.len() && a[i] as u32 == b[i] as u32 {
        lemma_chars_cmp_from_range(a, b, i + 1);
    }
}

/// Lexicographic comparison is antisymmetric.
pub proof fn lemma_chars_cmp_from_antisym(a: Seq<char>, b: Seq<char>, i: int)
    ensures
        chars_cmp_from(a, b, i) == -chars_cmp_from(b, a, i),
    decreases a.len() - i,
{
    if 0 <= i && i < a.len() && i < b.len() && a[i] as u32 == b[i] as u32 {
        lemma_chars_cmp_from_antisym(a, b, i + 1);
    }
}

/// Lexicographic comparison is transitive.
pub proof fn lemma_chars_cmp_from_trans(a: Seq<char>, b: Seq<char>, c: Seq<char>, i: int)
    requires
        0 <= i,
        chars_cmp_from(a, b, i) <= 0,
        chars_cmp_from(b, c, i) <= 0,
    ensures
        chars_cmp_from(a, c, i) <= 0,
    decreases a.len() - i,
{
    if i < a.len() && i < b.len() && i < c.len() && a[i] as u32 == b[i] as u32 && b[i] as u32
        == c[i] as u32 {
        lemma_chars_cmp_from_trans(a, b, c, i + 1);
    }
}

/// The race order: numeric leading-run key first, full name as tie-break.
/// -1 when `a` comes first, 1 when `b` does, 0 for indistinguishable names.
pub open spec fn race_cmp(a: RaceView, b: RaceView) -> int {
    if race_num(a.name) < race_num(b.name) {
        -1
    } else if race_num(a.name) > race_num(b.name) {
        1
    } else {
        chars_cmp(a.name, b.name)
    }
}

pub proof fn lemma_race_cmp_range(a: RaceView, b: RaceView)
    ensures
        -1 <= race_cmp(a, b) <= 1,
{
    lemma_chars_cmp_from_range(a.name, b.name, 0);
}

/// The race order is antisymmetric.
pub proof fn lemma_race_cmp_antisym(a: RaceView, b: RaceView)
    ensures
        race_cmp(a, b) == -race_cmp(b, a),
{
    lemma_chars_cmp_from_antisym(a.name, b.name, 0);
}

/// The race order is transitive.
pub proof fn lemma_race_cmp_trans(a: RaceView, b: RaceView, c: RaceView)
    requires
        race_cmp(a, b) <= 0,
        race_cmp(b, c) <= 0,
    ensures
        race_cmp(a, c) <= 0,
{
    lemma_chars_cmp_from_range(a.name, b.name, 0);
    lemma_chars_cmp_from_range(b.name, c.name, 0);
    if race_num(a.name) == race_num(b.name) && race_num(b.name) == race_num(c.name) {
        lemma_chars_cmp_from_trans(a.name, b.name, c.name, 0);
    }
}

/// Compares two character sequences held in strings, lexicographically by
/// codepoint.
#[verifier::loop_isolation(false)]
fn cmp_chars(a: &str, b: &str) -> (r: i32)
    ensures
        r == chars_cmp(a@, b@),
{
    let alen = a.unicode_len();
    let blen = b.unicode_len();
    let mut i: usize = 0;
    while i < alen && i < blen
        invariant
            i <= alen,
            i <= blen,
            chars_cmp(a@, b@) == chars_cmp_from(a@, b@, i as int),
        decreases alen - i,
    {
        let ca = a.get_char(i) as u32;
        let cb = b.get_char(i) as u32;
        if ca < cb {
            return -1;
        }
        if ca > cb {
            return 1;
        }
        i = i + 1;
    }
    if alen < blen {
        -1
    } else if alen > blen {
        1
    } else {
        0
    }
}

/// Compares two races: by the numeric value of the leading digit run of the
/// name first, then by the full name, lexicographically and case-sensitively.
pub fn race_compare(a: &Race, b: &Race) -> (o: Ordering)
    ensures
        (o == Ordering::Less) <==> race_cmp(a.deep_view(), b.deep_view()) == -1,
        (o == Ordering::Equal) <==> race_cmp(a.deep_view(), b.deep_view()) == 0,
        (o == Ordering::Greater) <==> race_cmp(a.deep_view(), b.deep_view()) == 1,
{
    proof {
        lemma_race_cmp_range(a.deep_view(), b.deep_view());
    }
    let n = compare_race_nums(a.name.as_str(), b.name.as_str());
    if n == -1 {
        Ordering::Less
    } else if n == 1 {
        Ordering::Greater
    } else {
        let c = cmp_chars(a.name.as_str(), b.name.as_str());
        if c < 0 {
            Ordering::Less
        } else if c == 0 {
            Ordering::Equal
        } else {
            Ordering::Greater
        }
    }
}

/// Inserts `r` into `s` after every element not strictly greater than it:
/// the insertion step of a stable insertion sort.
pub open spec fn insert_race(s: Seq<RaceView>, r: RaceView) -> Seq<RaceView>
    decreases s.len(),
{
    if s.len() > 0 && race_cmp(r, s.last()) == -1 {
        insert_race(s.drop_last(), r).push(s.last())
    } else {
        s.push(r)
    }
}

/// The stable insertion sort of a race sequence under the race order.
pub open spec fn sort_races_seq(s: Seq<RaceView>) -> Seq<RaceView>
    decreases s.len(),
{
    if s.len() == 0 {
        Seq::empty()
    } else {
        insert_race(sort_races_seq(s.drop_last()), s.last())
    }
}

fn insert_race_sorted(out: &mut Vec<Race>, race: Race)
    ensures
        final(out).deep_view() == insert_race(old(out).deep_view(), race.deep_view()),
{
    let ghost s = old(out).deep_view();
    let ghost rv = race.deep_view();
    let mut pos: usize = out.len();
    proof {
        assert(s.take(pos as int) =~= s);
        assert(s.skip(pos as int) =~= Seq::<RaceView>::empty());
        assert(insert_race(s, rv) =~= insert_race(s.take(pos as int), rv) + s.skip(pos as int));
    }
    loop
        invariant
            pos <= out.len(),
            out.deep_view() == s,
            out@.len() == s.len(),
            rv == race.deep_view(),
            insert_race(s, rv) == insert_race(s.take(pos as int), rv) + s.skip(pos as int),
        ensures
            pos <= out.len(),
            out.deep_view() == s,
            insert_race(s, rv) == s.take(pos as int) + seq![rv] + s.skip(pos as int),
        decreases pos,
    {
        if pos == 0 {
            proof {
                assert(insert_race(s.take(0), rv) =~= seq![rv]);
                assert(insert_race(s, rv) =~= s.take(0) + seq![rv] + s.skip(0));
            }
            break ;
        }
        let less = match race_compare(&race, &out[pos - 1]) {
            Ordering::Less => true,
            _ => false,
        };
        if !less {
            proof {
                assert(s.take(pos as int).last() == s[pos - 1]);
                assert(insert_race(s.take(pos as int), rv) == s.take(pos as int).push(rv));
                assert(s.take(pos as int).push(rv) =~= s.take(pos as int) + seq![rv]);
                assert((s.take(pos as int) + seq![rv]) + s.skip(pos as int) =~= s.take(pos as int)
                    + seq![rv] + s.skip(pos as int));
            }
            break ;
        }
        proof {
            assert(s.take(pos as int).last() == s[pos - 1]);
            assert(s.take(pos as int).drop_last() =~= s.take(pos - 1));
            assert(insert_race(s.take(pos as int), rv) == insert_race(s.take(pos - 1), rv).push(
                s[pos - 1],
            ));
            assert(insert_race(s.take(pos - 1), rv).push(s[pos - 1]) + s.skip(pos as int)
                =~= insert_race(s.take(pos - 1), rv) + s.skip(pos - 1));
        }
        pos = pos - 1;
    }
    out.insert(pos, race);
    proof {
        assert(final(out).deep_view() =~= s.take(pos as int) + seq![rv] + s.skip(pos as int));
    }
}

/// Sorts the races by the race order, stably: the relative order of races
/// whose names compare equal is preserved.
#[verifier::loop_isolation(false)]
pub fn sort_races(races: &mut Vec<Race>)
    ensures
        final(races).deep_view() == sort_races_seq(old(races).deep_view()),
{
    let ghost orig = old(races).deep_view();
    let mut out: Vec<Race> = Vec::new();
    let ghost k: int = 0;
    proof {
        assert(races.deep_view() =~= orig.skip(0));
        assert(out.deep_view() =~= sort_races_seq(orig.take(0)));
    }
    while races.len() > 0
        invariant
            0 <= k <= orig.len(),
            races.deep_view() == orig.skip(k),
            races@.len() == orig.len() - k,
            out.deep_view() == sort_races_seq(orig.take(k)),
        decreases races@.len(),
    {
        let ghost prev = races@;
        let ghost prevdv = races.deep_view();
        let r = races.remove(0);
        proof {
            assert(forall|j: int| 0 <= j < prev.len() ==> prevdv[j] == prev[j].deep_view());
            assert(r.deep_view() == orig.skip(k)[0]);
            assert(orig.skip(k)[0] == orig[k]);
            assert(forall|j: int| 0 <= j < races@.len() ==> races@[j] == prev[j + 1]);
            assert(forall|j: int| 0 <= j < races@.len() ==> races.deep_view()[j] == prevdv[j
                + 1]);
            assert(races.deep_view() =~= orig.skip(k + 1));
        }
        insert_race_sorted(&mut out, r);
        proof {
            assert(orig.take(k + 1).drop_last() =~= orig.take(k));
            assert(orig.take(k + 1).last() == orig[k]);
            k = k + 1;
        }
    }
    proof {
        assert(orig.take(k) =~= orig);
    }
    *races = out;
}

/// Whether a race sequence is ordered by the race order.
pub open spec fn races_sorted(s: Seq<RaceView>) -> bool {
    forall|i: int, j: int| 0 <= i < j < s.len() ==> race_cmp(s[i], s[j]) <= 0
}

/// Inserting preserves the contents: one more copy of the inserted race.
pub proof fn lemma_insert_race_multiset(s: Seq<RaceView>, r: RaceView)
    ensures
        insert_race(s, r).to_multiset() =~= s.to_multiset().insert(r),
    decreases s.len(),
{
    broadcast use group_to_multiset_ensures;

    if s.len() > 0 && race_cmp(r, s.last()) == -1 {
        let dl = s.drop_last();
        lemma_insert_race_multiset(dl, r);
        assert(s =~= dl.push(s.last()));
        assert(insert_race(dl, r).push(s.last()).to_multiset() =~= insert_race(
            dl,
            r,
        ).to_multiset().insert(s.last()));
        assert(dl.to_multiset().insert(r).insert(s.last()) =~= dl.to_multiset().insert(
            s.last(),
        ).insert(r));
    }
}

/// Inserting into an ordered race sequence keeps it ordered.
pub proof fn lemma_insert_race_sorted(s: Seq<RaceView>, r: RaceView)
    requires
        races_sorted(s),
    ensures
        races_sorted(insert_race(s, r)),
    decreases s.len(),
{
    broadcast use group_to_multiset_ensures;

    if s.len() > 0 && race_cmp(r, s.last()) == -1 {
        let dl = s.drop_last();
        let last = s.last();
        assert(races_sorted(dl));
        lemma_insert_race_sorted(dl, r);
        lemma_insert_race_multiset(dl, r);
        let t = insert_race(dl, r);
        assert forall|i: int| 0 <= i < t.len() implies race_cmp(t[i], last) <= 0 by {
            assert(t.to_multiset().count(t[i]) > 0);
            if t[i] == r {
                assert(race_cmp(r, last) <= 0);
            } else {
                assert(dl.to_multiset().count(t[i]) > 0);
                assert(dl.contains(t[i]));
                let j = choose|j: int| 0 <= j < dl.len() && dl[j] == t[i];
                assert(race_cmp(s[j], last) <= 0);
            }
        }
        assert(insert_race(s, r) == t.push(last));
        assert forall|i: int, j: int|
            0 <= i < j < t.push(last).len() implies race_cmp(
            t.push(last)[i],
            t.push(last)[j],
        ) <= 0 by {
            if j < t.len() {
                assert(race_cmp(t[i], t[j]) <= 0);
            } else {
                assert(race_cmp(t[i], last) <= 0);
            }
        }
    } else {
        if s.len() > 0 {
            lemma_race_cmp_range(r, s.last());
            lemma_race_cmp_antisym(s.last(), r);
            assert(race_cmp(s.last(), r) <= 0);
            assert forall|i: int| 0 <= i < s.len() implies race_cmp(s[i], r) <= 0 by {
                if i < s.len() - 1 {
                    assert(race_cmp(s[i], s.last()) <= 0);
                    lemma_race_cmp_trans(s[i], s.last(), r);
                }
            }
        }
    }
}

/// The sequenced races are ordered by the race order.
pub proof fn lemma_sort_races_seq_sorted(s: Seq<RaceView>)
    ensures
        races_sorted(sort_races_seq(s)),
    decreases s.len(),
{
    if s.len() > 0 {
        lemma_sort_races_seq_sorted(s.drop_last());
        lemma_insert_race_sorted(sort_races_seq(s.drop_last()), s.last());
    }
}

/// The sequenced races are a permutation of the given ones: sorting loses
/// and invents nothing.
pub proof fn lemma_sort_races_seq_multiset(s: Seq<RaceView>)
    ensures
        sort_races_seq(s).to_multiset() =~= s.to_multiset(),
    decreases s.len(),
{
    broadcast use group_to_multiset_ensures;

    if s.len() > 0 {
        let dl = s.drop_last();
        lemma_sort_races_seq_multiset(dl);
        lemma_insert_race_multiset(sort_races_seq(dl), s.last());
        assert(s =~= dl.push(s.last()));
    }
}

/// The lane ordering key: the start position, with an absent start position
/// keyed above every representable start position, so that such lanes sort
/// after all lanes that have one.
pub open spec fn lane_key(l: LaneView) -> int {
    match l.start_position {
        Some(p) => p as int,
        None => 0x8000_0000,
    }
}

/// The lane ordering key, executable.
pub fn lane_key_exec(l: &Lane) -> (k: i64)
    ensures
        k as int == lane_key(l.deep_view()),
{
    match l.start_position {
        Some(p) => p as i64,
        None => 0x8000_0000,
    }
}

/// Inserts `l` into `s` after every lane whose key is not strictly greater:
/// the insertion step of a stable insertion sort by lane key.
pub open spec fn insert_lane(s: Seq<LaneView>, l: LaneView) -> Seq<LaneView>
    decreases s.len(),
{
    if s.len() > 0 && lane_key(l) < lane_key(s.last()) {
        insert_lane(s.drop_last(), l).push(s.last())
    } else {
        s.push(l)
    }
}

/// The stable insertion sort of a lane sequence by lane key.
pub open spec fn sort_lanes_seq(s: Seq<LaneView>) -> Seq<LaneView>
    decreases s.len(),
{
    if s.len() == 0 {
        Seq::empty()
    } else {
        insert_lane(sort_lanes_seq(s.drop_last()), s.last())
    }
}

fn insert_lane_sorted(out: &mut Vec<Lane>, lane: Lane)
    ensures
        final(out).deep_view() == insert_lane(old(out).deep_view(), lane.deep_view()),
{
    let ghost s = old(out).deep_view();
    let ghost lv = lane.deep_view();
    let key = lane_key_exec(&lane);
    let mut pos: usize = out.len();
    proof {
        assert(s.take(pos as int) =~= s);
        assert(s.skip(pos as int) =~= Seq::<LaneView>::empty());
        assert(insert_lane(s, lv) =~= insert_lane(s.take(pos as int), lv) + s.skip(pos as int));
    }
    loop
        invariant
            pos <= out.len(),
            out.deep_view() == s,
            out@.len() == s.len(),
            lv == lane.deep_view(),
            key as int == lane_key(lv),
            insert_lane(s, lv) == insert_lane(s.take(pos as int), lv) + s.skip(pos as int),
        ensures
            pos <= out.len(),
            out.deep_view() == s,
            insert_lane(s, lv) == s.take(pos as int) + seq![lv] + s.skip(pos as int),
        decreases pos,
    {
        if pos == 0 {
            proof {
                assert(insert_lane(s.take(0), lv) =~= seq![lv]);
                assert(insert_lane(s, lv) =~= s.take(0) + seq![lv] + s.skip(0));
            }
            break ;
        }
        let prev_key = lane_key_exec(&out[pos - 1]);
        if !(key < prev_key) {
            proof {
                assert(s.take(pos as int).last() == s[pos - 1]);
                assert(insert_lane(s.take(pos as int), lv) == s.take(pos as int).push(lv));
                assert(s.take(pos as int).push(lv) =~= s.take(pos as int) + seq![lv]);
                assert((s.take(pos as int) + seq![lv]) + s.skip(pos as int) =~= s.take(pos as int)
                    + seq![lv] + s.skip(pos as int));
            }
            break ;
        }
        proof {
            assert(s.take(pos as int).last() == s[pos - 1]);
            assert(s.take(pos as int).drop_last() =~= s.take(pos - 1));
            assert(insert_lane(s.take(pos as int), lv) == insert_lane(s.take(pos - 1), lv).push(
                s[pos - 1],
            ));
            assert(insert_lane(s.take(pos - 1), lv).push(s[pos - 1]) + s.skip(pos as int)
                =~= insert_lane(s.take(pos - 1), lv) + s.skip(pos - 1));
        }
        pos = pos - 1;
    }
    out.insert(pos, lane);
    proof {
        assert(final(out).deep_view() =~= s.take(pos as int) + seq![lv] + s.skip(pos as int));
    }
}

/// Sorts lanes ascending by start position, stably; lanes without a start
/// position come after all lanes that have one.
#[verifier::loop_isolation(false)]
pub fn sort_lanes(lanes: &mut Vec<Lane>)
    ensures
        final(lanes).deep_view() == sort_lanes_seq(old(lanes).deep_view()),
{
    let ghost orig = old(lanes).deep_view();
    let mut out: Vec<Lane> = Vec::new();
    let ghost k: int = 0;
    proof {
        assert(lanes.deep_view() =~= orig.skip(0));
        assert(out.deep_view() =~= sort_lanes_seq(orig.take(0)));
    }
    while lanes.len() > 0
        invariant
            0 <= k <= orig.len(),
            lanes.deep_view() == orig.skip(k),
            lanes@.len() == orig.len() - k,
            out.deep_view() == sort_lanes_seq(orig.take(k)),
        decreases lanes@.len(),
    {
        let ghost prev = lanes@;
        let ghost prevdv = lanes.deep_view();
        let l = lanes.remove(0);
        proof {
            assert(forall|j: int| 0 <= j < prev.len() ==> prevdv[j] == prev[j].deep_view());
            assert(l.deep_view() == orig.skip(k)[0]);
            assert(orig.skip(k)[0] == orig[k]);
            assert(forall|j: int| 0 <= j < lanes@.len() ==> lanes@[j] == prev[j + 1]);
            assert(forall|j: int| 0 <= j < lanes@.len() ==> lanes.deep_view()[j] == prevdv[j
                + 1]);
            assert(lanes.deep_view() =~= orig.skip(k + 1));
        }
        insert_lane_sorted(&mut out, l);
        proof {
            assert(orig.take(k + 1).drop_last() =~= orig.take(k));
            assert(orig.take(k + 1).last() == orig[k]);
            k = k + 1;
        }
    }
    proof {
        assert(orig.take(k) =~= orig);
    }
    *lanes = out;
}

/// Whether a lane sequence is ordered ascending by lane key.
pub open spec fn lanes_sorted(s: Seq<LaneView>) -> bool {
    forall|i: int, j: int| 0 <= i < j < s.len() ==> lane_key(s[i]) <= lane_key(s[j])
}

/// Inserting preserves the contents: one more copy of the inserted lane.
pub proof fn lemma_insert_lane_multiset(s: Seq<LaneView>, l: LaneView)
    ensures
        insert_lane(s, l).to_multiset() =~= s.to_multiset().insert(l),
    decreases s.len(),
{
    broadcast use group_to_multiset_ensures;

    if s.len() > 0 && lane_key(l) < lane_key(s.last()) {
        let dl = s.drop_last();
        lemma_insert_lane_multiset(dl, l);
        assert(s =~= dl.push(s.last()));
        assert(insert_lane(dl, l).push(s.last()).to_multiset() =~= insert_lane(
            dl,
            l,
        ).to_multiset().insert(s.last()));
        assert(dl.to_multiset().insert(l).insert(s.last()) =~= dl.to_multiset().insert(
            s.last(),
        ).insert(l));
    }
}

/// Inserting into an ordered lane sequence keeps it ordered.
pub proof fn lemma_insert_lane_sorted(s: Seq<LaneView>, l: LaneView)
    requires
        lanes_sorted(s),
    ensures
        lanes_sorted(insert_lane(s, l)),
    decreases s.len(),
{
    broadcast use group_to_multiset_ensures;

    if s.len() > 0 && lane_key(l) < lane_key(s.last()) {
        let dl = s.drop_last();
        let last = s.last();
        assert(lanes_sorted(dl));
        lemma_insert_lane_sorted(dl, l);
        lemma_insert_lane_multiset(dl, l);
        let t = insert_lane(dl, l);
        assert forall|i: int| 0 <= i < t.len() implies lane_key(t[i]) <= lane_key(last) by {
            assert(t.to_multiset().count(t[i]) > 0);
            if t[i] != l {
                assert(dl.to_multiset().count(t[i]) > 0);
                assert(dl.contains(t[i]));
                let j = choose|j: int| 0 <= j < dl.len() && dl[j] == t[i];
                assert(lane_key(s[j]) <= lane_key(last));
            }
        }
        assert(insert_lane(s, l) == t.push(last));
        assert forall|i: int, j: int|
            0 <= i < j < t.push(last).len() implies lane_key(t.push(last)[i]) <= lane_key(
            t.push(last)[j],
        ) by {
            if j < t.len() {
                assert(lane_key(t[i]) <= lane_key(t[j]));
            } else {
                assert(lane_key(t[i]) <= lane_key(last));
            }
        }
    }
}

/// The ordered lanes are ordered by lane key.
pub proof fn lemma_sort_lanes_seq_sorted(s: Seq<LaneView>)
    ensures
        lanes_sorted(sort_lanes_seq(s)),
    decreases s.len(),
{
    if s.len() > 0 {
        lemma_sort_lanes_seq_sorted(s.drop_last());
        lemma_insert_lane_sorted(sort_lanes_seq(s.drop_last()), s.last());
    }
}

/// The ordered lanes are a permutation of the given ones: sorting loses and
/// invents nothing.
pub proof fn lemma_sort_lanes_seq_multiset(s: Seq<LaneView>)
    ensures
        sort_lanes_seq(s).to_multiset() =~= s.to_multiset(),
    decreases s.len(),
{
    broadcast use group_to_multiset_ensures;

    if s.len() > 0 {
        let dl = s.drop_last();
        lemma_sort_lanes_seq_multiset(dl);
        lemma_insert_lane_multiset(sort_lanes_seq(dl), s.last());
        assert(s =~= dl.push(s.last()));
    }
}

/// Inserting a race leaves every equality class of the race order unchanged
/// except that the inserted race's own class gains it at the end: the
/// insertion point lies after every race that compares equal.
proof fn lemma_insert_race_filter(
    s: Seq<RaceView>,
    r: RaceView,
    x: RaceView,
    p: spec_fn(RaceView) -> bool,
)
    requires
        forall|e: RaceView| #[trigger] p(e) <==> race_cmp(e, x) == 0,
    ensures
        insert_race(s, r).filter(p) == if p(r) {
            s.filter(p).push(r)
        } else {
            s.filter(p)
        },
    decreases s.len(),
{
    reveal(Seq::filter);
    if s.len() > 0 && race_cmp(r, s.last()) == -1 {
        let dl = s.drop_last();
        let last = s.last();
        lemma_insert_race_filter(dl, r, x, p);
        if p(r) && p(last) {
            lemma_race_cmp_antisym(last, x);
            lemma_race_cmp_trans(r, x, last);
            lemma_race_cmp_antisym(x, r);
            lemma_race_cmp_trans(last, x, r);
            lemma_race_cmp_antisym(last, r);
            assert(race_cmp(r, last) == 0);
            assert(false);
        }
        let t = insert_race(dl, r);
        assert(insert_race(s, r) == t.push(last));
        assert(t.push(last).drop_last() =~= t);
        assert(s.filter(p) == if p(last) {
            dl.filter(p).push(last)
        } else {
            dl.filter(p)
        });
    } else {
        assert(insert_race(s, r) == s.push(r));
        assert(s.push(r).drop_last() =~= s);
    }
}

/// The race sort is stable: for any race, the subsequence of races comparing
/// equal to it is the same, in the same order, before and after sorting.
pub proof fn lemma_sort_races_stable(s: Seq<RaceView>, x: RaceView, p: spec_fn(RaceView) -> bool)
    requires
        forall|e: RaceView| #[trigger] p(e) <==> race_cmp(e, x) == 0,
    ensures
        sort_races_seq(s).filter(p) == s.filter(p),
    decreases s.len(),
{
    reveal(Seq::filter);
    if s.len() > 0 {
        let dl = s.drop_last();
        lemma_sort_races_stable(dl, x, p);
        lemma_insert_race_filter(sort_races_seq(dl), s.last(), x, p);
        assert(s.drop_last() == dl);
    }
}

/// Inserting a lane leaves every key class unchanged except that the
/// inserted lane's own class gains it at the end: the insertion point lies
/// after every lane with the same key.
proof fn lemma_insert_lane_filter(
    s: Seq<LaneView>,
    l: LaneView,
    k: int,
    p: spec_fn(LaneView) -> bool,
)
    requires
        forall|e: LaneView| #[trigger] p(e) <==> lane_key(e) == k,
    ensures
        insert_lane(s, l).filter(p) == if p(l) {
            s.filter(p).push(l)
        } else {
            s.filter(p)
        },
    decreases s.len(),
{
    reveal(Seq::filter);
    if s.len() > 0 && lane_key(l) < lane_key(s.last()) {
        let dl = s.drop_last();
        let last = s.last();
        lemma_insert_lane_filter(dl, l, k, p);
        let t = insert_lane(dl, l);
        assert(insert_lane(s, l) == t.push(last));
        assert(t.push(last).drop_last() =~= t);
        assert(s.filter(p) == if p(last) {
            dl.filter(p).push(last)
        } else {
            dl.filter(p)
        });
    } else {
        assert(insert_lane(s, l) == s.push(l));
        assert(s.push(l).drop_last() =~= s);
    }
}

/// The lane sort is stable: for any key, the subsequence of lanes with that
/// key is the same, in the same order, before and after sorting.
pub proof fn lemma_sort_lanes_stable(s: Seq<LaneView>, k: int, p: spec_fn(LaneView) -> bool)
    requires
        forall|e: LaneView| #[trigger] p(e) <==> lane_key(e) == k,
    ensures
        sort_lanes_seq(s).filter(p) == s.filter(p),
    decreases s.len(),
{
    reveal(Seq::filter);
    if s.len() > 0 {
        let dl = s.drop_last();
        lemma_sort_lanes_stable(dl, k, p);
        lemma_insert_lane_filter(sort_lanes_seq(dl), s.last(), k, p);
        assert(s.drop_last() == dl);
    }
}

} // verus!
