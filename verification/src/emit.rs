//! The output emitter: the legacy text rendering and the JSON document.
//!
//! Both renderings consume the sequenced race collection and, within each
//! race, the same lane ordering (ascending start position, absent last), so
//! they enumerate identical races and lanes in identical order; the law at
//! the end of this module states that correspondence.

use vstd::prelude::*;
use vstd::string::StrSliceExecFns;
use vstd::string::StringExecFns;
use crate::lookups::{
    clone_opt_string, find_cic, find_cic_idx, find_competitor_by_code,
    find_competitor_by_code_idx, find_program, find_program_idx,
};
use crate::model::{
    Competitor, CompetitorInCompetition, CompetitorInCompetitionView, CompetitorView, Lane,
    LaneView, ProgramItem, ProgramItemView, Race, RaceData, RaceView,
};
use crate::names::{event_of, event_part, heat_of, heat_part, letter_num};
use crate::sequence::{sort_lanes, sort_lanes_seq};
use crate::strings::{dec_int, push_char, push_i32_dec};

verus! {

/// One lane of the JSON document. Optional fields are omitted from the
/// serialized object when absent, never written as null.
#[derive(Debug, Clone)]
pub struct JsonLane {
    pub start_position: Option<i32>,
    pub helmet_id: Option<i32>,
    pub name: String,
    pub affiliation_url: String,
    pub last_name: Option<String>,
    pub first_name: Option<String>,
    pub affiliation: Option<String>,
    pub competitor_id: Option<String>,
}

pub struct JsonLaneView {
    pub start_position: Option<i32>,
    pub helmet_id: Option<i32>,
    pub name: Seq<char>,
    pub affiliation_url: Seq<char>,
    pub last_name: Option<Seq<char>>,
    pub first_name: Option<Seq<char>>,
    pub affiliation: Option<Seq<char>>,
    pub competitor_id: Option<Seq<char>>,
}

impl DeepView for JsonLane {
    type V = JsonLaneView;

    open spec fn deep_view(&self) -> JsonLaneView {
        JsonLaneView {
            start_position: self.start_position,
            helmet_id: self.helmet_id,
            name: self.name.deep_view(),
            affiliation_url: self.affiliation_url.deep_view(),
            last_name: self.last_name.deep_view(),
            first_name: self.first_name.deep_view(),
            affiliation: self.affiliation.deep_view(),
            competitor_id: self.competitor_id.deep_view(),
        }
    }
}

/// One race of the JSON document, with its lanes in their final order.
#[derive(Debug, Clone)]
pub struct JsonRace {
    pub name: String,
    pub title: String,
    pub event: String,
    pub heat: i32,
    pub group: Option<String>,
    pub length: Option<i32>,
    pub track: i32,
    pub lanes: Vec<JsonLane>,
}

pub struct JsonRaceView {
    pub name: Seq<char>,
    pub title: Seq<char>,
    pub event: Seq<char>,
    pub heat: i32,
    pub group: Option<Seq<char>>,
    pub length: Option<i32>,
    pub track: i32,
    pub lanes: Seq<JsonLaneView>,
}

impl DeepView for JsonRace {
    type V = JsonRaceView;

    open spec fn deep_view(&self) -> JsonRaceView {
        JsonRaceView {
            name: self.name.deep_view(),
            title: self.title.deep_view(),
            event: self.event.deep_view(),
            heat: self.heat,
            group: self.group.deep_view(),
            length: self.length,
            track: self.track,
            lanes: self.lanes.deep_view(),
        }
    }
}

/// Whether `c` carries the Unicode White_Space property, the set trimmed
/// from the ends of a display name.
pub open spec fn is_space(c: char) -> bool {
    let u = c as u32;
    u == 0x9 || u == 0xA || u == 0xB || u == 0xC || u == 0xD || u == 0x20 || u == 0x85
        || u == 0xA0 || u == 0x1680 || (0x2000 <= u && u <= 0x200A) || u == 0x2028 || u == 0x2029
        || u == 0x202F || u == 0x205F || u == 0x3000
}

fn is_space_exec(c: char) -> (b: bool)
    ensures
        b == is_space(c),
{
    let u = c as u32;
    u == 0x9 || u == 0xA || u == 0xB || u == 0xC || u == 0xD || u == 0x20 || u == 0x85
        || u == 0xA0 || u == 0x1680 || (0x2000 <= u && u <= 0x200A) || u == 0x2028 || u == 0x2029
        || u == 0x202F || u == 0x3000 || u == 0x205F
}

/// The length of the maximal leading run of whitespace in `s`.
pub open spec fn space_prefix_len(s: Seq<char>) -> int
    decreases s.len(),
{
    if s.len() == 0 || !is_space(s[0]) {
        0
    } else {
        1 + space_prefix_len(s.drop_first())
    }
}

/// The length of the maximal trailing run of whitespace in `s`.
pub open spec fn space_suffix_len(s: Seq<char>) -> int
    decreases s.len(),
{
    if s.len() == 0 || !is_space(s.last()) {
        0
    } else {
        1 + space_suffix_len(s.drop_last())
    }
}

/// `s` with leading and trailing whitespace removed.
pub open spec fn trim_chars(s: Seq<char>) -> Seq<char> {
    if space_prefix_len(s) == s.len() {
        Seq::empty()
    } else {
        s.subrange(space_prefix_len(s), s.len() - space_suffix_len(s))
    }
}

proof fn lemma_space_prefix_len_from_chars(s: Seq<char>, i: int)
    requires
        0 <= i <= s.len(),
        forall|j: int| 0 <= j < i ==> is_space(s[j]),
        i < s.len() ==> !is_space(s[i]),
    ensures
        space_prefix_len(s) == i,
    decreases s.len(),
{
    if s.len() == 0 || !is_space(s[0]) {
    } else {
        let rest = s.drop_first();
        assert(forall|j: int| 0 <= j < i - 1 ==> rest[j] == s[j + 1]);
        lemma_space_prefix_len_from_chars(rest, i - 1);
    }
}

proof fn lemma_space_suffix_len_from_chars(s: Seq<char>, i: int)
    requires
        0 <= i <= s.len(),
        forall|j: int| s.len() - i <= j < s.len() ==> is_space(s[j]),
        i < s.len() ==> !is_space(s[s.len() - i - 1]),
    ensures
        space_suffix_len(s) == i,
    decreases s.len(),
{
    if s.len() == 0 || !is_space(s.last()) {
    } else {
        let rest = s.drop_last();
        assert(forall|j: int| 0 <= j < rest.len() ==> rest[j] == s[j]);
        lemma_space_suffix_len_from_chars(rest, i - 1);
    }
}

/// Trims whitespace from both ends of `s`.
#[verifier::loop_isolation(false)]
pub fn trim_str(s: &str) -> (r: String)
    ensures
        r@ == trim_chars(s@),
{
    let len = s.unicode_len();
    let mut start: usize = 0;
    while start < len && is_space_exec(s.get_char(start))
        invariant
            start <= len,
            forall|j: int| 0 <= j < start ==> is_space(s@[j]),
        decreases len - start,
    {
        start = start + 1;
    }
    if start == len {
        proof {
            lemma_space_prefix_len_from_chars(s@, len as int);
        }
        return String::new();
    }
    proof {
        lemma_space_prefix_len_from_chars(s@, start as int);
    }
    let mut end: usize = len;
    while end > start && is_space_exec(s.get_char(end - 1))
        invariant
            start < end <= len,
            forall|j: int| end <= j < len ==> is_space(s@[j]),
        decreases end,
    {
        end = end - 1;
        proof {
            if end == start {
                assert(!is_space(s@[start as int]));
                assert(false);
            }
        }
    }
    proof {
        lemma_space_suffix_len_from_chars(s@, (len - end) as int);
    }
    let sub = s.substring_char(start, end);
    String::from_str(sub)
}

/// The value of an optional string view, the empty sequence when absent.
pub open spec fn opt_or_empty(o: Option<Seq<char>>) -> Seq<char> {
    match o {
        Some(s) => s,
        None => Seq::empty(),
    }
}

/// Appends the value of an optional string, or nothing when absent.
fn append_opt_str(s: &mut String, o: &Option<String>)
    ensures
        final(s)@ == old(s)@ + opt_or_empty(o.deep_view()),
{
    match o {
        Some(t) => {
            s.append(t.as_str());
        },
        None => {
            proof {
                assert(final(s)@ =~= old(s)@ + opt_or_empty(o.deep_view()));
            }
        },
    }
}

/// The display name of a lane: first name, a space, last name, trimmed.
pub open spec fn display_name(first: Option<Seq<char>>, last: Option<Seq<char>>) -> Seq<char> {
    trim_chars(opt_or_empty(first) + seq![' '] + opt_or_empty(last))
}

/// Builds the display name of a lane from the competitor's optional names.
fn make_display_name(first: &Option<String>, last: &Option<String>) -> (r: String)
    ensures
        r@ == display_name(first.deep_view(), last.deep_view()),
{
    let mut s = String::new();
    append_opt_str(&mut s, first);
    push_char(&mut s, ' ');
    append_opt_str(&mut s, last);
    proof {
        assert(s@ =~= opt_or_empty(first.deep_view()) + seq![' '] + opt_or_empty(
            last.deep_view(),
        ));
    }
    trim_str(s.as_str())
}

/// The program item a race links to, if it resolves.
pub open spec fn prog_for_race(progs: Seq<ProgramItemView>, race: RaceView) -> Option<
    ProgramItemView,
> {
    find_program(progs, race.program_item_id)
}

/// The length rendered for a race: from its program item, 0 when the link or
/// the length is absent.
pub open spec fn race_length(prog: Option<ProgramItemView>) -> i32 {
    match prog {
        Some(p) => match p.length {
            Some(l) => l,
            None => 0,
        },
        None => 0,
    }
}

/// The track rendered for a race: from its program item, 100 when the link
/// is absent.
pub open spec fn race_track(prog: Option<ProgramItemView>) -> i32 {
    match prog {
        Some(p) => p.track,
        None => 100,
    }
}

/// The group label of a race's program item, if any.
pub open spec fn race_group(prog: Option<ProgramItemView>) -> Option<Seq<char>> {
    match prog {
        Some(p) => p.group,
        None => None,
    }
}

/// The competition entry a lane points to, if it resolves.
pub open spec fn cic_for_lane(cics: Seq<CompetitorInCompetitionView>, lane: LaneView) -> Option<
    CompetitorInCompetitionView,
> {
    find_cic(cics, lane.skater_in_competition_id)
}

/// The competitor behind a lane, reached through its competition entry's
/// registration code, if both resolve.
pub open spec fn comp_for_lane(
    cics: Seq<CompetitorInCompetitionView>,
    comps: Seq<CompetitorView>,
    lane: LaneView,
) -> Option<CompetitorView> {
    match cic_for_lane(cics, lane) {
        Some(c) => match c.competitor_id {
            Some(code) => find_competitor_by_code(comps, code),
            None => None,
        },
        None => None,
    }
}

/// The helmet id rendered for a lane: from its competition entry, 0 when
/// absent.
pub open spec fn lane_helmet(cic: Option<CompetitorInCompetitionView>) -> i32 {
    match cic {
        Some(c) => match c.helmet_id {
            Some(h) => h,
            None => 0,
        },
        None => 0,
    }
}

/// The lanes of one race, in source order.
pub open spec fn lanes_for_race(lanes: Seq<LaneView>, race_id: i32) -> Seq<LaneView> {
    lanes.filter(|l: LaneView| l.race_id == race_id)
}

/// The lanes of one race in output order: ascending by start position,
/// stably, lanes without a start position last.
pub open spec fn sorted_lanes_for_race(lanes: Seq<LaneView>, race_id: i32) -> Seq<LaneView> {
    sort_lanes_seq(lanes_for_race(lanes, race_id))
}

/// The concatenation of a sequence of character sequences, in order.
pub open spec fn concat_all(ss: Seq<Seq<char>>) -> Seq<char>
    decreases ss.len(),
{
    if ss.len() == 0 {
        Seq::empty()
    } else {
        concat_all(ss.drop_last()) + ss.last()
    }
}

/// The header line of a race's text block.
pub open spec fn evt_header_line(race: RaceView, prog: Option<ProgramItemView>) -> Seq<char> {
    race.name + (",1,01,")@ + race.name + (" ")@ + opt_or_empty(race_group(prog)) + (" ")@
        + dec_int(race_length(prog) as int) + ("m ")@ + dec_int(race_track(prog) as int) + (
    "m\n")@
}

/// One lane line of a race's text block. Every missing value renders as the
/// empty string, except the numeric helmet id, which renders as 0.
pub open spec fn evt_lane_line(
    lane: LaneView,
    cics: Seq<CompetitorInCompetitionView>,
    comps: Seq<CompetitorView>,
) -> Seq<char> {
    let cic = cic_for_lane(cics, lane);
    let comp = comp_for_lane(cics, comps, lane);
    (",")@ + dec_int(lane_helmet(cic) as int) + (",")@ + (match lane.start_position {
        Some(p) => dec_int(p as int),
        None => Seq::<char>::empty(),
    }) + (",")@ + opt_or_empty(
        match comp {
            Some(c) => c.last_name,
            None => None,
        },
    ) + (",")@ + opt_or_empty(
        match comp {
            Some(c) => c.first_name,
            None => None,
        },
    ) + (",")@ + opt_or_empty(
        match cic {
            Some(c) => c.affiliation,
            None => None,
        },
    ) + (",,")@ + opt_or_empty(
        match comp {
            Some(c) => c.id,
            None => None,
        },
    ) + ("\n")@
}

/// The lane lines of a race's text block, one per lane, in output order.
pub open spec fn evt_lane_lines_seq(
    sorted: Seq<LaneView>,
    cics: Seq<CompetitorInCompetitionView>,
    comps: Seq<CompetitorView>,
) -> Seq<Seq<char>> {
    sorted.map_values(|l: LaneView| evt_lane_line(l, cics, comps))
}

/// One race's text block: its header line, then its lane lines in output
/// order.
pub open spec fn evt_race_block(
    race: RaceView,
    progs: Seq<ProgramItemView>,
    lanes: Seq<LaneView>,
    cics: Seq<CompetitorInCompetitionView>,
    comps: Seq<CompetitorView>,
) -> Seq<char> {
    evt_header_line(race, prog_for_race(progs, race)) + concat_all(
        evt_lane_lines_seq(sorted_lanes_for_race(lanes, race.id), cics, comps),
    )
}

/// The text blocks of all races, one per race, in the given race order.
pub open spec fn evt_blocks_spec(
    races: Seq<RaceView>,
    progs: Seq<ProgramItemView>,
    lanes: Seq<LaneView>,
    cics: Seq<CompetitorInCompetitionView>,
    comps: Seq<CompetitorView>,
) -> Seq<Seq<char>> {
    races.map_values(|r: RaceView| evt_race_block(r, progs, lanes, cics, comps))
}

/// The whole text output: one block per race, in the given race order.
pub open spec fn evt_text_spec(
    races: Seq<RaceView>,
    progs: Seq<ProgramItemView>,
    lanes: Seq<LaneView>,
    cics: Seq<CompetitorInCompetitionView>,
    comps: Seq<CompetitorView>,
) -> Seq<char> {
    concat_all(evt_blocks_spec(races, progs, lanes, cics, comps))
}

/// Clones a lane; the clone carries the same value.
fn clone_lane(l: &Lane) -> (r: Lane)
    ensures
        r == *l,
{
    Lane {
        id: l.id,
        race_id: l.race_id,
        skater_in_competition_id: l.skater_in_competition_id,
        skater_upid: clone_opt_string(&l.skater_upid),
        time: clone_opt_string(&l.time),
        position: l.position,
        start_position: l.start_position,
    }
}

/// Collects the lanes of one race, in source order.
#[verifier::loop_isolation(false)]
fn collect_race_lanes(lanes: &Vec<Lane>, race_id: i32) -> (r: Vec<Lane>)
    ensures
        r.deep_view() == lanes_for_race(lanes.deep_view(), race_id),
{
    let ghost lv = lanes.deep_view();
    let ghost pred = |l: LaneView| l.race_id == race_id;
    let mut out: Vec<Lane> = Vec::new();
    proof {
        reveal(Seq::filter);
        assert(out.deep_view() =~= lv.take(0).filter(pred));
    }
    let mut i: usize = 0;
    while i < lanes.len()
        invariant
            i <= lanes.len(),
            out.deep_view() == lv.take(i as int).filter(pred),
        decreases lanes.len() - i,
    {
        if lanes[i].race_id == race_id {
            out.push(clone_lane(&lanes[i]));
        }
        proof {
            reveal(Seq::filter);
            assert(lv.take(i + 1).drop_last() =~= lv.take(i as int));
            assert(lv.take(i + 1).last() == lv[i as int]);
            assert(out.deep_view() =~= lv.take(i + 1).filter(pred));
        }
        i = i + 1;
    }
    proof {
        assert(lv.take(lv.len() as int) =~= lv);
    }
    out
}

/// The lanes of one race, in output order.
fn sorted_race_lanes(lanes: &Vec<Lane>, race_id: i32) -> (r: Vec<Lane>)
    ensures
        r.deep_view() == sorted_lanes_for_race(lanes.deep_view(), race_id),
{
    let mut rl = collect_race_lanes(lanes, race_id);
    sort_lanes(&mut rl);
    rl
}

/// Appends a race's header line to the text.
fn push_evt_header(text: &mut String, race: &Race, programs: &Vec<ProgramItem>)
    ensures
        final(text)@ == old(text)@ + evt_header_line(
            race.deep_view(),
            prog_for_race(programs.deep_view(), race.deep_view()),
        ),
{
    let (group, length, track) = match find_program_idx(programs, race.program_item_id) {
        Some(pi) => (
            clone_opt_string(&programs[pi].group),
            match programs[pi].length {
                Some(l) => l,
                None => 0,
            },
            programs[pi].track,
        ),
        None => (None, 0, 100),
    };
    text.append(race.name.as_str());
    text.append(",1,01,");
    text.append(race.name.as_str());
    text.append(" ");
    append_opt_str(text, &group);
    text.append(" ");
    push_i32_dec(text, length);
    text.append("m ");
    push_i32_dec(text, track);
    text.append("m\n");
    proof {
        assert(final(text)@ =~= old(text)@ + evt_header_line(
            race.deep_view(),
            prog_for_race(programs.deep_view(), race.deep_view()),
        ));
    }
}

/// Appends one lane line to the text.
#[verifier::rlimit(50)]
fn push_evt_lane_line(
    text: &mut String,
    lane: &Lane,
    competitors_in_comp: &Vec<CompetitorInCompetition>,
    competitors: &Vec<Competitor>,
)
    ensures
        final(text)@ == old(text)@ + evt_lane_line(
            lane.deep_view(),
            competitors_in_comp.deep_view(),
            competitors.deep_view(),
        ),
{
    let cic_idx = find_cic_idx(competitors_in_comp, lane.skater_in_competition_id);
    let (helmet, affiliation) = match cic_idx {
        Some(ci) => (
            match competitors_in_comp[ci].helmet_id {
                Some(h) => h,
                None => 0,
            },
            clone_opt_string(&competitors_in_comp[ci].affiliation),
        ),
        None => (0, None),
    };
    let comp_idx = match cic_idx {
        Some(ci) => match &competitors_in_comp[ci].competitor_id {
            Some(code) => find_competitor_by_code_idx(competitors, code),
            None => None,
        },
        None => None,
    };
    let (first, last, code) = match comp_idx {
        Some(ki) => (
            clone_opt_string(&competitors[ki].first_name),
            clone_opt_string(&competitors[ki].last_name),
            clone_opt_string(&competitors[ki].id),
        ),
        None => (None, None, None),
    };
    let ghost base = text@;
    let ghost cic = cic_for_lane(competitors_in_comp.deep_view(), lane.deep_view());
    let ghost comp = comp_for_lane(
        competitors_in_comp.deep_view(),
        competitors.deep_view(),
        lane.deep_view(),
    );
    let ghost p1 = (",")@ + dec_int(lane_helmet(cic) as int);
    let ghost p2 = p1 + (",")@ + (match lane.deep_view().start_position {
        Some(p) => dec_int(p as int),
        None => Seq::<char>::empty(),
    });
    let ghost p3 = p2 + (",")@ + opt_or_empty(
        match comp {
            Some(c) => c.last_name,
            None => None,
        },
    );
    let ghost p4 = p3 + (",")@ + opt_or_empty(
        match comp {
            Some(c) => c.first_name,
            None => None,
        },
    );
    let ghost p5 = p4 + (",")@ + opt_or_empty(
        match cic {
            Some(c) => c.affiliation,
            None => None,
        },
    );
    let ghost p6 = p5 + (",,")@ + opt_or_empty(
        match comp {
            Some(c) => c.id,
            None => None,
        },
    );
    text.append(",");
    push_i32_dec(text, helmet);
    proof {
        assert(helmet as int == lane_helmet(cic));
        assert(text@ =~= base + p1);
    }
    text.append(",");
    match lane.start_position {
        Some(p) => {
            push_i32_dec(text, p);
        },
        None => {},
    }
    proof {
        assert(text@ =~= base + p2);
    }
    text.append(",");
    append_opt_str(text, &last);
    proof {
        assert(text@ =~= base + p3);
    }
    text.append(",");
    append_opt_str(text, &first);
    proof {
        assert(text@ =~= base + p4);
    }
    text.append(",");
    append_opt_str(text, &affiliation);
    proof {
        assert(text@ =~= base + p5);
    }
    text.append(",,");
    append_opt_str(text, &code);
    proof {
        assert(text@ =~= base + p6);
    }
    text.append("\n");
    proof {
        assert(evt_lane_line(
            lane.deep_view(),
            competitors_in_comp.deep_view(),
            competitors.deep_view(),
        ) =~= p6 + ("\n")@);
        assert(final(text)@ =~= base + (p6 + ("\n")@));
    }
}

/// Renders the legacy text output: one block per race, in the given race
/// order, each block a header line and the race's lane lines in output
/// order.
#[verifier::loop_isolation(false)]
pub fn generate_evt_text(
    races: &Vec<Race>,
    programs: &Vec<ProgramItem>,
    lanes: &Vec<Lane>,
    competitors: &Vec<Competitor>,
    competitors_in_comp: &Vec<CompetitorInCompetition>,
) -> (text: String)
    ensures
        text@ == evt_text_spec(
            races.deep_view(),
            programs.deep_view(),
            lanes.deep_view(),
            competitors_in_comp.deep_view(),
            competitors.deep_view(),
        ),
{
    let ghost rv = races.deep_view();
    let ghost pv = programs.deep_view();
    let ghost lv = lanes.deep_view();
    let ghost cicv = competitors_in_comp.deep_view();
    let ghost cv = competitors.deep_view();
    let ghost blockf = |r: RaceView| evt_race_block(r, pv, lv, cicv, cv);
    let mut text = String::new();
    proof {
        assert(text@ =~= concat_all(rv.take(0).map_values(blockf)));
    }
    let mut i: usize = 0;
    while i < races.len()
        invariant
            i <= races.len(),
            text@ == concat_all(rv.take(i as int).map_values(blockf)),
        decreases races.len() - i,
    {
        let race = &races[i];
        let ghost base = text@;
        push_evt_header(&mut text, race, programs);
        let rl = sorted_race_lanes(lanes, race.id);
        let ghost sorted = rl.deep_view();
        let ghost linef = |l: LaneView| evt_lane_line(l, cicv, cv);
        proof {
            assert(text@ =~= base + evt_header_line(rv[i as int], prog_for_race(pv, rv[i as int]))
                + concat_all(sorted.take(0).map_values(linef)));
        }
        let mut j: usize = 0;
        while j < rl.len()
            invariant
                j <= rl.len(),
                text@ == base + evt_header_line(rv[i as int], prog_for_race(pv, rv[i as int]))
                    + concat_all(sorted.take(j as int).map_values(linef)),
            decreases rl.len() - j,
        {
            push_evt_lane_line(&mut text, &rl[j], competitors_in_comp, competitors);
            proof {
                assert(sorted.take(j + 1).map_values(linef).drop_last() =~= sorted.take(
                    j as int,
                ).map_values(linef));
                assert(sorted.take(j + 1).map_values(linef).last() == evt_lane_line(
                    sorted[j as int],
                    cicv,
                    cv,
                ));
                assert(text@ =~= base + evt_header_line(
                    rv[i as int],
                    prog_for_race(pv, rv[i as int]),
                ) + concat_all(sorted.take(j + 1).map_values(linef)));
            }
            j = j + 1;
        }
        proof {
            assert(sorted.take(sorted.len() as int) =~= sorted);
            assert(sorted.map_values(linef) =~= evt_lane_lines_seq(
                sorted_lanes_for_race(lv, rv[i as int].id),
                cicv,
                cv,
            ));
            assert(text@ =~= base + evt_race_block(rv[i as int], pv, lv, cicv, cv));
            assert(rv.take(i + 1).map_values(blockf).drop_last() =~= rv.take(i as int).map_values(
                blockf,
            ));
            assert(rv.take(i + 1).map_values(blockf).last() == evt_race_block(
                rv[i as int],
                pv,
                lv,
                cicv,
                cv,
            ));
            assert(text@ =~= concat_all(rv.take(i + 1).map_values(blockf)));
        }
        i = i + 1;
    }
    proof {
        assert(rv.take(rv.len() as int) =~= rv);
        assert(rv.map_values(blockf) =~= races.deep_view().map_values(blockf));
    }
    text
}

/// One lane of the JSON document, as derived from the joined model: the
/// lane's own start position, its entry's helmet id and affiliation, the
/// competitor's names and registration code, a trimmed display name, and the
/// configured logo path templated around the affiliation.
pub open spec fn json_lane_spec(
    lane: LaneView,
    cics: Seq<CompetitorInCompetitionView>,
    comps: Seq<CompetitorView>,
    url_prefix: Seq<char>,
    url_suffix: Seq<char>,
) -> JsonLaneView {
    let cic = cic_for_lane(cics, lane);
    let comp = comp_for_lane(cics, comps, lane);
    let first = match comp {
        Some(c) => c.first_name,
        None => None,
    };
    let last = match comp {
        Some(c) => c.last_name,
        None => None,
    };
    let aff = match cic {
        Some(c) => c.affiliation,
        None => None,
    };
    JsonLaneView {
        start_position: lane.start_position,
        helmet_id: match cic {
            Some(c) => c.helmet_id,
            None => None,
        },
        name: display_name(first, last),
        affiliation_url: url_prefix + opt_or_empty(aff) + url_suffix,
        last_name: last,
        first_name: first,
        affiliation: aff,
        competitor_id: match comp {
            Some(c) => c.id,
            None => None,
        },
    }
}

/// The lane objects of one race, in output order.
pub open spec fn json_lanes_spec(
    sorted: Seq<LaneView>,
    cics: Seq<CompetitorInCompetitionView>,
    comps: Seq<CompetitorView>,
    url_prefix: Seq<char>,
    url_suffix: Seq<char>,
) -> Seq<JsonLaneView> {
    sorted.map_values(|l: LaneView| json_lane_spec(l, cics, comps, url_prefix, url_suffix))
}

/// The human-readable title of a race.
pub open spec fn race_title(race: RaceView, prog: Option<ProgramItemView>) -> Seq<char> {
    race.name + (" - ")@ + dec_int(race_length(prog) as int) + ("m  ")@ + opt_or_empty(
        race_group(prog),
    ) + (" (")@ + dec_int(race_track(prog) as int) + ("m)")@
}

/// One race of the JSON document: name, title, event string, integer heat,
/// optional group and length, track, and its lane objects in output order.
pub open spec fn json_race_spec(
    race: RaceView,
    progs: Seq<ProgramItemView>,
    lanes: Seq<LaneView>,
    cics: Seq<CompetitorInCompetitionView>,
    comps: Seq<CompetitorView>,
    url_prefix: Seq<char>,
    url_suffix: Seq<char>,
) -> JsonRaceView {
    let prog = prog_for_race(progs, race);
    JsonRaceView {
        name: race.name,
        title: race_title(race, prog),
        event: event_part(race.name),
        heat: letter_num(heat_part(race.name)) as i32,
        group: race_group(prog),
        length: match prog {
            Some(p) => p.length,
            None => None,
        },
        track: race_track(prog),
        lanes: json_lanes_spec(
            sorted_lanes_for_race(lanes, race.id),
            cics,
            comps,
            url_prefix,
            url_suffix,
        ),
    }
}

/// The whole JSON document: one race object per race, in the given order.
pub open spec fn json_races_spec(
    races: Seq<RaceView>,
    progs: Seq<ProgramItemView>,
    lanes: Seq<LaneView>,
    cics: Seq<CompetitorInCompetitionView>,
    comps: Seq<CompetitorView>,
    url_prefix: Seq<char>,
    url_suffix: Seq<char>,
) -> Seq<JsonRaceView> {
    races.map_values(
        |r: RaceView| json_race_spec(r, progs, lanes, cics, comps, url_prefix, url_suffix),
    )
}

/// Builds one lane object.
#[verifier::rlimit(50)]
fn make_json_lane(
    lane: &Lane,
    competitors_in_comp: &Vec<CompetitorInCompetition>,
    competitors: &Vec<Competitor>,
    url_prefix: &str,
    url_suffix: &str,
) -> (r: JsonLane)
    ensures
        r.deep_view() == json_lane_spec(
            lane.deep_view(),
            competitors_in_comp.deep_view(),
            competitors.deep_view(),
            url_prefix@,
            url_suffix@,
        ),
{
    let cic_idx = find_cic_idx(competitors_in_comp, lane.skater_in_competition_id);
    let (helmet_id, affiliation) = match cic_idx {
        Some(ci) => (
            competitors_in_comp[ci].helmet_id,
            clone_opt_string(&competitors_in_comp[ci].affiliation),
        ),
        None => (None, None),
    };
    let comp_idx = match cic_idx {
        Some(ci) => match &competitors_in_comp[ci].competitor_id {
            Some(code) => find_competitor_by_code_idx(competitors, code),
            None => None,
        },
        None => None,
    };
    let (first, last, code) = match comp_idx {
        Some(ki) => (
            clone_opt_string(&competitors[ki].first_name),
            clone_opt_string(&competitors[ki].last_name),
            clone_opt_string(&competitors[ki].id),
        ),
        None => (None, None, None),
    };
    let name = make_display_name(&first, &last);
    let mut url = String::new();
    url.append(url_prefix);
    append_opt_str(&mut url, &affiliation);
    url.append(url_suffix);
    proof {
        assert(url@ =~= url_prefix@ + opt_or_empty(affiliation.deep_view()) + url_suffix@);
    }
    JsonLane {
        start_position: lane.start_position,
        helmet_id,
        name,
        affiliation_url: url,
        last_name: last,
        first_name: first,
        affiliation,
        competitor_id: code,
    }
}

/// Builds the human-readable title of a race.
fn make_title(race: &Race, length: i32, track: i32, group: &Option<String>) -> (r: String)
    ensures
        r@ == race.deep_view().name + (" - ")@ + dec_int(length as int) + ("m  ")@ + opt_or_empty(
            group.deep_view(),
        ) + (" (")@ + dec_int(track as int) + ("m)")@,
{
    let mut s = String::new();
    s.append(race.name.as_str());
    s.append(" - ");
    push_i32_dec(&mut s, length);
    let ghost p1 = race.deep_view().name + (" - ")@ + dec_int(length as int);
    proof {
        assert(s@ =~= p1);
    }
    s.append("m  ");
    append_opt_str(&mut s, group);
    let ghost p2 = p1 + ("m  ")@ + opt_or_empty(group.deep_view());
    proof {
        assert(s@ =~= p2);
    }
    s.append(" (");
    push_i32_dec(&mut s, track);
    s.append("m)");
    proof {
        assert(s@ =~= p2 + (" (")@ + dec_int(track as int) + ("m)")@);
    }
    s
}

/// Renders the JSON document model: one race object per race, in the given
/// race order, each with its lane objects in output order. The logo path is
/// templated around each lane's affiliation as
/// `url_prefix + affiliation + url_suffix`, both ends supplied by the caller
/// as configuration.
#[verifier::loop_isolation(false)]
pub fn generate_race_json(
    races: &Vec<Race>,
    programs: &Vec<ProgramItem>,
    lanes: &Vec<Lane>,
    competitors: &Vec<Competitor>,
    competitors_in_comp: &Vec<CompetitorInCompetition>,
    url_prefix: &str,
    url_suffix: &str,
) -> (result: Vec<JsonRace>)
    ensures
        result.deep_view() == json_races_spec(
            races.deep_view(),
            programs.deep_view(),
            lanes.deep_view(),
            competitors_in_comp.deep_view(),
            competitors.deep_view(),
            url_prefix@,
            url_suffix@,
        ),
{
    let ghost rv = races.deep_view();
    let ghost pv = programs.deep_view();
    let ghost lv = lanes.deep_view();
    let ghost cicv = competitors_in_comp.deep_view();
    let ghost cv = competitors.deep_view();
    let ghost racef = |r: RaceView| json_race_spec(r, pv, lv, cicv, cv, url_prefix@, url_suffix@);
    let mut out: Vec<JsonRace> = Vec::new();
    proof {
        assert(out.deep_view() =~= rv.take(0).map_values(racef));
    }
    let mut i: usize = 0;
    while i < races.len()
        invariant
            i <= races.len(),
            out.deep_view() == rv.take(i as int).map_values(racef),
        decreases races.len() - i,
    {
        let race = &races[i];
        let (group, length, track) = match find_program_idx(programs, race.program_item_id) {
            Some(pi) => (
                clone_opt_string(&programs[pi].group),
                programs[pi].length,
                programs[pi].track,
            ),
            None => (None, None, 100),
        };
        let length_val = match length {
            Some(l) => l,
            None => 0,
        };
        let title = make_title(race, length_val, track, &group);
        let event = event_of(race.name.as_str());
        let heat = heat_of(race.name.as_str());
        let rl = sorted_race_lanes(lanes, race.id);
        let ghost sorted = rl.deep_view();
        let ghost lanef = |l: LaneView| json_lane_spec(l, cicv, cv, url_prefix@, url_suffix@);
        let mut jlanes: Vec<JsonLane> = Vec::new();
        proof {
            assert(jlanes.deep_view() =~= sorted.take(0).map_values(lanef));
        }
        let mut j: usize = 0;
        while j < rl.len()
            invariant
                j <= rl.len(),
                jlanes.deep_view() == sorted.take(j as int).map_values(lanef),
            decreases rl.len() - j,
        {
            let jl = make_json_lane(
                &rl[j],
                competitors_in_comp,
                competitors,
                url_prefix,
                url_suffix,
            );
            proof {
                assert(jl.deep_view() == lanef(sorted[j as int]));
                assert(sorted.take(j + 1).map_values(lanef).drop_last() =~= sorted.take(
                    j as int,
                ).map_values(lanef));
                assert(sorted.take(j + 1).map_values(lanef).last() == lanef(sorted[j as int]));
            }
            let ghost prevl = jlanes@;
            let ghost prevdv = jlanes.deep_view();
            jlanes.push(jl);
            proof {
                assert(forall|k: int| 0 <= k < prevl.len() ==> prevdv[k] == prevl[
                    k
                ].deep_view());
                assert(forall|k: int|
                    0 <= k < prevl.len() ==> jlanes.deep_view()[k] == prevdv[k]);
                assert(jlanes.deep_view().len() == j + 1);
                assert forall|k: int|
                    0 <= k < j + 1 implies jlanes.deep_view()[k] == sorted.take(
                    j + 1,
                ).map_values(lanef)[k] by {
                    assert(sorted.take(j + 1).map_values(lanef)[k] == lanef(sorted.take(j + 1)[k]));
                    assert(sorted.take(j + 1)[k] == sorted[k]);
                    if k < j {
                        assert(jlanes.deep_view()[k] == prevdv[k]);
                        assert(prevdv[k] == sorted.take(j as int).map_values(lanef)[k]);
                        assert(sorted.take(j as int).map_values(lanef)[k] == lanef(
                            sorted.take(j as int)[k],
                        ));
                        assert(sorted.take(j as int)[k] == sorted[k]);
                    } else {
                        assert(jlanes@[k] == jl);
                    }
                }
                assert(jlanes.deep_view() =~= sorted.take(j + 1).map_values(lanef));
            }
            j = j + 1;
        }
        let jr = JsonRace {
            name: race.name.clone(),
            title,
            event,
            heat,
            group,
            length,
            track,
            lanes: jlanes,
        };
        proof {
            assert(sorted.take(sorted.len() as int) =~= sorted);
            assert(jr.deep_view().lanes =~= json_lanes_spec(
                sorted_lanes_for_race(lv, rv[i as int].id),
                cicv,
                cv,
                url_prefix@,
                url_suffix@,
            ));
            assert(jr.deep_view() == racef(rv[i as int]));
        }
        proof {
            assert(rv.take(i + 1).map_values(racef).drop_last() =~= rv.take(i as int).map_values(
                racef,
            ));
            assert(rv.take(i + 1).map_values(racef).last() == racef(rv[i as int]));
        }
        let ghost prevo = out@;
        let ghost prevodv = out.deep_view();
        out.push(jr);
        proof {
            assert(forall|k: int| 0 <= k < prevo.len() ==> prevodv[k] == prevo[k].deep_view());
            assert(forall|k: int| 0 <= k < prevo.len() ==> out.deep_view()[k] == prevodv[k]);
            assert(out.deep_view().len() == i + 1);
            assert forall|k: int|
                0 <= k < i + 1 implies out.deep_view()[k] == rv.take(i + 1).map_values(
                racef,
            )[k] by {
                assert(rv.take(i + 1).map_values(racef)[k] == racef(rv.take(i + 1)[k]));
                assert(rv.take(i + 1)[k] == rv[k]);
                if k < i {
                    assert(out.deep_view()[k] == prevodv[k]);
                    assert(prevodv[k] == rv.take(i as int).map_values(racef)[k]);
                    assert(rv.take(i as int).map_values(racef)[k] == racef(rv.take(i as int)[k]));
                    assert(rv.take(i as int)[k] == rv[k]);
                } else {
                    assert(out@[k] == jr);
                }
            }
            assert(out.deep_view() =~= rv.take(i + 1).map_values(racef));
        }
        i = i + 1;
    }
    proof {
        assert(rv.take(rv.len() as int) =~= rv);
    }
    out
}

/// Renders both outputs from one joined, sequenced model. Their consistency
/// is stated by `lemma_outputs_same_races` and
/// `lemma_race_lane_order_consistent` below: both enumerate the same races in
/// the same order and, within each race, the same lanes in the same order.
pub fn render_outputs(data: &RaceData, url_prefix: &str, url_suffix: &str) -> (r: (
    String,
    Vec<JsonRace>,
))
    ensures
        r.0@ == evt_text_spec(
            data.races.deep_view(),
            data.programs.deep_view(),
            data.lanes.deep_view(),
            data.competitors_in_comp.deep_view(),
            data.competitors.deep_view(),
        ),
        r.1.deep_view() == json_races_spec(
            data.races.deep_view(),
            data.programs.deep_view(),
            data.lanes.deep_view(),
            data.competitors_in_comp.deep_view(),
            data.competitors.deep_view(),
            url_prefix@,
            url_suffix@,
        ),
{
    let text = generate_evt_text(
        &data.races,
        &data.programs,
        &data.lanes,
        &data.competitors,
        &data.competitors_in_comp,
    );
    let json = generate_race_json(
        &data.races,
        &data.programs,
        &data.lanes,
        &data.competitors,
        &data.competitors_in_comp,
        url_prefix,
        url_suffix,
    );
    (text, json)
}

/// Both outputs enumerate the same races in the same order: entry `i` of the
/// JSON document and block `i` of the text are rendered from `races[i]`.
pub proof fn lemma_outputs_same_races(
    races: Seq<RaceView>,
    progs: Seq<ProgramItemView>,
    lanes: Seq<LaneView>,
    cics: Seq<CompetitorInCompetitionView>,
    comps: Seq<CompetitorView>,
    url_prefix: Seq<char>,
    url_suffix: Seq<char>,
)
    ensures
        json_races_spec(races, progs, lanes, cics, comps, url_prefix, url_suffix).len()
            == races.len(),
        forall|i: int|
            0 <= i < races.len() ==> #[trigger] json_races_spec(
                races,
                progs,
                lanes,
                cics,
                comps,
                url_prefix,
                url_suffix,
            )[i] == json_race_spec(races[i], progs, lanes, cics, comps, url_prefix, url_suffix),
        evt_blocks_spec(races, progs, lanes, cics, comps).len() == races.len(),
        forall|i: int|
            0 <= i < races.len() ==> #[trigger] evt_blocks_spec(races, progs, lanes, cics, comps)[i]
                == evt_race_block(races[i], progs, lanes, cics, comps),
        evt_text_spec(races, progs, lanes, cics, comps) == concat_all(
            evt_blocks_spec(races, progs, lanes, cics, comps),
        ),
{
}

/// Within one race, both outputs list the same lanes in the same order: the
/// `j`-th lane object of the race's JSON entry and the `j`-th lane line of
/// its text block are both rendered from the `j`-th element of the one
/// ordered lane sequence `sorted_lanes_for_race(lanes, race.id)`.
pub proof fn lemma_race_lane_order_consistent(
    race: RaceView,
    progs: Seq<ProgramItemView>,
    lanes: Seq<LaneView>,
    cics: Seq<CompetitorInCompetitionView>,
    comps: Seq<CompetitorView>,
    url_prefix: Seq<char>,
    url_suffix: Seq<char>,
)
    ensures
        json_race_spec(race, progs, lanes, cics, comps, url_prefix, url_suffix).name == race.name,
        json_race_spec(race, progs, lanes, cics, comps, url_prefix, url_suffix).lanes.len()
            == sorted_lanes_for_race(lanes, race.id).len(),
        evt_lane_lines_seq(sorted_lanes_for_race(lanes, race.id), cics, comps).len()
            == sorted_lanes_for_race(lanes, race.id).len(),
        forall|j: int|
            0 <= j < sorted_lanes_for_race(lanes, race.id).len() ==> #[trigger] json_race_spec(
                race,
                progs,
                lanes,
                cics,
                comps,
                url_prefix,
                url_suffix,
            ).lanes[j] == json_lane_spec(
                sorted_lanes_for_race(lanes, race.id)[j],
                cics,
                comps,
                url_prefix,
                url_suffix,
            ),
        forall|j: int|
            0 <= j < sorted_lanes_for_race(lanes, race.id).len() ==> #[trigger] evt_lane_lines_seq(
                sorted_lanes_for_race(lanes, race.id),
                cics,
                comps,
            )[j] == evt_lane_line(sorted_lanes_for_race(lanes, race.id)[j], cics, comps),
        evt_race_block(race, progs, lanes, cics, comps) == evt_header_line(
            race,
            prog_for_race(progs, race),
        ) + concat_all(evt_lane_lines_seq(sorted_lanes_for_race(lanes, race.id), cics, comps)),
{
}

} // verus!
