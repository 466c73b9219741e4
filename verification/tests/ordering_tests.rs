use core::cmp::Ordering;
use gcpv_lynx_export::model::Race;
use gcpv_lynx_export::sequence::{race_compare, sort_races};

fn race(id: i32, name: &str) -> Race {
    Race {
        id,
        name: name.to_string(),
        distance: None,
        track: 100,
        program_item_id: 0,
        sequence: None,
        round: None,
    }
}

#[test]
fn numeric_prefix_dominates() {
    assert_eq!(race_compare(&race(1, "2A"), &race(2, "10B")), Ordering::Less);
    assert_eq!(race_compare(&race(1, "10B"), &race(2, "2A")), Ordering::Greater);
}

#[test]
fn name_breaks_numeric_ties() {
    assert_eq!(race_compare(&race(1, "2A"), &race(2, "2B")), Ordering::Less);
    assert_eq!(race_compare(&race(1, "2B"), &race(2, "2B")), Ordering::Equal);
}

#[test]
fn races_sort_numerically_then_by_name() {
    let mut races = vec![race(1, "2A"), race(2, "10B"), race(3, "2B")];
    sort_races(&mut races);
    let names: Vec<&str> = races.iter().map(|r| r.name.as_str()).collect();
    assert_eq!(names, vec!["2A", "2B", "10B"]);
}

#[test]
fn sort_is_stable_for_equal_names() {
    let mut races = vec![race(7, "1A"), race(3, "1A"), race(9, "1A")];
    sort_races(&mut races);
    let ids: Vec<i32> = races.iter().map(|r| r.id).collect();
    assert_eq!(ids, vec![7, 3, 9]);
}

#[test]
fn empty_and_letter_names_key_as_zero() {
    let mut races = vec![race(1, "1A"), race(2, ""), race(3, "B")];
    sort_races(&mut races);
    let names: Vec<&str> = races.iter().map(|r| r.name.as_str()).collect();
    assert_eq!(names, vec!["", "B", "1A"]);
}

#[test]
fn oversized_numeric_prefixes_still_compare_numerically() {
    assert_eq!(race_compare(&race(1, "9999999999"), &race(2, "2")), Ordering::Greater);
    let mut races = vec![race(1, "9999999999A"), race(2, "2B")];
    sort_races(&mut races);
    let names: Vec<&str> = races.iter().map(|r| r.name.as_str()).collect();
    assert_eq!(names, vec!["2B", "9999999999A"]);
}
