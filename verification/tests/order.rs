use dcs::score::SIGN_BIT;
use dcs::sorted_set::Member;
use dcs::text::compare;
use dcs::text::Place;
use dcs::Score;
use dcs::SortedSet;
use dcs::SortedSets;

fn score(x: f64) -> Score {
    Score::from_bits(x.to_bits())
}

fn listing(members: &Vec<Member>) -> Vec<(f64, String)> {
    let mut out = Vec::new();
    for m in members {
        out.push((f64::from_bits(m.score.to_bits()), m.name.clone()));
    }
    out
}

#[test]
fn strings_compare_by_their_bytes() {
    assert_eq!(compare("a", "b"), Place::Before);
    assert_eq!(compare("b", "a"), Place::After);
    assert_eq!(compare("a", "a"), Place::Same);
    assert_eq!(compare("", ""), Place::Same);
    assert_eq!(compare("", "a"), Place::Before);
    assert_eq!(compare("a", ""), Place::After);
    assert_eq!(compare("abc", "abd"), Place::Before);
    assert_eq!(compare("ab", "abc"), Place::Before);
    assert_eq!(compare("abc", "ab"), Place::After);
    assert_eq!(compare("Z", "a"), Place::Before);
    assert_eq!(compare("z", "\u{e9}"), Place::Before);
    assert_eq!(compare("\u{e9}", "z"), Place::After);
    assert_eq!(compare("\u{ffff}", "\u{10000}"), Place::Before);
}

#[test]
fn compare_agrees_with_the_standard_order() {
    let words = ["", "a", "ab", "b", "ba", "\u{e9}", "\u{10000}", "zz", "A"];
    for x in words {
        for y in words {
            let expected = if x < y {
                Place::Before
            } else if x == y {
                Place::Same
            } else {
                Place::After
            };
            assert_eq!(compare(x, y), expected);
        }
    }
}

#[test]
fn the_key_of_a_score_is_its_rank() {
    assert_eq!(SIGN_BIT, 0x8000_0000_0000_0000);
    assert_eq!(Score::from_bits(0).key(), 0x8000_0000_0000_0000);
    assert_eq!(Score::from_bits(1).key(), 0x8000_0000_0000_0001);
    assert_eq!(Score::from_bits(0x7fff_ffff_ffff_ffff).key(), u64::MAX);
    assert_eq!(Score::from_bits(0x8000_0000_0000_0000).key(), 0x7fff_ffff_ffff_ffff);
    assert_eq!(Score::from_bits(u64::MAX).key(), 0);
    assert_eq!(score(1.0).key(), 0xbff0_0000_0000_0000);
    assert_eq!(score(-1.0).key(), 0x400f_ffff_ffff_ffff);
    assert_eq!(score(1.0).to_bits(), 0x3ff0_0000_0000_0000);
}

#[test]
fn keys_ascend_with_the_numbers() {
    let numbers = [
        f64::NEG_INFINITY,
        -1.0e300,
        -2.0,
        -1.0,
        -1.0e-300,
        -0.0,
        0.0,
        1.0e-300,
        0.5,
        1.0,
        2.0,
        1.0e300,
        f64::INFINITY,
    ];
    for i in 0..numbers.len() {
        for j in 0..numbers.len() {
            assert_eq!(score(numbers[i]).key() < score(numbers[j]).key(), i < j);
            assert_eq!(
                score(numbers[i]).key() < score(numbers[j]).key(),
                numbers[i].total_cmp(&numbers[j]).is_lt()
            );
        }
    }
    assert!(score(f64::INFINITY).key() < score(f64::NAN).key());
}

#[test]
fn members_stand_by_score_then_by_name() {
    let mut set = SortedSet::new();
    set.add(score(2.0), "c".to_string());
    set.add(score(2.0), "a".to_string());
    set.add(score(1.0), "b".to_string());
    set.add(score(-1.0), "z".to_string());
    set.add(score(2.0), "b2".to_string());
    assert_eq!(set.len(), 5);
    assert_eq!(
        listing(&set.members()),
        vec![
            (-1.0, "z".to_string()),
            (1.0, "b".to_string()),
            (2.0, "a".to_string()),
            (2.0, "b2".to_string()),
            (2.0, "c".to_string()),
        ]
    );
    assert_eq!(set.score("a"), Some(score(2.0)));
    assert_eq!(set.score("nobody"), None);
}

#[test]
fn a_new_score_moves_the_member() {
    let mut set = SortedSet::new();
    set.add(score(1.0), "a".to_string());
    set.add(score(2.0), "b".to_string());
    set.add(score(3.0), "c".to_string());
    set.add(score(2.5), "a".to_string());
    assert_eq!(
        listing(&set.members()),
        vec![(2.0, "b".to_string()), (2.5, "a".to_string()), (3.0, "c".to_string())]
    );
    set.add(score(2.5), "a".to_string());
    assert_eq!(set.len(), 3);
    assert_eq!(set.remove("b"), true);
    assert_eq!(set.remove("b"), false);
    assert_eq!(
        listing(&set.members()),
        vec![(2.5, "a".to_string()), (3.0, "c".to_string())]
    );
    assert_eq!(set.score("b"), None);
    assert_eq!(set.score("a"), Some(score(2.5)));
}

#[test]
fn sorted_sets_keep_their_order_per_key() {
    let mut zsets = SortedSets::new();
    zsets.add("k".to_string(), score(0.0), "plus".to_string());
    zsets.add("k".to_string(), score(-0.0), "minus".to_string());
    zsets.add("k".to_string(), score(f64::INFINITY), "top".to_string());
    zsets.add("k".to_string(), score(f64::NEG_INFINITY), "bottom".to_string());
    zsets.add("other".to_string(), score(7.0), "seven".to_string());
    let names: Vec<String> = zsets.members("k").into_iter().map(|m| m.name).collect();
    assert_eq!(names, vec!["bottom", "minus", "plus", "top"]);
    assert_eq!(zsets.members("other").len(), 1);
    assert_eq!(zsets.members("nothing").len(), 0);
    assert_eq!(zsets.remove("k", "minus"), true);
    let names: Vec<String> = zsets.members("k").into_iter().map(|m| m.name).collect();
    assert_eq!(names, vec!["bottom", "plus", "top"]);
}
