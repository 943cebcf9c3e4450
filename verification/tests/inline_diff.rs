use marten::inline_diff::{changed_ranges, merge_ranges, ranges_from_changes, WordChange};

#[test]
fn identical_strings_have_no_changed_ranges() {
    let (old, new) = changed_ranges("hello world", "hello world").unwrap();
    assert!(old.is_empty());
    assert!(new.is_empty());
}

#[test]
fn single_word_replacement() {
    let (old, new) = changed_ranges("fn old_name()", "fn new_name()").unwrap();
    assert_eq!(old, vec![(3, 11)]);
    assert_eq!(new, vec![(3, 11)]);
}

#[test]
fn insertion_only() {
    let (old, new) = changed_ranges("alpha beta", "alpha new beta").unwrap();
    assert!(old.is_empty());
    assert_eq!(new.len(), 1);
    assert_eq!("alpha new beta"[new[0].0..new[0].1].trim(), "new");
}

#[test]
fn deletion_only() {
    let (old, new) = changed_ranges("alpha new beta", "alpha beta").unwrap();
    assert!(new.is_empty());
    assert_eq!(old.len(), 1);
    assert_eq!("alpha new beta"[old[0].0..old[0].1].trim(), "new");
}

#[test]
fn merge_ranges_combines_overlapping_and_adjacent() {
    assert_eq!(
        merge_ranges(vec![(0, 2), (2, 4), (6, 8)]),
        vec![(0, 4), (6, 8)]
    );
    assert_eq!(merge_ranges(vec![(1, 3), (5, 7)]), vec![(1, 3), (5, 7)]);
    assert_eq!(merge_ranges(vec![(0, 0), (2, 2)]), vec![]);
}

#[test]
fn merge_ranges_keeps_the_furthest_end() {
    assert_eq!(merge_ranges(vec![(0, 5), (1, 3), (4, 9)]), vec![(0, 9)]);
    assert_eq!(merge_ranges(vec![]), vec![]);
}

#[test]
fn pieces_give_ranges_on_each_line() {
    let pieces = vec![
        (WordChange::Equal, "let ".to_string()),
        (WordChange::Delete, "x".to_string()),
        (WordChange::Insert, "yy".to_string()),
        (WordChange::Equal, " = ".to_string()),
        (WordChange::Delete, "1".to_string()),
        (WordChange::Delete, "0".to_string()),
        (WordChange::Insert, "2".to_string()),
    ];
    let (old, new) = ranges_from_changes(&pieces).unwrap();
    assert_eq!(old, vec![(4, 5), (8, 10)]);
    assert_eq!(new, vec![(4, 6), (9, 10)]);
}

#[test]
fn ranges_count_characters_not_bytes() {
    let pieces = vec![
        (WordChange::Equal, "é ".to_string()),
        (WordChange::Insert, "ü".to_string()),
    ];
    let (old, new) = ranges_from_changes(&pieces).unwrap();
    assert!(old.is_empty());
    assert_eq!(new, vec![(2, 3)]);
}

#[test]
fn changed_ranges_differ_from_the_input_positions() {
    let (old, new) = changed_ranges("a b c", "a x c").unwrap();
    assert_eq!(old, vec![(2, 3)]);
    assert_eq!(new, vec![(2, 3)]);
}

#[test]
fn unchanged_pieces_give_no_ranges() {
    let pieces = vec![
        (WordChange::Equal, "same ".to_string()),
        (WordChange::Equal, "words".to_string()),
    ];
    let (old, new) = ranges_from_changes(&pieces).unwrap();
    assert!(old.is_empty());
    assert!(new.is_empty());
}
