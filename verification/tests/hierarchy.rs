use parse_table::{compute_level, parent_from_abbr};

#[test]
fn root_level_and_parent() {
    assert_eq!(compute_level("FSOFT"), 0);
    assert_eq!(parent_from_abbr("FSOFT"), "");
}

#[test]
fn root_case_insensitive() {
    assert_eq!(compute_level("fsoft"), 0);
    assert_eq!(compute_level("FSofT"), 0);
    assert_eq!(parent_from_abbr("fsoft"), "");
    assert_eq!(compute_level("  FSOFT  "), 0);
    assert_eq!(parent_from_abbr(" fsoft "), "");
}

#[test]
fn two_token_abbreviation() {
    assert_eq!(compute_level("FSOFT XYZ"), 2);
    assert_eq!(parent_from_abbr("FSOFT XYZ"), "FSOFT");
}

#[test]
fn three_token_abbreviation() {
    assert_eq!(compute_level("FSOFT XYZ ABC"), 3);
    assert_eq!(parent_from_abbr("FSOFT XYZ ABC"), "FSOFT XYZ");
}

#[test]
fn single_token_non_root() {
    assert_eq!(compute_level("HR"), 1);
    assert_eq!(parent_from_abbr("HR"), "FSOFT");
}

#[test]
fn multi_space_separators() {
    assert_eq!(compute_level("FSOFT   XYZ \t ABC"), 3);
    assert_eq!(parent_from_abbr("FSOFT \n XYZ   ABC"), "FSOFT XYZ");
}

#[test]
fn empty_abbreviation() {
    assert_eq!(compute_level(""), 0);
    assert_eq!(parent_from_abbr(""), "FSOFT");
}
