use smart_read::choice::{InputOption, ListConstraintError};
use smart_read::selector::{
    find_listed, render_choices, select_from_lines, ListSelector, SelectionError, Step,
};

fn colours() -> Vec<InputOption<()>> {
    vec![InputOption::new("1", &["red", "r"], ()), InputOption::new("2", &["green", "g"], ())]
}

fn selector(options: &[InputOption<()>], default: Option<usize>) -> ListSelector {
    match ListSelector::new(options, default) {
        Ok(s) => s,
        Err(e) => panic!("{:?}", e),
    }
}

#[test]
fn alias_line_picks_second_colour() {
    let opts = colours();
    let mut s = selector(&opts, Some(0));
    assert_eq!(s.auto_choice(), None);
    assert_eq!(s.on_line("g"), Step::Chosen(1));
}

#[test]
fn typo_without_overlap_asks_again() {
    let opts = colours();
    let mut s = selector(&opts, Some(0));
    assert_eq!(s.on_line("blu"), Step::Retry);
    assert_eq!(s.on_line("red"), Step::Chosen(0));
}

#[test]
fn primary_name_in_any_case_selects() {
    let opts = colours();
    let mut s = selector(&opts, None);
    assert_eq!(s.on_line("GREEN"), Step::Chosen(1));
    assert_eq!(s.on_line("Red"), Step::Chosen(0));
}

#[test]
fn bulletin_selects() {
    let opts = colours();
    let mut s = selector(&opts, None);
    assert_eq!(s.on_line("2"), Step::Chosen(1));
}

#[test]
fn earliest_candidate_wins_on_collision() {
    // option 0's alternative name "2" is registered before option 1's bulletin "2"
    let opts = vec![InputOption::new("1", &["red", "2"], ()), InputOption::new("2", &["green"], ())];
    let mut s = selector(&opts, None);
    assert_eq!(s.on_line("2"), Step::Chosen(0));
}

#[test]
fn empty_line_takes_default() {
    let opts = colours();
    let mut s = selector(&opts, Some(1));
    assert_eq!(s.on_line(""), Step::Chosen(1));
}

#[test]
fn empty_line_without_default_asks_again() {
    let opts = colours();
    let mut s = selector(&opts, None);
    assert_eq!(s.on_line(""), Step::Retry);
}

#[test]
fn single_option_is_chosen_without_input() {
    let opts = vec![InputOption::new_without_bulletin(&["only"], ())];
    let s = selector(&opts, None);
    assert_eq!(s.auto_choice(), Some(0));
}

#[test]
fn empty_list_is_refused() {
    let opts: Vec<InputOption<()>> = Vec::new();
    assert!(matches!(ListSelector::new(&opts, None), Err(ListConstraintError::EmptyList)));
}

#[test]
fn suggestion_is_confirmed_by_empty_line() {
    let opts = colours();
    let mut s = selector(&opts, Some(0));
    let step = s.on_line("gren");
    let k = match step {
        Step::Suggest(k) => k,
        other => panic!("{:?}", other),
    };
    assert_eq!(s.candidate_text(k), "green");
    assert_eq!(s.candidate_option(k), 1);
    assert!(!s.candidate_is_alias(k));
    // an empty line confirms the suggestion rather than taking the default
    assert_eq!(s.on_line(""), Step::Chosen(1));
}

#[test]
fn rejected_suggestion_line_is_decided_afresh() {
    let opts = colours();
    let mut s = selector(&opts, Some(0));
    assert!(matches!(s.on_line("gren"), Step::Suggest(_)));
    assert_eq!(s.on_line("r"), Step::Chosen(0));
    // no suggestion is waiting any more: an empty line takes the default
    assert_eq!(s.on_line(""), Step::Chosen(0));
}

#[test]
fn alias_suggestion_is_marked() {
    let opts = vec![
        InputOption::new_without_bulletin(&["red", "crimson"], ()),
        InputOption::new_without_bulletin(&["blue"], ()),
    ];
    let mut s = selector(&opts, None);
    let k = match s.on_line("crimsn") {
        Step::Suggest(k) => k,
        other => panic!("{:?}", other),
    };
    assert_eq!(s.candidate_text(k), "crimson");
    assert!(s.candidate_is_alias(k));
    assert_eq!(s.candidate_option(k), 0);
    assert_eq!(s.candidate_count(), 3);
}

#[test]
fn rendered_lines_mark_default() {
    let opts = colours();
    let lines = render_choices(&opts, Some("Pick a color:".to_string()), Some(0));
    assert_eq!(lines, vec!["Pick a color:", "[1: red]", " 2: green "]);
    let plain = render_choices(&opts, None, None);
    assert_eq!(plain, vec!["Enter one of the following:", "1: red", "2: green"]);
}

#[test]
fn listed_entries_match_ignoring_case() {
    let choices = vec!["Red".to_string(), "green".to_string(), "RED".to_string()];
    assert_eq!(find_listed(&choices, "red", None), Ok(Some(0)));
    assert_eq!(find_listed(&choices, "GREEN", None), Ok(Some(1)));
    assert_eq!(find_listed(&choices, "blue", None), Ok(None));
    assert_eq!(find_listed(&choices, "", Some(2)), Ok(Some(2)));
    assert_eq!(find_listed(&choices, "", None), Ok(None));
}

#[test]
fn listed_entries_refuse_empty_list() {
    let none: Vec<String> = Vec::new();
    assert_eq!(find_listed(&none, "red", None), Err(ListConstraintError::EmptyList));
    assert_eq!(find_listed(&none, "", Some(0)), Err(ListConstraintError::EmptyList));
}

#[test]
fn scripted_selection_picks_green() {
    let opts = colours();
    assert_eq!(select_from_lines(&opts, Some(0), &["g"]), Ok((1, 1)));
}

#[test]
fn scripted_selection_typo_is_asked_again() {
    let opts = colours();
    assert_eq!(select_from_lines(&opts, Some(0), &["blu"]), Err(SelectionError::EndOfInput));
    assert_eq!(select_from_lines(&opts, Some(0), &["blu", "green"]), Ok((1, 2)));
}

#[test]
fn scripted_selection_edges() {
    let none: Vec<InputOption<()>> = Vec::new();
    assert_eq!(select_from_lines(&none, None, &["red"]), Err(SelectionError::EmptyList));
    let one = vec![InputOption::new_without_bulletin(&["only"], ())];
    assert_eq!(select_from_lines(&one, None, &[]), Ok((0, 0)));
    let opts = colours();
    assert_eq!(select_from_lines(&opts, Some(1), &[""]), Ok((1, 1)));
    assert_eq!(select_from_lines(&opts, None, &["", "r"]), Ok((0, 2)));
    assert_eq!(select_from_lines(&opts, None, &["gren", ""]), Ok((1, 2)));
    assert_eq!(select_from_lines(&opts, None, &[]), Err(SelectionError::EndOfInput));
}
