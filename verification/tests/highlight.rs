use iced_palette::fuzzy_match;
use iced_palette::highlight_runs;

#[test]
fn runs_split_around_matches() {
    let runs = highlight_runs("Save File", &vec![0, 5]);
    assert_eq!(runs.len(), 4);
    assert_eq!(runs[0], (String::from("S"), true));
    assert_eq!(runs[1], (String::from("ave "), false));
    assert_eq!(runs[2], (String::from("F"), true));
    assert_eq!(runs[3], (String::from("ile"), false));
}

#[test]
fn runs_reconstruct_the_text() {
    let text = "getCurrentWindow";
    let m = fuzzy_match("gcw", text).unwrap();
    let runs = highlight_runs(text, &m.indices);
    let rebuilt: String = runs.iter().map(|run| run.0.as_str()).collect::<Vec<_>>().join("");
    assert_eq!(rebuilt, text);
}

#[test]
fn out_of_range_positions_are_skipped() {
    let runs = highlight_runs("abc", &vec![1, 10]);
    assert_eq!(runs.len(), 3);
    assert_eq!(runs[0], (String::from("a"), false));
    assert_eq!(runs[1], (String::from("b"), true));
    assert_eq!(runs[2], (String::from("c"), false));
}

#[test]
fn no_positions_give_one_unmatched_run() {
    let runs = highlight_runs("abc", &Vec::new());
    assert_eq!(runs, vec![(String::from("abc"), false)]);
}

#[test]
fn empty_text_gives_no_runs() {
    let runs = highlight_runs("", &Vec::new());
    assert!(runs.is_empty());
}

#[test]
fn multibyte_runs_split_by_character() {
    let runs = highlight_runs("\u{00fc}ber", &vec![0]);
    assert_eq!(runs[0], (String::from("\u{00fc}"), true));
    assert_eq!(runs[1], (String::from("ber"), false));
}
