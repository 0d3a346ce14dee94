use iced_palette::command;
use iced_palette::filter_commands;
use iced_palette::get_filtered_command_index;
use iced_palette::get_filtered_count;
use iced_palette::Command;

fn sample_commands() -> Vec<Command<u32>> {
    vec![
        command("save", String::from("Save File"))
            .description(String::from("Write the current file to disk"))
            .action(1),
        command("open", String::from("Open File")).action(2),
        command("close", String::from("Close Window"))
            .keyword(String::from("quit"))
            .action(3),
    ]
}

#[test]
fn empty_query_keeps_every_command_in_order() {
    let commands = sample_commands();
    let ranked = filter_commands("", &commands);
    assert_eq!(ranked.len(), commands.len());
    for (display, (original, m)) in ranked.iter().enumerate() {
        assert_eq!(*original, display);
        assert_eq!(m.score, 0);
        assert!(m.indices.is_empty());
    }
}

#[test]
fn non_matching_commands_are_dropped() {
    let commands = sample_commands();
    let ranked = filter_commands("zzz", &commands);
    assert!(ranked.is_empty());
}

#[test]
fn only_matching_commands_are_kept() {
    let commands = sample_commands();
    let ranked = filter_commands("save", &commands);
    assert_eq!(ranked.len(), 1);
    assert_eq!(ranked[0].0, 0);
    assert!(ranked.len() <= commands.len());
}

#[test]
fn result_is_sorted_by_non_increasing_score() {
    let commands = sample_commands();
    // "file" matches the names of the first two and the description of the
    // first
    let ranked = filter_commands("file", &commands);
    assert!(ranked.len() >= 2);
    for pair in ranked.windows(2) {
        assert!(pair[0].1.score >= pair[1].1.score);
    }
}

#[test]
fn equal_scores_keep_original_order() {
    let commands: Vec<Command<u32>> = vec![
        command("a", String::from("Echo")).action(1),
        command("b", String::from("Echo")).action(2),
    ];
    let ranked = filter_commands("echo", &commands);
    assert_eq!(ranked.len(), 2);
    assert_eq!(ranked[0].1.score, ranked[1].1.score);
    assert_eq!(ranked[0].0, 0);
    assert_eq!(ranked[1].0, 1);
}

#[test]
fn keywords_are_searched() {
    let commands = sample_commands();
    let ranked = filter_commands("quit", &commands);
    assert_eq!(ranked.len(), 1);
    assert_eq!(ranked[0].0, 2);
}

#[test]
fn description_is_searched() {
    let commands = sample_commands();
    let ranked = filter_commands("disk", &commands);
    assert_eq!(ranked.len(), 1);
    assert_eq!(ranked[0].0, 0);
}

#[test]
fn better_field_score_wins() {
    // "close" matches the name "Close Window" from its start and the keyword
    // "quit" not at all; the name's strong match must be the one reported
    let commands = sample_commands();
    let ranked = filter_commands("close", &commands);
    assert_eq!(ranked.len(), 1);
    assert_eq!(ranked[0].0, 2);
    assert_eq!(ranked[0].1.indices, vec![0, 1, 2, 3, 4]);
}

#[test]
fn filtered_index_maps_display_position_back() {
    let commands = sample_commands();
    // "file" ranks "Save File" (description bonus) and "Open File"
    let ranked = filter_commands("file", &commands);
    for (display, (original, _)) in ranked.iter().enumerate() {
        assert_eq!(
            get_filtered_command_index("file", &commands, display),
            Some(*original)
        );
    }
    assert_eq!(
        get_filtered_command_index("file", &commands, ranked.len()),
        None
    );
}

#[test]
fn filtered_count_matches_filtered_length() {
    let commands = sample_commands();
    assert_eq!(get_filtered_count("", &commands), 3);
    assert_eq!(
        get_filtered_count("file", &commands),
        filter_commands("file", &commands).len()
    );
    assert_eq!(get_filtered_count("zzz", &commands), 0);
}
