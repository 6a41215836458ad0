use book_staging::error::Error;
use book_staging::guard::Guard;
use book_staging::manifest::parse_manifest;
use book_staging::path::{join_path, relocation_moves};
use book_staging::session::{command_for, next_action, Action, Command, Task};
use book_staging::text::{chars_of, string_of_range};

fn strings(v: &[&str]) -> Vec<String> {
    v.iter().map(|s| s.to_string()).collect()
}

fn pairs(v: &[(&str, &str)]) -> Vec<(String, String)> {
    v.iter().map(|(a, b)| (a.to_string(), b.to_string())).collect()
}

#[test]
fn single_intro_line_gives_one_path() {
    let r = parse_manifest("- [Intro](./intro.md)");
    assert_eq!(r, Ok(strings(&["intro.md"])));
}

#[test]
fn intro_is_staged_and_restored() {
    let paths = parse_manifest("- [Intro](./intro.md)").unwrap();
    let moves = relocation_moves("/book", "src", &paths);
    assert_eq!(moves, pairs(&[("/book/intro.md", "/book/src/intro.md")]));
    let mut g = Guard::new();
    for (old, new) in moves {
        g.record(old, new);
    }
    assert_eq!(g.len(), 1);
    assert_eq!(g.restore_moves(), pairs(&[("/book/src/intro.md", "/book/intro.md")]));
}

#[test]
fn empty_remainder_is_malformed() {
    assert_eq!(parse_manifest("(./)"), Err(Error::MalformedManifestEntry));
}

#[test]
fn marker_at_line_end_is_malformed() {
    assert_eq!(
        parse_manifest("- [A](./a.md)\n- broken (./\n- [B](./b.md)"),
        Err(Error::MalformedManifestEntry)
    );
}

#[test]
fn one_path_per_marker_line_in_order() {
    let text = "# Summary\n\n- [One](./one.md)\nplain line\n  - [Two](./ch/two.md)\r\n- [One again](./one.md)\n";
    assert_eq!(parse_manifest(text), Ok(strings(&["one.md", "ch/two.md", "one.md"])));
}

#[test]
fn only_first_marker_of_a_line_counts() {
    assert_eq!(parse_manifest("[a](./x.md) [b](./y.md)"), Ok(strings(&["x.md) [b](./y.md"])));
}

#[test]
fn last_character_is_dropped_whatever_it_is() {
    assert_eq!(parse_manifest("(./ab"), Ok(strings(&["a"])));
    assert_eq!(parse_manifest("(./é.mdé"), Ok(strings(&["é.md"])));
}

#[test]
fn bare_carriage_return_on_last_line_is_kept() {
    assert_eq!(parse_manifest("(./a.md)\r"), Ok(strings(&["a.md)"])));
    assert_eq!(parse_manifest("(./a.md)\r\n"), Ok(strings(&["a.md"])));
}

#[test]
fn no_marker_lines_give_no_moves() {
    let paths = parse_manifest("# Summary\n\nNothing here.\n(. /x)\n").unwrap();
    assert!(paths.is_empty());
    let moves = relocation_moves("/book", "src", &paths);
    assert!(moves.is_empty());
    let g = Guard::new();
    assert!(g.is_empty());
    assert!(g.restore_moves().is_empty());
}

#[test]
fn empty_manifest_gives_no_paths() {
    assert_eq!(parse_manifest(""), Ok(Vec::new()));
    assert_eq!(parse_manifest("\n\n"), Ok(Vec::new()));
}

#[test]
fn restore_keeps_record_order() {
    let mut g = Guard::new();
    g.record("/r/a".to_string(), "/r/src/a".to_string());
    g.record("/r/b/c".to_string(), "/r/src/b/c".to_string());
    g.record("/r/a".to_string(), "/r/src/a".to_string());
    assert_eq!(g.len(), 3);
    assert_eq!(
        g.restore_moves(),
        pairs(&[("/r/src/a", "/r/a"), ("/r/src/b/c", "/r/b/c"), ("/r/src/a", "/r/a")])
    );
}

#[test]
fn relocation_keeps_manifest_order_and_duplicates() {
    let moves = relocation_moves("/r/", "src", &strings(&["b.md", "a/x.md", "b.md"]));
    assert_eq!(
        moves,
        pairs(&[
            ("/r/b.md", "/r/src/b.md"),
            ("/r/a/x.md", "/r/src/a/x.md"),
            ("/r/b.md", "/r/src/b.md"),
        ])
    );
}

#[test]
fn join_adds_one_separator() {
    assert_eq!(join_path("/root", "a.md"), "/root/a.md");
    assert_eq!(join_path("/root/", "a.md"), "/root/a.md");
    assert_eq!(join_path("", "a.md"), "a.md");
    assert_eq!(join_path("/root", ""), "/root/");
}

#[test]
fn join_with_absolute_path_replaces_base() {
    assert_eq!(join_path("/root", "/etc/x"), "/etc/x");
}

#[test]
fn text_helpers_copy_characters() {
    assert_eq!(chars_of("añb"), vec!['a', 'ñ', 'b']);
    let cs = vec!['x', 'y', 'z', 'w'];
    assert_eq!(string_of_range(&cs, 1, 3), "yz");
    assert_eq!(string_of_range(&cs, 2, 2), "");
}

#[test]
fn no_subcommand_tests_then_builds() {
    match command_for(None) {
        Command::Run(ts) => assert_eq!(ts, vec![Task::Test, Task::Build]),
        Command::Usage => panic!("expected tasks"),
    }
}

#[test]
fn render_and_test_subcommands() {
    match command_for(Some("render")) {
        Command::Run(ts) => assert_eq!(ts, vec![Task::Build]),
        Command::Usage => panic!("expected tasks"),
    }
    match command_for(Some("test")) {
        Command::Run(ts) => assert_eq!(ts, vec![Task::Test]),
        Command::Usage => panic!("expected tasks"),
    }
}

#[test]
fn unknown_subcommand_asks_for_usage() {
    assert!(matches!(command_for(Some("tests")), Command::Usage));
    assert!(matches!(command_for(Some("")), Command::Usage));
}

#[test]
fn failed_task_leads_to_release() {
    let ts = vec![Task::Test, Task::Build];
    assert_eq!(next_action(&ts, 0, false), Action::Start(Task::Test));
    assert_eq!(next_action(&ts, 1, true), Action::Release { succeeded: false });
    assert_eq!(next_action(&ts, 1, false), Action::Start(Task::Build));
    assert_eq!(next_action(&ts, 2, false), Action::Release { succeeded: true });
}
