use merge_tool::args::Action;
use merge_tool::args::Args;
use merge_tool::args::approves_delete;
use merge_tool::args::check_args;
use merge_tool::args::declines_overwrite;
use merge_tool::args::parse_action;

#[test]
fn new_args_are_empty() {
    let a = Args::new();
    assert_eq!(a.dir_a, "");
    assert_eq!(a.dir_b, "");
    assert_eq!(a.merge_dir, "");
    assert_eq!(a.action, Action::Error);
    assert!(!a.with_check);
}

#[test]
fn parse_action_valid_words() {
    assert_eq!(parse_action(&String::from("diff")), Action::ShowDiffFiles);
    assert_eq!(parse_action(&String::from("equal")), Action::ShowSameFiles);
    assert_eq!(parse_action(&String::from("merge_into_a")), Action::MergeIntoA);
    assert_eq!(parse_action(&String::from("merge_into_b")), Action::MergeIntoB);
    assert_eq!(parse_action(&String::from("merge")), Action::Merge);
}

#[test]
fn parse_action_invalid_words() {
    assert_eq!(parse_action(&String::from("bogus")), Action::Error);
    assert_eq!(parse_action(&String::from("")), Action::Error);
    assert_eq!(parse_action(&String::from("Diff")), Action::Error);
    assert_eq!(parse_action(&String::from("merge ")), Action::Error);
}

#[test]
fn merge_needs_merge_dir() {
    let mut a = Args::new();
    a.action = Action::Merge;
    assert!(!check_args(&a));
    a.merge_dir = String::from("out");
    assert!(check_args(&a));
}

#[test]
fn other_actions_need_no_merge_dir() {
    let mut a = Args::new();
    a.action = Action::ShowDiffFiles;
    assert!(check_args(&a));
    a.action = Action::ShowSameFiles;
    assert!(check_args(&a));
    a.action = Action::MergeIntoA;
    assert!(check_args(&a));
    a.action = Action::MergeIntoB;
    assert!(check_args(&a));
}

#[test]
fn deletion_prompt_answers() {
    assert!(approves_delete("y"));
    assert!(approves_delete("yes\n"));
    assert!(approves_delete("Y\n"));
    assert!(!approves_delete("no"));
    assert!(!approves_delete(""));
    assert!(!approves_delete("maybe"));
    assert!(!approves_delete(" y"));
}

#[test]
fn overwrite_prompt_answers() {
    assert!(declines_overwrite("n"));
    assert!(declines_overwrite("No\n"));
    assert!(!declines_overwrite(""));
    assert!(!declines_overwrite("y"));
    assert!(!declines_overwrite("ok\n"));
}
