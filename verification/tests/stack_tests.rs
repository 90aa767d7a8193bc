use av_rs::commands::next_prev::{get_stack_trunk_ancestor, next_branch, prev_branch, trunk_checkout_target, NavError, TrunkTarget};
use av_rs::commands::stack::{get_branches_in_sync_order, select_in_order, stack_tree_lines, submit_scope, tree_line_text, TreeLine};
use av_rs::utils::decimal::decimal_text;
use av_rs::meta::types::{BranchMeta, MetadataState, PullRequestMeta};
use av_rs::utils::stack_utils::{ancestry_ends, descendants, find_stack_root, get_current_stack_branches};

fn meta(name: &str, parent: Option<&str>) -> BranchMeta {
    BranchMeta {
        name: name.to_string(),
        parent_branch: parent.map(|p| p.to_string()),
        parent_commit: None,
        head_commit: format!("{}-head", name),
        pull_request: None,
    }
}

fn state(entries: &[(&str, Option<&str>)]) -> MetadataState {
    let mut s = MetadataState::new();
    for (name, parent) in entries {
        s.upsert_branch(meta(name, *parent));
    }
    s
}

fn names(v: &[&BranchMeta]) -> Vec<String> {
    v.iter().map(|b| b.name.clone()).collect()
}

fn sorted(mut v: Vec<String>) -> Vec<String> {
    v.sort();
    v
}

fn strings(v: &[&str]) -> Vec<String> {
    v.iter().map(|s| s.to_string()).collect()
}

fn sample() -> MetadataState {
    state(&[
        ("d", Some("b")),
        ("x", None),
        ("c", Some("a")),
        ("y", Some("y")),
        ("b", Some("a")),
        ("p", Some("q")),
        ("q", Some("p")),
        ("a", Some("main")),
        ("", None),
        ("e", Some("")),
    ])
}

#[test]
fn sync_order_is_breadth_first_and_sorted() {
    let s = sample();
    let order = get_branches_in_sync_order(&s);
    assert_eq!(names(&order), strings(&["a", "x", "b", "c", "d"]));
}

#[test]
fn sync_order_groups_children_by_parent() {
    let s = state(&[
        ("r2", None),
        ("r1", None),
        ("r2-z", Some("r2")),
        ("r1-b", Some("r1")),
        ("r2-a", Some("r2")),
        ("r1-a", Some("r1")),
        ("r1-a-1", Some("r1-a")),
    ]);
    let order = get_branches_in_sync_order(&s);
    assert_eq!(names(&order), strings(&["r1", "r2", "r1-a", "r1-b", "r2-a", "r2-z", "r1-a-1"]));
}

#[test]
fn sync_order_of_empty_state_is_empty() {
    let s = MetadataState::new();
    assert!(get_branches_in_sync_order(&s).is_empty());
}

#[test]
fn select_keeps_order() {
    let s = sample();
    let order = get_branches_in_sync_order(&s);
    let picked = select_in_order(&order, &strings(&["d", "a", "zzz"]));
    assert_eq!(names(&picked), strings(&["a", "d"]));
}

#[test]
fn current_stack_is_ancestors_and_descendants() {
    let s = sample();
    let trunks = strings(&["main"]);
    assert!(ancestry_ends(&s, &trunks, "d"));
    let st = get_current_stack_branches("d", &s, &trunks);
    assert_eq!(sorted(st), strings(&["a", "b", "d"]));
    assert_eq!(find_stack_root(&s, &trunks, "d"), "a");
    assert_eq!(sorted(get_current_stack_branches("b", &s, &trunks)), strings(&["a", "b", "d"]));
    assert_eq!(sorted(get_current_stack_branches("a", &s, &trunks)), strings(&["a", "b", "c", "d"]));
}

#[test]
fn current_stack_leaves_out_siblings() {
    let s = sample();
    let trunks = strings(&["main"]);
    let st = get_current_stack_branches("c", &s, &trunks);
    assert_eq!(sorted(st), strings(&["a", "c"]));
}

#[test]
fn current_stack_of_parent_cycle_ends() {
    let s = sample();
    let trunks = strings(&["main"]);
    assert_eq!(sorted(get_current_stack_branches("p", &s, &trunks)), strings(&["p", "q"]));
}

#[test]
fn trunk_parent_ends_the_walk() {
    let s = sample();
    let trunks = strings(&["a"]);
    assert_eq!(find_stack_root(&s, &trunks, "d"), "b");
    let st = get_current_stack_branches("d", &s, &trunks);
    assert_eq!(sorted(st), strings(&["b", "d"]));
}

#[test]
fn untracked_branch_has_no_stack() {
    let s = sample();
    let st = get_current_stack_branches("main", &s, &strings(&["main"]));
    assert!(st.is_empty());
}

#[test]
fn cycle_is_detected() {
    let s = sample();
    let trunks = strings(&["main"]);
    assert!(!ancestry_ends(&s, &trunks, "p"));
    assert!(!ancestry_ends(&s, &trunks, "y"));
    assert!(ancestry_ends(&s, &trunks, "main"));
    assert!(ancestry_ends(&s, &trunks, "a"));
}

#[test]
fn descendants_of_root() {
    let s = sample();
    assert_eq!(sorted(descendants(&s, "b")), strings(&["b", "d"]));
    assert_eq!(sorted(descendants(&s, "")), strings(&["", "e"]));
    assert_eq!(sorted(descendants(&s, "p")), strings(&["p", "q"]));
}

#[test]
fn submit_scope_walks_up_and_stops_on_repeat() {
    let s = sample();
    let trunks = strings(&["main"]);
    assert_eq!(sorted(submit_scope(&s, "d", &trunks).unwrap()), strings(&["a", "b", "d"]));
    assert_eq!(sorted(submit_scope(&s, "p", &trunks).unwrap()), strings(&["p", "q"]));
    assert_eq!(submit_scope(&s, "y", &trunks).unwrap(), strings(&["y"]));
    assert!(submit_scope(&s, "main", &trunks).is_none());
}

fn render(lines: &[av_rs::commands::stack::TreeLine]) -> Vec<String> {
    lines
        .iter()
        .map(|l| {
            let pr = match l.pr_number {
                Some(n) => format!(" (PR #{})", n),
                None => String::new(),
            };
            format!(
                "{}{}{}{}{}",
                "  ".repeat(l.indent),
                if l.is_current { "*" } else { " " },
                l.name,
                pr,
                if l.cycle { " <cycle>" } else { "" }
            )
        })
        .collect()
}

#[test]
fn tree_lines_of_sample() {
    let mut s = sample();
    let mut c = meta("c", Some("a"));
    c.pull_request = Some(PullRequestMeta { id: "I".to_string(), number: 12, permalink: "P".to_string() });
    s.upsert_branch(c);
    let lines = stack_tree_lines(&s, &Some("b".to_string()), &strings(&["main"]));
    assert_eq!(
        render(&lines),
        strings(&[" ", "   e", " a", "  *b", "     d", "   c (PR #12)", " x"])
    );
}

#[test]
fn tree_lines_fall_back_to_all_branches_on_cycles() {
    let s = state(&[("q", Some("p")), ("p", Some("q"))]);
    let lines = stack_tree_lines(&s, &None, &Vec::new());
    assert_eq!(
        render(&lines),
        strings(&[" p", "   q", "     p", "     p <cycle>", " q", "   p", "     q", "     q <cycle>"])
    );
}

#[test]
fn tree_root_under_trunk_parent() {
    let s = state(&[("trunk", None), ("f", Some("trunk"))]);
    let lines = stack_tree_lines(&s, &None, &strings(&["trunk"]));
    assert_eq!(render(&lines), strings(&[" f", " trunk", "   f"]));
}

#[test]
fn next_picks_first_child_by_name() {
    let s = sample();
    assert_eq!(next_branch(&s, "a"), Some("b".to_string()));
    assert_eq!(next_branch(&s, "d"), None);
    assert_eq!(next_branch(&s, "main"), Some("a".to_string()));
}

#[test]
fn prev_is_parent() {
    let s = sample();
    assert!(matches!(prev_branch(&s, "d"), Ok(Some(ref p)) if p == "b"));
    assert!(matches!(prev_branch(&s, "x"), Ok(None)));
    assert!(matches!(prev_branch(&s, "main"), Err(NavError::NotTracked)));
}

#[test]
fn trunk_ancestor_cases() {
    let s = sample();
    let trunks = strings(&["main"]);
    assert_eq!(get_stack_trunk_ancestor("d", &s, &trunks, Some("dflt".to_string())), Some("main".to_string()));
    assert_eq!(get_stack_trunk_ancestor("x", &s, &trunks, Some("dflt".to_string())), Some("dflt".to_string()));
    assert_eq!(get_stack_trunk_ancestor("x", &s, &trunks, None), None);
    assert_eq!(get_stack_trunk_ancestor("main", &s, &trunks, None), Some("main".to_string()));
    assert_eq!(get_stack_trunk_ancestor("nope", &s, &trunks, None), None);
    let s2 = state(&[("dev", None), ("f", Some("dev"))]);
    let t2 = strings(&["dev"]);
    assert_eq!(get_stack_trunk_ancestor("f", &s2, &t2, None), Some("dev".to_string()));
    assert_eq!(get_stack_trunk_ancestor("dev", &s2, &t2, None), Some("dev".to_string()));
}

#[test]
fn trunk_checkout_targets() {
    let s = sample();
    let trunks = strings(&["main"]);
    assert!(matches!(trunk_checkout_target(&s, "d", &trunks, None), TrunkTarget::Branch(ref b) if b == "main"));
    assert!(matches!(trunk_checkout_target(&s, "x", &trunks, None), TrunkTarget::Stay));
    assert!(matches!(trunk_checkout_target(&s, "main", &trunks, None), TrunkTarget::RepositoryDefault));
}

#[test]
fn decimal_text_matches_format() {
    for n in [0i64, 7, 10, 12, 99, 100, 305, -1, -305, i64::MAX, i64::MIN] {
        assert_eq!(decimal_text(n), format!("{}", n));
    }
    assert_eq!(decimal_text(-305), "-305");
    assert_eq!(decimal_text(i64::MIN), "-9223372036854775808");
}

#[test]
fn tree_line_text_of_branch_lines() {
    let line = TreeLine { indent: 2, name: "b".to_string(), is_current: true, pr_number: Some(12), cycle: false };
    assert_eq!(tree_line_text(&line), "    *b (PR #12)");
    let line = TreeLine { indent: 0, name: "a".to_string(), is_current: false, pr_number: None, cycle: false };
    assert_eq!(tree_line_text(&line), " a");
}

#[test]
fn tree_line_text_of_cycle_note() {
    let line = TreeLine { indent: 1, name: "p".to_string(), is_current: false, pr_number: None, cycle: true };
    assert_eq!(tree_line_text(&line), "    └─<cycle detected with p>");
}

#[test]
fn tree_text_of_sample() {
    let mut s = sample();
    let mut c = meta("c", Some("a"));
    c.pull_request = Some(PullRequestMeta { id: "I".to_string(), number: 12, permalink: "P".to_string() });
    s.upsert_branch(c);
    let lines = stack_tree_lines(&s, &Some("b".to_string()), &strings(&["main"]));
    let text: Vec<String> = lines.iter().map(tree_line_text).collect();
    assert_eq!(text, strings(&[" ", "   e", " a", "  *b", "     d", "   c (PR #12)", " x"]));
}
