use padbox::{plan_entry, relative_target, ExcludeError, ExcludeFilter, ExcludeSetting, Step, WalkEvent};

fn comps(p: &[&str]) -> Vec<String> {
    p.iter().map(|s| s.to_string()).collect()
}

#[test]
fn no_setting_accepts_everything() {
    let f = ExcludeFilter::compile("/src", &ExcludeSetting::Absent).unwrap();
    assert!(f.accepts("/src/a.txt"));
    assert!(f.accepts("/src/b"));
}

#[test]
fn excluded_directory_is_rejected_and_others_kept() {
    let setting = ExcludeSetting::Items(vec![Some("b".to_string())]);
    let f = ExcludeFilter::compile("/src", &setting).unwrap();
    assert!(f.accepts("/src/a.txt"));
    assert!(!f.accepts("/src/b"));
}

#[test]
fn glob_patterns_are_rooted_at_the_source() {
    let setting = ExcludeSetting::Items(vec![Some("*.log".to_string()), Some("target".to_string())]);
    let f = ExcludeFilter::compile("/src", &setting).unwrap();
    assert!(!f.accepts("/src/build.log"));
    assert!(!f.accepts("/src/target"));
    assert!(f.accepts("/other/target"));
    assert!(f.accepts("/src/main.rs"));
}

#[test]
fn exclude_not_an_array_is_an_error() {
    let r = ExcludeFilter::compile("/src", &ExcludeSetting::NotArray);
    assert!(matches!(r, Err(ExcludeError::NotArray)));
}

#[test]
fn exclude_item_not_a_string_is_an_error() {
    let setting = ExcludeSetting::Items(vec![Some("a".to_string()), None]);
    let r = ExcludeFilter::compile("/src", &setting);
    assert!(matches!(r, Err(ExcludeError::NotString)));
}

#[test]
fn invalid_glob_is_a_pattern_error() {
    let setting = ExcludeSetting::Items(vec![Some("a[".to_string())]);
    match ExcludeFilter::compile("/src", &setting) {
        Err(ExcludeError::PatternCompile { pattern }) => assert_eq!(pattern, "/src/a["),
        _ => panic!("expected a pattern error"),
    }
}

#[test]
fn entry_is_rerooted_under_destination() {
    let t = relative_target(&comps(&["/", "src"]), &comps(&["/", "out", "p"]), &comps(&["/", "src", "b", "c.txt"]));
    assert_eq!(t, Some(comps(&["/", "out", "p", "b", "c.txt"])));
}

#[test]
fn entry_outside_source_has_no_target() {
    let t = relative_target(&comps(&["/", "src"]), &comps(&["/", "out"]), &comps(&["/", "other", "x"]));
    assert_eq!(t, None);
}

#[test]
fn directory_entry_becomes_create_dir() {
    let ev = WalkEvent::Entry { path: comps(&["/", "src", "b"]), is_dir: true };
    match plan_entry(&comps(&["/", "src"]), &comps(&["/", "out"]), &ev) {
        Step::CreateDir { to } => assert_eq!(to, comps(&["/", "out", "b"])),
        other => panic!("unexpected {other:?}"),
    }
}

#[test]
fn file_entry_becomes_copy() {
    let ev = WalkEvent::Entry { path: comps(&["/", "src", "a.txt"]), is_dir: false };
    match plan_entry(&comps(&["/", "src"]), &comps(&["/", "out"]), &ev) {
        Step::CopyFile { from, to } => {
            assert_eq!(from, comps(&["/", "src", "a.txt"]));
            assert_eq!(to, comps(&["/", "out", "a.txt"]));
        }
        other => panic!("unexpected {other:?}"),
    }
}

#[test]
fn failed_entry_rolls_back() {
    let step = plan_entry(&comps(&["/", "src"]), &comps(&["/", "out"]), &WalkEvent::Failed);
    assert!(matches!(step, Step::Rollback));
}

#[test]
fn entry_outside_source_is_flagged() {
    let ev = WalkEvent::Entry { path: comps(&["/", "else", "a"]), is_dir: false };
    let step = plan_entry(&comps(&["/", "src"]), &comps(&["/", "out"]), &ev);
    assert!(matches!(step, Step::OutsideSource));
}

#[test]
fn exclusion_keeps_only_unmatched_entries() {
    let setting = ExcludeSetting::Items(vec![Some("b".to_string())]);
    let f = ExcludeFilter::compile("/src", &setting).unwrap();
    let tree = ["/src/a.txt", "/src/b"];
    let kept: Vec<&str> = tree.iter().copied().filter(|p| f.accepts(p)).collect();
    assert_eq!(kept, vec!["/src/a.txt"]);
}

#[test]
fn overlong_pattern_is_a_pattern_error() {
    let long = "a".repeat(0x1000000);
    let setting = ExcludeSetting::Items(vec![Some(long.clone())]);
    match ExcludeFilter::compile("/src", &setting) {
        Err(ExcludeError::PatternCompile { pattern }) => assert_eq!(pattern, format!("/src/{long}")),
        _ => panic!("expected a pattern error"),
    }
}

#[test]
fn absolute_pattern_replaces_the_root() {
    let setting = ExcludeSetting::Items(vec![Some("/abs/x".to_string())]);
    let f = ExcludeFilter::compile("/src", &setting).unwrap();
    assert!(!f.accepts("/abs/x"));
    assert!(f.accepts("/src/abs/x"));
}
