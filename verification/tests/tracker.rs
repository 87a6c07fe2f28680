use mvnx::progress::{parse_test_failure_header, BuildStatus, BuildTracker, Effect};

fn printed(effects: &[Effect]) -> Vec<String> {
    effects
        .iter()
        .map(|e| match e {
            Effect::ClearSpinner => "<clear>".to_string(),
            Effect::Print(s) => s.clone(),
        })
        .collect()
}

fn feed(t: &mut BuildTracker, line: &str, now: u64) -> Vec<String> {
    assert!(t.fits(line));
    let effects = t.process_line(line, now);
    printed(&effects)
}

#[test]
fn failure_header_starts_empty_trace() {
    let f = parse_test_failure_header("anything").unwrap();
    assert!(f.stack_trace.is_empty());
}

#[test]
fn tracker_multi_module_build() {
    let mut t = BuildTracker::new();
    assert!(feed(&mut t, "[INFO] The Reactor build order:", 0).is_empty());
    assert!(feed(&mut t, "1. module-a", 0).is_empty());
    assert!(feed(&mut t, "2. module-b", 0).is_empty());
    assert_eq!(t.output.reactor_order, vec!["module-a".to_string(), "module-b".to_string()]);
    assert_eq!(t.output.modules.len(), 2);

    assert_eq!(
        feed(&mut t, "[INFO] Building module-a 1.0", 100),
        vec!["<clear>".to_string(), "> Building module-a".to_string()]
    );
    assert!(feed(&mut t, "Tests run: 3, Failures: 1, Errors: 0, Skipped: 0", 150).is_empty());
    assert!(feed(&mut t, "Tests run: 2, Failures: 0, Errors: 1, Skipped: 1", 160).is_empty());
    assert_eq!(
        feed(&mut t, "[INFO] Building module-b 1.0", 200),
        vec!["<clear>".to_string(), "> Building module-b".to_string()]
    );
    assert!(feed(&mut t, "[ERROR] Something broke", 210).is_empty());
    assert!(feed(&mut t, "[ERROR]   Something broke  ", 220).is_empty());
    assert!(feed(&mut t, "[ERROR]", 230).is_empty());
    assert!(feed(&mut t, "[ERROR][ERROR] Other", 240).is_empty());
    assert!(feed(&mut t, "[INFO] BUILD FAILURE", 300).is_empty());

    let o = &t.output;
    assert_eq!((o.tests_run, o.tests_failed, o.tests_errored, o.tests_skipped), (5, 1, 1, 1));
    assert_eq!(o.maven_errors, vec!["Something broke".to_string(), "Other".to_string()]);
    assert_eq!(o.overall_status, BuildStatus::Failure);
    assert_eq!(o.overall_time, Some(300));
    let a = &o.modules[0];
    assert_eq!((a.name.as_str(), a.start_time, a.end_time, a.status), ("module-a", Some(100), Some(200), BuildStatus::Building));
    let b = &o.modules[1];
    assert_eq!((b.name.as_str(), b.start_time, b.end_time, b.status), ("module-b", Some(200), Some(300), BuildStatus::Failure));
    assert!(t.current_module.is_none());
}

#[test]
fn tracker_single_module_listing() {
    let mut t = BuildTracker::new();
    assert_eq!(
        feed(&mut t, "[INFO] Building app 1.0", 5),
        vec!["<clear>".to_string(), "> Building app".to_string()]
    );
    assert_eq!(
        feed(&mut t, "[INFO] Building app 1.0", 7),
        vec![
            "\nReactor Build Order:".to_string(),
            "  1. app".to_string(),
            String::new()
        ]
    );
    assert!(feed(&mut t, "[INFO] Building app 1.0", 9).is_empty());
    assert!(feed(&mut t, "[INFO] BUILD SUCCESS", 20).is_empty());
    let m = &t.output.modules[0];
    assert_eq!((m.start_time, m.end_time, m.status), (Some(9), Some(7), BuildStatus::Success));
    assert_eq!(t.output.overall_status, BuildStatus::Success);
}

#[test]
fn tracker_failure_section() {
    let mut t = BuildTracker::new();
    feed(&mut t, "[ERROR] testThing  <<< FAILURE! in Foo", 1);
    assert!(t.in_failure_section);
    feed(&mut t, "java.lang.AssertionError: nope", 2);
    feed(&mut t, "\tat Foo.bar(Foo.java:3)", 3);
    feed(&mut t, "   ", 4);
    assert!(!t.in_failure_section);
    assert_eq!(t.output.test_failures.len(), 1);
    assert_eq!(
        t.output.test_failures[0].stack_trace,
        vec!["java.lang.AssertionError: nope".to_string(), "\tat Foo.bar(Foo.java:3)".to_string()]
    );
    // Outside a failure section a blank line does nothing.
    feed(&mut t, "", 5);
    assert_eq!(t.output.test_failures.len(), 1);
}

#[test]
fn tracker_counts_that_would_overflow_do_not_fit() {
    let mut t = BuildTracker::new();
    feed(&mut t, "Tests run: 4294967295, Failures: 0, Errors: 0, Skipped: 0", 1);
    assert!(!t.fits("Tests run: 1, Failures: 0, Errors: 0, Skipped: 0"));
    assert!(t.fits("Tests run: 0, Failures: 7, Errors: 0, Skipped: 0"));
}

#[test]
fn tracker_finish_marks_unfinished_build() {
    let mut t = BuildTracker::new();
    t.finish(Some(1));
    assert_eq!(t.output.overall_status, BuildStatus::Failure);
    let mut t = BuildTracker::new();
    t.finish(None);
    assert_eq!(t.output.overall_status, BuildStatus::Failure);
    let mut t = BuildTracker::new();
    t.finish(Some(0));
    assert_eq!(t.output.overall_status, BuildStatus::Building);
    let mut t = BuildTracker::new();
    feed(&mut t, "[INFO] BUILD SUCCESS", 3);
    t.finish(Some(2));
    assert_eq!(t.output.overall_status, BuildStatus::Success);
}

#[test]
fn tracker_reactor_line_resets_module() {
    let mut t = BuildTracker::new();
    feed(&mut t, "[INFO] Building m 1.0", 10);
    feed(&mut t, "1. m", 11);
    assert_eq!(t.output.reactor_order, vec!["m".to_string(), "m".to_string()]);
    assert_eq!(t.output.modules.len(), 1);
    assert_eq!(t.output.modules[0].start_time, None);
}
