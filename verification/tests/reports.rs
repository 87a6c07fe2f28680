use mvnx::progress::{BuildStatus, BuildTracker};
use mvnx::report::{
    clipboard_text, closing_lines, report_files, summary_items, surefire_report_entry, SummaryItem,
};
use mvnx::spinner::spinner_step;

fn rule() -> String {
    "=".repeat(80)
}

fn text(items: &[SummaryItem]) -> Vec<String> {
    items
        .iter()
        .map(|i| match i {
            SummaryItem::Text(s) => s.clone(),
            SummaryItem::Module { icon, name, elapsed } => format!("{} {} {:?}", icon, name, elapsed),
            SummaryItem::TotalTime(t) => format!("total {}", t),
        })
        .collect()
}

#[test]
fn summary_of_a_failed_build() {
    let mut t = BuildTracker::new();
    for (line, now) in [
        ("1. a", 0u64),
        ("2. b", 0),
        ("3. c", 0),
        ("[INFO] Building a 1", 10),
        ("Tests run: 7, Failures: 2, Errors: 1, Skipped: 0", 20),
        ("[INFO] Building b 1", 40),
        ("[INFO] BUILD FAILURE", 90),
    ] {
        t.process_line(line, now);
    }
    let items = summary_items(&t.output);
    assert_eq!(
        text(&items),
        vec![
            format!("\n{}", rule()),
            "BUILD SUMMARY".to_string(),
            rule(),
            "\nReactor Build Order:".to_string(),
            "  1. a".to_string(),
            "  2. b".to_string(),
            "  3. c".to_string(),
            "\nModule Status:".to_string(),
            "... a Some(30)".to_string(),
            "FAIL b Some(50)".to_string(),
            "... c None".to_string(),
            "\nOverall Status: FAIL FAILURE".to_string(),
            "total 90".to_string(),
            "Tests: 7 run, 4 passed, 3 failed".to_string(),
        ]
    );
}

#[test]
fn summary_without_tests_or_time() {
    let t = BuildTracker::new();
    let items = summary_items(&t.output);
    assert_eq!(
        text(&items),
        vec![
            format!("\n{}", rule()),
            "BUILD SUMMARY".to_string(),
            rule(),
            "\nModule Status:".to_string(),
            "\nOverall Status: ... BUILDING".to_string(),
        ]
    );
}

#[test]
fn summary_passed_never_below_zero() {
    let mut t = BuildTracker::new();
    t.process_line("Tests run: 1, Failures: 2, Errors: 3, Skipped: 0", 1);
    t.process_line("[INFO] BUILD SUCCESS", 2);
    let items = summary_items(&t.output);
    let lines = text(&items);
    assert_eq!(lines[lines.len() - 1], "Tests: 1 run, 0 passed, 5 failed");
    assert_eq!(lines[4], "\nOverall Status: OK SUCCESS");
}

#[test]
fn closing_with_reports() {
    let t = BuildTracker::new();
    let reports = vec![("mod".to_string(), "--- X.txt ---\nboom".to_string())];
    assert_eq!(
        closing_lines(&t.output, &reports),
        vec![
            format!("\n{}", rule()),
            "TEST FAILURES".to_string(),
            rule(),
            "\n[mod]\n\n--- X.txt ---\nboom".to_string(),
        ]
    );
    assert_eq!(clipboard_text(true, &reports), Some("--- X.txt ---\nboom".to_string()));
    assert_eq!(clipboard_text(false, &reports), None);
    let two = vec![reports[0].clone(), reports[0].clone()];
    assert_eq!(clipboard_text(true, &two), None);
}

#[test]
fn closing_with_build_errors() {
    let mut t = BuildTracker::new();
    t.process_line("[ERROR] compile failed", 1);
    t.process_line("[INFO] BUILD FAILURE", 2);
    assert_eq!(
        closing_lines(&t.output, &Vec::new()),
        vec![
            format!("\n{}", rule()),
            "BUILD ERRORS".to_string(),
            rule(),
            String::new(),
            "compile failed".to_string(),
        ]
    );
}

#[test]
fn closing_without_reports_or_errors() {
    let mut t = BuildTracker::new();
    t.process_line("1. core", 0);
    t.finish(Some(1));
    assert_eq!(t.output.overall_status, BuildStatus::Failure);
    assert_eq!(
        closing_lines(&t.output, &Vec::new()),
        vec![
            format!("\n{}", rule()),
            "TEST FAILURE DETAILS".to_string(),
            rule(),
            "\nNo surefire-reports found in target directories.".to_string(),
            "Check the following:".to_string(),
            "  - core/target/surefire-reports/".to_string(),
        ]
    );
}

#[test]
fn closing_after_success_is_empty() {
    let mut t = BuildTracker::new();
    t.process_line("[INFO] BUILD SUCCESS", 1);
    assert!(closing_lines(&t.output, &Vec::new()).is_empty());
}

#[test]
fn report_entry_for_xml() {
    let xml = "<failure message=\"bad\"><![CDATA[Err\n at java.lang.X\n at my.Y]]></failure>";
    assert_eq!(
        surefire_report_entry("TEST-Foo.xml", xml),
        Some("--- TEST-Foo.xml ---\nAssertion: bad\nErr\n at my.Y".to_string())
    );
    assert_eq!(surefire_report_entry("TEST-Foo.xml", "<testsuite/>"), None);
}

#[test]
fn report_entry_for_text() {
    assert_eq!(
        surefire_report_entry("Foo.txt", "Tests run: 1 <<< FAILURE!\nat org.junit.X\nat my.Z"),
        Some("--- Foo.txt ---\nTests run: 1 <<< FAILURE!\nat my.Z".to_string())
    );
    assert_eq!(surefire_report_entry("Foo.txt", "all good"), None);
    assert_eq!(surefire_report_entry("TEST-Foo.txt", "FAILURE"), None);
}

#[test]
fn summary_lists_reactor_order_of_readme_example() {
    let mut t = BuildTracker::new();
    for (line, now) in [
        ("1. module-a", 0u64),
        ("2. module-b", 0),
        ("[INFO] Building module-a 1.0", 1),
        ("[INFO] Building module-b 1.0", 2),
        ("[INFO] BUILD SUCCESS", 3),
    ] {
        t.process_line(line, now);
    }
    let lines = text(&summary_items(&t.output));
    assert_eq!(lines[2], rule());
    assert_eq!(lines[3], "\nReactor Build Order:");
    assert_eq!(lines[4], "  1. module-a");
    assert_eq!(lines[5], "  2. module-b");
    assert_eq!(lines[6], "\nModule Status:");
}

#[test]
fn report_files_keeps_txt_and_xml_in_byte_order() {
    let names: Vec<String> = [
        "b.txt", "TEST-b.xml", "a.xml", ".txt", "c.log", "z.txt.bak", "TEST-a.xml", "x.TXT", "..",
        "\u{e9}.txt", "a..txt", "txt", "B.txt",
    ]
    .iter()
    .map(|s| s.to_string())
    .collect();
    assert_eq!(
        report_files(names),
        vec!["B.txt", "TEST-a.xml", "TEST-b.xml", "a..txt", "a.xml", "b.txt", "\u{e9}.txt"]
            .iter()
            .map(|s| s.to_string())
            .collect::<Vec<_>>()
    );
}

#[test]
fn report_files_of_nothing() {
    assert!(report_files(Vec::new()).is_empty());
}

#[test]
fn spinner_turns_and_tells_jokes() {
    assert_eq!(spinner_step(0, 0, false, 30), (false, '|', 1));
    assert_eq!(spinner_step(1, 100, false, 30), (false, '/', 2));
    assert_eq!(spinner_step(2, 29, true, 30), (false, '-', 3));
    assert_eq!(spinner_step(3, 5, true, 30), (false, '\\', 0));
    assert_eq!(spinner_step(2, 30, true, 30), (true, '|', 1));
}
