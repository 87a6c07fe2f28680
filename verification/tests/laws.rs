use mvnx::{
    extract_xml_failures, filter_stack_trace, parse_module_start, parse_reactor_module,
    parse_test_results,
};

#[test]
fn counts_line_round_trip() {
    for (a, b, c, d) in [(0u32, 0u32, 0u32, 0u32), (1, 22, 333, 4444), (u32::MAX, 9, 10, 99)] {
        let line = format!("Tests run: {}, Failures: {}, Errors: {}, Skipped: {}", a, b, c, d);
        assert_eq!(parse_test_results(&line), Some((a, b, c, d)));
        let line = format!("{}, Time elapsed: 1 s", line);
        assert_eq!(parse_test_results(&line), Some((a, b, c, d)));
    }
}

#[test]
fn reactor_entry_round_trip() {
    for (n, name) in [(1u64, "a"), (42, "com.example:x y"), (7, "m\r1")] {
        let line = format!(" \t{}. {}\u{a0} ", n, name);
        assert_eq!(parse_reactor_module(&line), Some(name.to_string()));
    }
}

#[test]
fn module_start_round_trip() {
    for name in ["a", "no.ks:x-y", "\u{e9}t\u{e9}"] {
        let line = format!("[INFO]\u{2003}Building \t{} 1.0-SNAPSHOT", name);
        assert_eq!(parse_module_start(&line), Some(name.to_string()));
        let line = format!("[INFO] Building {}", name);
        assert_eq!(parse_module_start(&line), Some(name.to_string()));
    }
}

#[test]
fn filtering_twice_changes_nothing() {
    let trace = "Boom\nat java.x\n  at my.Code\nat kotlin.y\ndone";
    let once = filter_stack_trace(trace);
    assert_eq!(once, "Boom\n  at my.Code\ndone");
    assert_eq!(filter_stack_trace(&once), once);
    // An empty last kept line is where it fails: it does not come back.
    let once = filter_stack_trace("a\n\n");
    assert_eq!(once, "a\n");
    assert_eq!(filter_stack_trace(&once), "a");
}

#[test]
fn failure_element_round_trip() {
    let msg = "expected: <1> but was: <2>";
    let trace = "AssertionError\n at my.Test";
    let xml = format!("<failure message=\"{}\"><![CDATA[{}]]></failure>", msg, trace);
    assert_eq!(
        extract_xml_failures(&xml),
        Some(format!("Assertion: {}\n{}", msg, trace))
    );
}

#[test]
fn xml_report_is_never_empty_text() {
    let xml = "<error message=\"\"><![CDATA[]]></error>";
    let out = extract_xml_failures(xml).unwrap();
    assert!(!out.is_empty());
    assert_eq!(out, "Error: \n");
}

#[test]
fn filtered_trace_has_no_framework_line() {
    let prefixes = ["at io", "at java", "at kotlin", "at org", "at feign", "at jdk", "at com"];
    for trace in ["a\r\r\nb\r", "  at org.x\r\r\nfoo\n\n", "\r\nat com.y\r\n\r\n", "x\n at jdk.z\r"] {
        let out = filter_stack_trace(trace);
        for line in out.lines() {
            let t = line.trim();
            assert!(!prefixes.iter().any(|p| t.starts_with(p)), "{:?}", line);
        }
    }
    assert_eq!(filter_stack_trace("a\r\r\nb\r"), "a\r\nb\r");
}
