use mvnx::{
    extract_xml_failures, filter_stack_trace, parse_module_start, parse_reactor_module,
    parse_test_results,
};

#[test]
fn reactor_module_with_non_ascii_digits() {
    assert_eq!(parse_reactor_module("\u{661}. module"), Some("module".to_string()));
}

#[test]
fn reactor_module_needs_space_after_dot() {
    assert_eq!(parse_reactor_module("1.module"), None);
    assert_eq!(parse_reactor_module("1."), None);
    assert_eq!(parse_reactor_module(". module"), None);
}

#[test]
fn reactor_module_rejects_line_feed_in_name() {
    assert_eq!(parse_reactor_module("1. a\nb"), None);
}

#[test]
fn reactor_module_keeps_inner_spaces() {
    assert_eq!(parse_reactor_module("\t12.   my module  \r"), Some("my module".to_string()));
}

#[test]
fn module_start_takes_leftmost_match() {
    assert_eq!(
        parse_module_start("[INFO] Building a [INFO] Building b"),
        Some("a".to_string())
    );
}

#[test]
fn module_start_anywhere_in_line() {
    assert_eq!(parse_module_start("x[INFO]\tBuilding\tfoo"), Some("foo".to_string()));
}

#[test]
fn module_start_needs_white_space_and_name() {
    assert_eq!(parse_module_start("[INFO] Building "), None);
    assert_eq!(parse_module_start("[INFO]Building x"), None);
    assert_eq!(parse_module_start("[INFO] Buildingx"), None);
}

#[test]
fn test_results_largest_count() {
    assert_eq!(
        parse_test_results("Tests run: 4294967295, Failures: 0, Errors: 0, Skipped: 0"),
        Some((4294967295, 0, 0, 0))
    );
}

#[test]
fn test_results_overflow_is_none() {
    assert_eq!(
        parse_test_results("Tests run: 4294967296, Failures: 0, Errors: 0, Skipped: 0"),
        None
    );
}

#[test]
fn test_results_non_ascii_digit_is_none() {
    assert_eq!(
        parse_test_results("Tests run: \u{663}, Failures: 0, Errors: 0, Skipped: 0"),
        None
    );
}

#[test]
fn test_results_first_match_decides() {
    assert_eq!(
        parse_test_results(
            "Tests run: 99999999999, Failures: 0, Errors: 0, Skipped: 0 Tests run: 1, Failures: 1, Errors: 1, Skipped: 1"
        ),
        None
    );
    assert_eq!(
        parse_test_results("x Tests run: 1, Failures: Tests run: 2, Failures: 3, Errors: 4, Skipped: 5"),
        Some((2, 3, 4, 5))
    );
}

#[test]
fn test_results_leading_zeros() {
    assert_eq!(
        parse_test_results("Tests run: 007, Failures: 00, Errors: 0, Skipped: 01"),
        Some((7, 0, 0, 1))
    );
}

#[test]
fn filter_carriage_returns() {
    assert_eq!(filter_stack_trace("a\r\nb"), "a\nb");
    assert_eq!(filter_stack_trace("a\r"), "a\r");
}

#[test]
fn filter_trailing_line_feed_and_empty() {
    assert_eq!(filter_stack_trace(""), "");
    assert_eq!(filter_stack_trace("a\n"), "a");
    assert_eq!(filter_stack_trace("\n"), "");
    assert_eq!(filter_stack_trace("a\n\n"), "a\n");
}

#[test]
fn filter_trims_before_matching() {
    assert_eq!(
        filter_stack_trace("\u{3000}at java.lang.Thread\n  at com.x\nat comfy\nkeep"),
        "keep"
    );
    assert_eq!(filter_stack_trace("at iox\nat Io.x"), "at Io.x");
}

#[test]
fn xml_failures_come_before_errors() {
    let xml = "<error message=\"E\"><![CDATA[e1]]></error><failure message=\"F\"><![CDATA[f1]]></failure>";
    assert_eq!(
        extract_xml_failures(xml),
        Some("Assertion: F\nf1\n\nError: E\ne1".to_string())
    );
}

#[test]
fn xml_last_message_attribute_wins() {
    let xml = "<failure message=\"a\" message=\"b\"><![CDATA[t]]></failure>";
    assert_eq!(extract_xml_failures(xml), Some("Assertion: b\nt".to_string()));
}

#[test]
fn xml_message_with_greater_than() {
    let xml = "<failure message=\"x>y\" type=\"T\"><![CDATA[t]]></failure>";
    assert_eq!(extract_xml_failures(xml), Some("Assertion: x>y\nt".to_string()));
}

#[test]
fn xml_without_cdata_is_none() {
    let xml = "<failure message=\"m\" type=\"T\">text</failure>";
    assert_eq!(extract_xml_failures(xml), None);
}

#[test]
fn xml_content_ends_at_first_closing() {
    let xml = "<failure message=\"m\"><![CDATA[one]]></failure>two]]></failure>";
    assert_eq!(extract_xml_failures(xml), Some("Assertion: m\none".to_string()));
}

#[test]
fn xml_filters_trace_and_keeps_empty_trace() {
    let xml = "<failure message=\"m\"><![CDATA[]]></failure>";
    assert_eq!(extract_xml_failures(xml), Some("Assertion: m\n".to_string()));
    let xml = "<error message=\"boom\"><![CDATA[Oops\n  at org.x.Y\n  at my.Code]]></error>";
    assert_eq!(
        extract_xml_failures(xml),
        Some("Error: boom\nOops\n  at my.Code".to_string())
    );
}
