use mvnx::clipboard::{clipboard_step, ClipboardStep};

fn show(s: ClipboardStep) -> String {
    match s {
        ClipboardStep::Probe(t) => format!("probe {}", t),
        ClipboardStep::Copy(t) => format!("copy {}", t),
        ClipboardStep::NoTool => "none".to_string(),
    }
}

#[test]
fn clipboard_probes_tools_in_order() {
    assert_eq!(show(clipboard_step(0, false)), "probe wl-copy");
    assert_eq!(show(clipboard_step(0, true)), "probe wl-copy");
    assert_eq!(show(clipboard_step(1, false)), "probe xclip");
    assert_eq!(show(clipboard_step(2, false)), "probe pbcopy");
    assert_eq!(show(clipboard_step(3, false)), "none");
}

#[test]
fn clipboard_copies_with_first_found() {
    assert_eq!(show(clipboard_step(1, true)), "copy wl-copy");
    assert_eq!(show(clipboard_step(2, true)), "copy xclip");
    assert_eq!(show(clipboard_step(3, true)), "copy pbcopy");
}
