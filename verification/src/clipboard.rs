use vstd::prelude::*;

verus! {

/// The clipboard tools that are tried, in this order: Wayland's, X11's, macOS's.
pub open spec fn clipboard_tool(i: nat) -> Seq<char> {
    if i == 0 {
        "wl-copy"@
    } else if i == 1 {
        "xclip"@
    } else {
        "pbcopy"@
    }
}

/// What to do next in copying to the clipboard.
pub enum ClipboardStepModel {
    /// Look whether the tool is installed.
    Probe(Seq<char>),
    /// Copy with the tool.
    Copy(Seq<char>),
    /// None of the tools is installed.
    NoTool,
}

/// After `probed` tools have been looked for, the last of them `found` or not: the first
/// tool is looked for first; a tool that is found is the one copied with; otherwise
/// the next tool is looked for, and after the three there is none.
pub open spec fn clipboard_next(probed: nat, found: bool) -> ClipboardStepModel {
    if probed == 0 {
        ClipboardStepModel::Probe(clipboard_tool(0))
    } else if found {
        ClipboardStepModel::Copy(clipboard_tool((probed - 1) as nat))
    } else if probed < 3 {
        ClipboardStepModel::Probe(clipboard_tool(probed))
    } else {
        ClipboardStepModel::NoTool
    }
}

/// What to do next in copying to the clipboard.
pub enum ClipboardStep {
    Probe(String),
    Copy(String),
    NoTool,
}

impl View for ClipboardStep {
    type V = ClipboardStepModel;

    open spec fn view(&self) -> ClipboardStepModel {
        match self {
            ClipboardStep::Probe(t) => ClipboardStepModel::Probe(t@),
            ClipboardStep::Copy(t) => ClipboardStepModel::Copy(t@),
            ClipboardStep::NoTool => ClipboardStepModel::NoTool,
        }
    }
}

fn tool_name(i: usize) -> (t: String)
    requires
        i < 3,
    ensures
        t@ == clipboard_tool(i as nat),
{
    broadcast use vstd::string::group_string_axioms;

    if i == 0 {
        "wl-copy".to_string()
    } else if i == 1 {
        "xclip".to_string()
    } else {
        "pbcopy".to_string()
    }
}

/// The next step in choosing a clipboard tool, after `probed` of them have been
/// looked for and the last one of them was `found` or not.
pub fn clipboard_step(probed: usize, found: bool) -> (s: ClipboardStep)
    requires
        probed <= 3,
    ensures
        s@ == clipboard_next(probed as nat, found),
{
    if probed == 0 {
        ClipboardStep::Probe(tool_name(0))
    } else if found {
        ClipboardStep::Copy(tool_name(probed - 1))
    } else if probed < 3 {
        ClipboardStep::Probe(tool_name(probed))
    } else {
        ClipboardStep::NoTool
    }
}

} // verus!
