//! Handing the rendered text to the clipboard: which program to try next,
//! and when to stop.
use vstd::prelude::*;

verus! {

/// A program that takes text on its standard input and puts it on the
/// clipboard.
#[derive(Debug, Clone)]
pub struct ClipboardCommand {
    pub program: String,
    pub args: Vec<String>,
}

/// What to do next while copying.
#[derive(Debug, Clone, Copy, PartialEq, Eq, Structural)]
pub enum ClipboardStep {
    /// Run the command at this position of `clipboard_commands`.
    Run(usize),
    /// The text is on the clipboard.
    Copied,
    /// Every command was tried and none copied the text.
    Unavailable,
}

/// The number of clipboard programs known.
pub open spec fn command_count() -> nat {
    4
}

/// The clipboard programs in the order they are tried: `pbcopy`, `wl-copy`,
/// `xclip -selection clipboard`, `clip`.
pub fn clipboard_commands() -> (r: Vec<ClipboardCommand>)
    ensures
        r@.len() == command_count(),
        r@[0].program@ == "pbcopy"@ && r@[0].args@.len() == 0,
        r@[1].program@ == "wl-copy"@ && r@[1].args@.len() == 0,
        r@[2].program@ == "xclip"@ && r@[2].args@.len() == 2,
        r@[2].args@[0]@ == "-selection"@ && r@[2].args@[1]@ == "clipboard"@,
        r@[3].program@ == "clip"@ && r@[3].args@.len() == 0,
{
    let mut commands: Vec<ClipboardCommand> = Vec::new();
    commands.push(ClipboardCommand { program: "pbcopy".to_owned(), args: Vec::new() });
    commands.push(ClipboardCommand { program: "wl-copy".to_owned(), args: Vec::new() });
    let mut xclip_args: Vec<String> = Vec::new();
    xclip_args.push("-selection".to_owned());
    xclip_args.push("clipboard".to_owned());
    commands.push(ClipboardCommand { program: "xclip".to_owned(), args: xclip_args });
    commands.push(ClipboardCommand { program: "clip".to_owned(), args: Vec::new() });
    commands
}

/// The next step of copying, after `tried` commands of `clipboard_commands`
/// have run, the last of them having copied the text when `copied` holds:
/// stop once one copied, else run the next, else give up.
pub fn copy_to_clipboard(tried: usize, copied: bool) -> (r: ClipboardStep)
    ensures
        copied ==> r == ClipboardStep::Copied,
        !copied && tried < command_count() ==> r == ClipboardStep::Run(tried),
        !copied && tried >= command_count() ==> r == ClipboardStep::Unavailable,
{
    if copied {
        ClipboardStep::Copied
    } else if tried < 4 {
        ClipboardStep::Run(tried)
    } else {
        ClipboardStep::Unavailable
    }
}

} // verus!
