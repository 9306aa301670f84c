//! The math engine interface: something that turns TeX source into HTML.
//! Engines run external programs, so their implementations live with the
//! build around the library; the renderer consumes their results through
//! its math memo.

use vstd::prelude::*;

verus! {

/// A math renderer: turns TeX into HTML, in inline or display mode.
pub trait MathEngine {
    /// Renders one piece of TeX; an error message on failure.
    fn tex_to_html(&mut self, latex: &str, inline: bool) -> Result<String, String>;
}

/// The description of an engine that runs an external command for each
/// piece of math: the command and its arguments.
#[derive(Debug, Clone)]
pub struct ExternalCmdEngine {
    pub cmd: Vec<String>,
}

impl ExternalCmdEngine {
    /// An engine description for the given command line.
    pub fn new(cmd: Vec<String>) -> (r: Self)
        ensures
            r.cmd == cmd,
    {
        ExternalCmdEngine { cmd }
    }
}

} // verus!
