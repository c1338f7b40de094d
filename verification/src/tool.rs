//! What comes of running a tool.

use vstd::prelude::*;

verus! {

/// What one run of a tool left behind.
#[derive(Debug)]
pub struct ToolOutput {
    /// Whether the tool exited with status zero.
    pub success: bool,
    /// What it wrote to its output stream.
    pub stdout: Vec<u8>,
    /// What it wrote to its diagnostic stream.
    pub stderr: Vec<u8>,
}

/// A [`ToolOutput`] as plain values.
pub struct ToolOutputView {
    pub success: bool,
    pub stdout: Seq<u8>,
    pub stderr: Seq<u8>,
}

impl View for ToolOutput {
    type V = ToolOutputView;

    open spec fn view(&self) -> ToolOutputView {
        ToolOutputView { success: self.success, stdout: self.stdout@, stderr: self.stderr@ }
    }
}

/// What came of an attempt to run a tool.
#[derive(Debug)]
pub enum Event {
    /// The tool ran and exited.
    Exited(ToolOutput),
    /// The tool could not be started; the cause is given.
    NotStarted(String),
    /// The tool was given up on, because it did not exit in time.
    TimedOut,
}

/// An [`Event`] as plain values.
pub enum EventView {
    Exited(ToolOutputView),
    NotStarted(Seq<char>),
    TimedOut,
}

impl View for Event {
    type V = EventView;

    open spec fn view(&self) -> EventView {
        match self {
            Event::Exited(output) => EventView::Exited(output@),
            Event::NotStarted(cause) => EventView::NotStarted(cause@),
            Event::TimedOut => EventView::TimedOut,
        }
    }
}

} // verus!
