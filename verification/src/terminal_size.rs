//! Terminal dimensions and the decisions made around querying them.

use vstd::prelude::*;

verus! {

/// Terminal width in character cells.
#[derive(Debug, Clone, Copy, PartialEq, Eq, PartialOrd, Ord, Structural)]
pub struct Width(pub u16);

/// Terminal height in character cells.
#[derive(Debug, Clone, Copy, PartialEq, Eq, PartialOrd, Ord, Structural)]
pub struct Height(pub u16);

/// Width assumed when no stream is attached to a terminal.
pub const DEFAULT_WIDTH: u16 = 80;

/// Height assumed when no stream is attached to a terminal.
pub const DEFAULT_HEIGHT: u16 = 24;

/// The size a window report stands for: a report with a zero dimension
/// carries no usable size.
pub open spec fn window_size_spec(cols: u16, rows: u16) -> Option<(Width, Height)> {
    if rows > 0 && cols > 0 {
        Some((Width(cols), Height(rows)))
    } else {
        None
    }
}

/// Turns the column and row counts of a window report into a size, or
/// `None` when either count is zero.
pub fn window_size(cols: u16, rows: u16) -> (size: Option<(Width, Height)>)
    ensures
        size == window_size_spec(cols, rows),
{
    if rows > 0 && cols > 0 {
        Some((Width(cols), Height(rows)))
    } else {
        None
    }
}

/// The streams that are asked for the size of the terminal.
#[derive(Debug, Clone, Copy, PartialEq, Eq, Structural)]
pub enum Stream {
    Stdout,
    Stderr,
    Stdin,
}

/// What to do next while looking for the size of the terminal.
#[derive(Debug, Clone, Copy, PartialEq, Eq)]
pub enum Probe {
    /// Ask this stream.
    Ask(Stream),
    /// Stop with this result.
    Done(Option<(Width, Height)>),
}

/// The order of asking: standard output first, then standard error, then
/// standard input. The first size found ends the search; when the last
/// stream has none, there is none.
pub open spec fn after(asked: Stream, answer: Option<(Width, Height)>) -> Probe {
    match answer {
        Some(size) => Probe::Done(Some(size)),
        None => match asked {
            Stream::Stdout => Probe::Ask(Stream::Stderr),
            Stream::Stderr => Probe::Ask(Stream::Stdin),
            Stream::Stdin => Probe::Done(None),
        },
    }
}

/// Returns the stream to ask first.
pub fn first_probe() -> (probe: Probe)
    ensures
        probe == Probe::Ask(Stream::Stdout),
{
    Probe::Ask(Stream::Stdout)
}

/// Decides what follows the answer of the stream that was asked.
pub fn next_probe(asked: Stream, answer: Option<(Width, Height)>) -> (probe: Probe)
    ensures
        probe == after(asked, answer),
{
    match answer {
        Some(size) => Probe::Done(Some(size)),
        None => match asked {
            Stream::Stdout => Probe::Ask(Stream::Stderr),
            Stream::Stderr => Probe::Ask(Stream::Stdin),
            Stream::Stdin => Probe::Done(None),
        },
    }
}

/// The size that the three streams give together: that of the first, in the
/// order of asking, that has one.
pub open spec fn first_size(
    stdout: Option<(Width, Height)>,
    stderr: Option<(Width, Height)>,
    stdin: Option<(Width, Height)>,
) -> Option<(Width, Height)> {
    if stdout is Some {
        stdout
    } else if stderr is Some {
        stderr
    } else {
        stdin
    }
}

/// Asking stream after stream as `after` directs ends with the size of the
/// first stream that has one, and without a size when none has.
pub proof fn lemma_probes_find_first_size(
    stdout: Option<(Width, Height)>,
    stderr: Option<(Width, Height)>,
    stdin: Option<(Width, Height)>,
)
    ensures
        match after(Stream::Stdout, stdout) {
            Probe::Done(size) => size == first_size(stdout, stderr, stdin),
            Probe::Ask(second) => second == Stream::Stderr && match after(second, stderr) {
                Probe::Done(size) => size == first_size(stdout, stderr, stdin),
                Probe::Ask(third) => third == Stream::Stdin && after(third, stdin) == Probe::Done(
                    first_size(stdout, stderr, stdin),
                ),
            },
        },
{
}

/// Returns the width to lay the listing out for: that of the terminal, or
/// `DEFAULT_WIDTH` where no size was found.
pub fn width_or_default(size: Option<(Width, Height)>) -> (width: usize)
    ensures
        width == match size {
            Some((Width(cols), _)) => cols as usize,
            None => DEFAULT_WIDTH as usize,
        },
{
    match size {
        Some((Width(cols), _)) => cols as usize,
        None => DEFAULT_WIDTH as usize,
    }
}

} // verus!
