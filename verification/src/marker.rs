//! Severity-tagged diagnostic markers overlaid on the buffer.
//!
//! A marker is created from human-facing line/column coordinates and
//! resolved lazily to a byte range against a concrete buffer; after an
//! edit it must be resolved again before the range is relied upon.

use vstd::prelude::*;
use crate::buffer::{TextBuffer, position_to_offset_spec};
use crate::cursor::{LineColumn, Selection};

verus! {

/// Severity of a marker.
#[derive(Debug, Clone, Copy, PartialEq, Eq, Structural)]
pub enum MarkerSeverity {
    Hint,
    Error,
    Warning,
    Info,
}

impl Default for MarkerSeverity {
    fn default() -> (r: Self)
        ensures
            r == MarkerSeverity::Hint,
    {
        MarkerSeverity::Hint
    }
}

/// The severity a diagnostic source names `s`; unknown names are read
/// as plain information.
pub open spec fn severity_of_name(s: Seq<char>) -> MarkerSeverity {
    if s == "error"@ {
        MarkerSeverity::Error
    } else if s == "warning"@ {
        MarkerSeverity::Warning
    } else if s == "hint"@ {
        MarkerSeverity::Hint
    } else {
        MarkerSeverity::Info
    }
}

impl From<&str> for MarkerSeverity {
    fn from(value: &str) -> (r: Self)
        ensures
            r == severity_of_name(value@),
    {
        let v = value.to_owned();
        if v == "error".to_owned() {
            MarkerSeverity::Error
        } else if v == "warning".to_owned() {
            MarkerSeverity::Warning
        } else if v == "hint".to_owned() {
            MarkerSeverity::Hint
        } else {
            MarkerSeverity::Info
        }
    }
}

impl vstd::std_specs::convert::FromSpecImpl<&str> for MarkerSeverity {
    open spec fn obeys_from_spec() -> bool {
        true
    }

    open spec fn from_spec(v: &str) -> Self {
        severity_of_name(v@)
    }
}

/// A diagnostic message, such as an error or warning, anchored to
/// line/column coordinates of the buffer.
#[derive(Debug, Clone)]
pub struct Marker {
    pub severity: MarkerSeverity,
    pub start: LineColumn,
    pub end: LineColumn,
    /// The resolved byte range; `None` until `prepare` runs.
    pub range: Option<Selection>,
    /// The message associated with the marker, typically a
    /// description of the issue.
    pub message: String,
}

/// The byte offset a line/column pair resolves to in `text`: its line
/// taken as a row index, its column counted from one.
pub open spec fn line_column_offset(text: Seq<char>, lc: LineColumn) -> int {
    position_to_offset_spec(
        text,
        lc.line as int,
        if lc.column > 0 {
            lc.column - 1
        } else {
            0
        },
    )
}

impl Marker {
    /// A new marker with the given severity, coordinates and message;
    /// its byte range is not yet resolved.
    pub fn new(
        severity: MarkerSeverity,
        start: LineColumn,
        end: LineColumn,
        message: String,
    ) -> (r: Self)
        ensures
            r.severity == severity,
            r.start == start,
            r.end == end,
            r.message == message,
            r.range is None,
    {
        Self { severity, start, end, message, range: None }
    }

    /// Resolves the marker's line/column coordinates to a byte range
    /// of `text`. Must be run again after the buffer changes.
    pub fn prepare(&mut self, text: &TextBuffer)
        ensures
            final(self).severity == old(self).severity,
            final(self).start == old(self).start,
            final(self).end == old(self).end,
            final(self).message == old(self).message,
            final(self).range == Some(
                Selection {
                    start: line_column_offset(text@, old(self).start) as usize,
                    end: line_column_offset(text@, old(self).end) as usize,
                },
            ),
    {
        let start = text.line_column_to_offset(&self.start);
        let end = text.line_column_to_offset(&self.end);
        self.range = Some(Selection::new(start, end));
    }
}

} // verus!
