//! Source locations: positions, regions, and region-annotated values.

use vstd::prelude::*;

verus! {

/// A position in the source text, 1-indexed: the first character of the
/// input sits at line 1, column 1.
#[derive(Clone, Copy, Debug, PartialEq, Eq, Structural)]
pub struct Position {
    pub line: usize,
    pub column: usize,
}

impl Position {
    /// Total order over positions: line major, column minor.
    pub open spec fn spec_le(self, other: Position) -> bool {
        self.line < other.line || (self.line == other.line && self.column <= other.column)
    }

    pub fn new(line: usize, column: usize) -> (r: Position)
        ensures
            r.line == line,
            r.column == column,
    {
        Position { line, column }
    }

    /// Whether `self` comes no later than `other` in the source order.
    pub fn is_le(&self, other: &Position) -> (r: bool)
        ensures
            r == self.spec_le(*other),
    {
        self.line < other.line || (self.line == other.line && self.column <= other.column)
    }
}

impl Default for Position {
    /// The all-zero position, below every position the parser produces.
    fn default() -> (r: Position)
        ensures
            r.line == 0 && r.column == 0,
    {
        Position { line: 0, column: 0 }
    }
}

/// A contiguous span of source text, from `start` to `end` inclusive.
///
/// Construction does not reject `start > end`: such a region simply
/// contains no position. The parser only ever produces regions with
/// `start <= end`.
#[derive(Clone, Copy, Debug, PartialEq, Eq, Structural)]
pub struct Region {
    pub start: Position,
    pub end: Position,
}

impl Region {
    /// A region is well formed when its bounds are ordered.
    pub open spec fn wf(self) -> bool {
        self.start.spec_le(self.end)
    }

    /// Inclusive containment under the position order.
    pub open spec fn spec_contains(self, p: Position) -> bool {
        self.start.spec_le(p) && p.spec_le(self.end)
    }

    pub fn new(start: Position, end: Position) -> (r: Region)
        ensures
            r.start == start,
            r.end == end,
    {
        Region { start, end }
    }

    /// Builds a region from raw line/column bounds.
    pub fn from_parts(start_line: usize, start_column: usize, end_line: usize, end_column: usize)
        -> (r: Region)
        ensures
            r.start.line == start_line,
            r.start.column == start_column,
            r.end.line == end_line,
            r.end.column == end_column,
    {
        Region { start: Position::new(start_line, start_column), end: Position::new(end_line, end_column) }
    }

    /// Whether `p` falls inside this region, bounds included.
    pub fn contains(&self, p: Position) -> (r: bool)
        ensures
            r == self.spec_contains(p),
    {
        self.start.is_le(&p) && p.is_le(&self.end)
    }
}

impl Default for Region {
    /// The all-zero region.
    fn default() -> (r: Region)
        ensures
            r.start.line == 0 && r.start.column == 0,
            r.end.line == 0 && r.end.column == 0,
    {
        Region { start: Position { line: 0, column: 0 }, end: Position { line: 0, column: 0 } }
    }
}

/// A parsed value together with the source region it was read from.
#[derive(Clone, Debug, PartialEq, Eq)]
pub struct Located<T> {
    pub element: T,
    pub region: Region,
}

impl<T> Located<T> {
    pub fn new(element: T, region: Region) -> (r: Located<T>)
        ensures
            r.element == element,
            r.region == region,
    {
        Located { element, region }
    }

    pub fn as_inner(&self) -> (r: &T)
        ensures
            r == &self.element,
    {
        &self.element
    }

    pub fn into_inner(self) -> (r: T)
        ensures
            r == self.element,
    {
        self.element
    }

    pub fn region(&self) -> (r: Region)
        ensures
            r == self.region,
    {
        self.region
    }
}

} // verus!
