//! Diagnostics: errors with the line and column ranges they concern.
use vstd::prelude::*;
use vstd::utf8::encode_utf8;
use crate::errors::{
    CompileError, ErrorM, ExprError, LexicalError, RuntimeError, SyntaxError, error_message,
};
use crate::span::Span;
use crate::text::owned;

verus! {

/// The number of line feeds among the first `index` bytes.
pub open spec fn newlines_before(bytes: Seq<u8>, index: int) -> int
    decreases index,
{
    if index <= 0 {
        0
    } else {
        newlines_before(bytes, index - 1) + if bytes[index - 1] == 10u8 { 1int } else { 0int }
    }
}

/// Where the line holding byte `index` starts: just after the last line feed
/// before it, or at 0.
pub open spec fn line_start(bytes: Seq<u8>, index: int) -> int
    decreases index,
{
    if index <= 0 {
        0
    } else if bytes[index - 1] == 10u8 {
        index
    } else {
        line_start(bytes, index - 1)
    }
}

/// Where line `k` (counted from 0) starts when scanning from `i` with `k`
/// line feeds still to pass; one past the end where there are fewer.
pub open spec fn line_head_from(bytes: Seq<u8>, i: int, k: nat) -> int
    decreases bytes.len() - i, k,
{
    if k == 0 {
        i
    } else if i < 0 || i >= bytes.len() {
        bytes.len() + 1int
    } else if bytes[i] == 10u8 {
        line_head_from(bytes, i + 1, (k - 1) as nat)
    } else {
        line_head_from(bytes, i + 1, k)
    }
}

/// Where line `k` (counted from 0) of `bytes` starts; one past the end where
/// there are fewer lines.
pub open spec fn line_head(bytes: Seq<u8>, k: nat) -> int {
    line_head_from(bytes, 0, k)
}

/// `line_col::LineColLookup::new(src).get(index)`: the 1-based line and
/// column of byte `index`. The crate's source builds the table of line starts
/// from the line feeds of `src` and finds the line holding `index` by binary
/// search; it panics where `index` is past the end.
#[verifier::external_body]
fn line_col_lookup(src: &str, index: usize) -> (r: (usize, usize))
    requires
        index <= encode_utf8(src@).len(),
    ensures
        r.0 == newlines_before(encode_utf8(src@), index as int) + 1,
        r.1 == index - line_start(encode_utf8(src@), index as int) + 1,
{
    line_col::LineColLookup::new(src).get(index)
}

/// A line starts at or before any byte of it, and there are at most as many line feeds as bytes.
pub proof fn lemma_line_start_bounds(bytes: Seq<u8>, index: int)
    requires
        0 <= index <= bytes.len(),
    ensures
        0 <= line_start(bytes, index) <= index,
        0 <= newlines_before(bytes, index) <= index,
    decreases index,
{
    if index > 0 {
        lemma_line_start_bounds(bytes, index - 1);
    }
}

/// Map a byte index to a position (line, column), both counted from 0.
pub fn index_to_position(source: &str, index: usize) -> (r: (usize, usize))
    requires
        index <= encode_utf8(source@).len(),
    ensures
        r.0 == newlines_before(encode_utf8(source@), index as int),
        r.1 == index - line_start(encode_utf8(source@), index as int),
{
    proof {
        lemma_line_start_bounds(encode_utf8(source@), index as int);
    }
    let (line, char) = line_col_lookup(source, index);
    (line - 1, char - 1)
}

/// Map a position (line, column), both counted from 0, to a byte index: the
/// bytes of the lines before, each with its line feed, then the column.
pub fn position_to_index(source: &str, position: (usize, usize)) -> (r: usize)
    requires
        line_head(encode_utf8(source@), position.0 as nat) + position.1 <= usize::MAX,
    ensures
        r == line_head(encode_utf8(source@), position.0 as nat) + position.1,
{
    let (line, character) = position;
    let bytes = source.as_bytes();
    let ghost bs = encode_utf8(source@);
    let n = bytes.len();
    let mut i: usize = 0;
    let mut k: usize = line;
    while k > 0 && i < n
        invariant
            bytes@ == bs,
            n == bs.len(),
            i <= n,
            line_head_from(bs, 0, line as nat) == line_head_from(bs, i as int, k as nat),
        decreases n - i,
    {
        if bytes[i] == 10u8 {
            k = k - 1;
        }
        i = i + 1;
    }
    if k == 0 {
        i + character
    } else {
        n + 1 + character
    }
}

/// Going from a byte index to its position and back gives the index again.
pub proof fn index_position_round_trip(bytes: Seq<u8>, index: int)
    requires
        0 <= index <= bytes.len(),
    ensures
        line_head(bytes, newlines_before(bytes, index) as nat) + (index - line_start(bytes, index)) == index,
{
    lemma_line_head_of_start(bytes, index);
}

/// Line number `newlines_before(index)` starts where the line holding `index` starts.
proof fn lemma_line_head_of_start(bytes: Seq<u8>, index: int)
    requires
        0 <= index <= bytes.len(),
    ensures
        line_head(bytes, newlines_before(bytes, index) as nat) == line_start(bytes, index),
    decreases index,
{
    lemma_line_start_bounds(bytes, index);
    if index > 0 {
        lemma_line_head_of_start(bytes, index - 1);
        lemma_line_start_bounds(bytes, index - 1);
        if bytes[index - 1] == 10u8 {
            let k = newlines_before(bytes, index - 1);
            lemma_line_head_step(bytes, k as nat, index - 1);
        }
    }
}

/// From the start of line `k`, the next line feed at `j` ends it: line `k + 1`
/// starts right after.
proof fn lemma_line_head_step(bytes: Seq<u8>, k: nat, j: int)
    requires
        0 <= j < bytes.len(),
        bytes[j] == 10u8,
        line_start(bytes, j) == line_head(bytes, k),
        newlines_before(bytes, j) == k,
    ensures
        line_head(bytes, k + 1) == j + 1,
{
    lemma_scan_from(bytes, 0, k + 1, j);
}

/// Scanning from `i` with `m` line feeds to pass, where exactly `m - 1` of
/// them come before the line feed at `j`, ends just after `j`.
proof fn lemma_scan_from(bytes: Seq<u8>, i: int, m: nat, j: int)
    requires
        0 <= i <= j < bytes.len(),
        m >= 1,
        bytes[j] == 10u8,
        newlines_before(bytes, j) - newlines_before(bytes, i) == m - 1,
    ensures
        line_head_from(bytes, i, m) == j + 1,
    decreases j - i,
{
    lemma_newlines_split(bytes, i, j);
    if i == j {
        assert(line_head_from(bytes, j + 1, 0) == j + 1);
    } else if bytes[i] == 10u8 {
        lemma_newlines_split(bytes, i + 1, j);
        assert(newlines_before(bytes, i + 1) == newlines_before(bytes, i) + 1);
        assert(m >= 2) by {
            lemma_newlines_monotone(bytes, i + 1, j);
        }
        lemma_scan_from(bytes, i + 1, (m - 1) as nat, j);
    } else {
        assert(newlines_before(bytes, i + 1) == newlines_before(bytes, i));
        lemma_scan_from(bytes, i + 1, m, j);
    }
}

proof fn lemma_newlines_split(bytes: Seq<u8>, i: int, j: int)
    requires
        0 <= i <= j <= bytes.len(),
    ensures
        newlines_before(bytes, i) <= newlines_before(bytes, j),
    decreases j - i,
{
    if j > i {
        lemma_newlines_split(bytes, i, j - 1);
    }
}

proof fn lemma_newlines_monotone(bytes: Seq<u8>, i: int, j: int)
    requires
        0 <= i <= j <= bytes.len(),
    ensures
        newlines_before(bytes, i) <= newlines_before(bytes, j),
{
    lemma_newlines_split(bytes, i, j);
}

/// Scanning for line `m` from `i` passes `m` line feeds, the last just before
/// where it stops.
proof fn lemma_scan_counts(bytes: Seq<u8>, i: int, m: nat)
    requires
        0 <= i <= bytes.len(),
        line_head_from(bytes, i, m) <= bytes.len(),
    ensures
        i <= line_head_from(bytes, i, m),
        newlines_before(bytes, line_head_from(bytes, i, m)) == newlines_before(bytes, i) + m,
        m > 0 ==> bytes[line_head_from(bytes, i, m) - 1] == 10u8,
    decreases bytes.len() - i,
{
    if m > 0 && i < bytes.len() {
        if bytes[i] == 10u8 {
            lemma_scan_counts(bytes, i + 1, (m - 1) as nat);
            lemma_newlines_split(bytes, i + 1, line_head_from(bytes, i, m));
        } else {
            lemma_scan_counts(bytes, i + 1, m);
        }
    }
}

/// A stretch without line feeds keeps the line number and the line start.
proof fn lemma_same_line(bytes: Seq<u8>, h: int, c: int)
    requires
        0 <= h,
        0 <= c,
        h + c <= bytes.len(),
        forall|i: int| h <= i < h + c ==> bytes[i] != 10u8,
    ensures
        newlines_before(bytes, h + c) == newlines_before(bytes, h),
        line_start(bytes, h + c) == line_start(bytes, h),
    decreases c,
{
    if c > 0 {
        lemma_same_line(bytes, h, c - 1);
    }
}

/// A position within its line maps to an index that maps back to it: going
/// from a position to its byte index and back gives the position again.
pub proof fn position_index_round_trip(bytes: Seq<u8>, line: nat, character: nat)
    requires
        line_head(bytes, line) + character <= bytes.len(),
        forall|i: int| line_head(bytes, line) <= i < line_head(bytes, line) + character ==> bytes[i] != 10u8,
    ensures
        newlines_before(bytes, line_head(bytes, line) + character) == line,
        (line_head(bytes, line) + character) - line_start(bytes, line_head(bytes, line) + character) == character,
{
    let h = line_head(bytes, line);
    lemma_scan_counts(bytes, 0, line);
    lemma_same_line(bytes, h, character as int);
    if line == 0 {
        assert(h == 0);
    }
}

/// How severe a diagnostic is.
#[derive(Debug, Eq, PartialEq, Structural, Ord, PartialOrd, Clone, Copy)]
pub struct DiagnosisSeverity(i32);

impl DiagnosisSeverity {
    /// The number a severity is sent as.
    pub closed spec fn level(self) -> i32 {
        self.0
    }

    /// The severity of an error.
    #[allow(non_snake_case)]
    pub fn ERROR() -> (r: DiagnosisSeverity)
        ensures
            r.level() == 1,
    {
        DiagnosisSeverity(1)
    }

    /// The severity of a warning.
    #[allow(non_snake_case)]
    pub fn WARNING() -> (r: DiagnosisSeverity)
        ensures
            r.level() == 2,
    {
        DiagnosisSeverity(2)
    }

    /// The severity of a piece of information.
    #[allow(non_snake_case)]
    pub fn INFORMATION() -> (r: DiagnosisSeverity)
        ensures
            r.level() == 3,
    {
        DiagnosisSeverity(3)
    }

    /// The severity of a hint.
    #[allow(non_snake_case)]
    pub fn HINT() -> (r: DiagnosisSeverity)
        ensures
            r.level() == 4,
    {
        DiagnosisSeverity(4)
    }
}

/// A position in source text: line and character, both counted from 0.
#[derive(Debug, Eq, PartialEq, Structural, Ord, PartialOrd, Copy, Clone, Default)]
pub struct ExprDiagnosticPosition {
    pub line: u32,
    pub character: u32,
}

impl ExprDiagnosticPosition {
    /// A position at `line` and `character`.
    pub fn new(line: u32, character: u32) -> (r: ExprDiagnosticPosition)
        ensures
            r.line == line,
            r.character == character,
    {
        ExprDiagnosticPosition { line, character }
    }
}

/// A range of source text between two positions.
#[derive(Debug, Eq, PartialEq, Structural, Copy, Clone, Default)]
pub struct ExprDiagnosticRange {
    /// The range's start position (inclusive)
    pub start: ExprDiagnosticPosition,
    /// The range's end position (exclusive)
    pub end: ExprDiagnosticPosition,
}

impl ExprDiagnosticRange {
    /// A range from `start` to `end`.
    pub fn new(start: ExprDiagnosticPosition, end: ExprDiagnosticPosition) -> (r: ExprDiagnosticRange)
        ensures
            r.start == start,
            r.end == end,
    {
        ExprDiagnosticRange { start, end }
    }
}

/// An error as a diagnostic: a code, the range it concerns, its severity and its message.
#[derive(Debug, Eq, PartialEq, Clone, Default)]
pub struct ExprDiagnostic {
    pub code: String,
    pub range: ExprDiagnosticRange,
    pub severity: Option<DiagnosisSeverity>,
    pub message: String,
}

/// The position of byte `index` of `source`, each number cut to 32 bits.
pub open spec fn position_of(source: Seq<char>, index: int) -> ExprDiagnosticPosition {
    let bytes = encode_utf8(source);
    ExprDiagnosticPosition {
        line: newlines_before(bytes, index) as u32,
        character: (index - line_start(bytes, index)) as u32,
    }
}

/// The range of a span of `source`.
pub open spec fn range_of(source: Seq<char>, span: Span) -> ExprDiagnosticRange {
    ExprDiagnosticRange { start: position_of(source, span.start as int), end: position_of(source, span.end as int) }
}

/// A span lies within the bytes of `source`.
pub open spec fn span_in(source: Seq<char>, span: Span) -> bool {
    span.start <= encode_utf8(source).len() && span.end <= encode_utf8(source).len()
}

/// The position of byte `idx` of `source`.
pub fn get_position(source: &str, idx: usize) -> (r: ExprDiagnosticPosition)
    requires
        idx <= encode_utf8(source@).len(),
    ensures
        r == position_of(source@, idx as int),
{
    let (line, character) = index_to_position(source, idx);
    ExprDiagnosticPosition::new(line as u32, character as u32)
}

/// The range a span of `source` covers.
pub fn get_range(source: &str, span: &Span) -> (r: ExprDiagnosticRange)
    requires
        span_in(source@, *span),
    ensures
        r == range_of(source@, *span),
{
    ExprDiagnosticRange::new(get_position(source, span.start), get_position(source, span.end))
}

/// The diagnostic of an error with message `message` at `span` of `source`:
/// an empty code, the span's range, error severity.
pub open spec fn diagnostic_is(d: ExprDiagnostic, source: Seq<char>, span: Span, message: Seq<char>) -> bool {
    &&& d.code@ == Seq::<char>::empty()
    &&& d.range == range_of(source, span)
    &&& d.severity matches Some(s) && s.level() == 1
    &&& d.message@ == message
}

fn error_diagnostic(source: &str, span: &Span, message: String) -> (r: ExprDiagnostic)
    requires
        span_in(source@, *span),
    ensures
        diagnostic_is(r, source@, *span, message@),
{
    let code = String::new();
    ExprDiagnostic { code, range: get_range(source, span), severity: Some(DiagnosisSeverity::ERROR()), message }
}

/// Errors that can be shown as diagnostics.
pub trait AsDiagnostic {
    /// The diagnostic of this error at `span` of `source`.
    fn as_diagnostic(&self, source: &str, span: &Span) -> (r: ExprDiagnostic)
        requires
            span_in(source@, *span),
    ;
}

impl AsDiagnostic for ExprError {
    fn as_diagnostic(&self, source: &str, span: &Span) -> (r: ExprDiagnostic)
        ensures
            diagnostic_is(r, source@, *span, error_message(self@)),
    {
        match self {
            ExprError::LexError(e) => e.as_diagnostic(source, span),
            ExprError::CompileError(e) => e.as_diagnostic(source, span),
            ExprError::SyntaxError(e) => e.as_diagnostic(source, span),
            ExprError::RuntimeError(e) => e.as_diagnostic(source, span),
        }
    }
}

impl AsDiagnostic for LexicalError {
    fn as_diagnostic(&self, source: &str, span: &Span) -> (r: ExprDiagnostic)
        ensures
            diagnostic_is(r, source@, *span, error_message(ErrorM::Lex)),
    {
        error_diagnostic(source, span, self.message())
    }
}

impl AsDiagnostic for SyntaxError {
    fn as_diagnostic(&self, source: &str, span: &Span) -> (r: ExprDiagnostic)
        ensures
            diagnostic_is(r, source@, *span, error_message(ExprError::SyntaxError(*self)@)),
    {
        error_diagnostic(source, span, self.message())
    }
}

impl AsDiagnostic for CompileError {
    fn as_diagnostic(&self, source: &str, span: &Span) -> (r: ExprDiagnostic)
        ensures
            diagnostic_is(r, source@, *span, error_message(ExprError::CompileError(*self)@)),
    {
        error_diagnostic(source, span, self.message())
    }
}

impl AsDiagnostic for RuntimeError {
    fn as_diagnostic(&self, source: &str, span: &Span) -> (r: ExprDiagnostic)
        ensures
            diagnostic_is(r, source@, *span, error_message(ExprError::RuntimeError(*self)@)),
    {
        error_diagnostic(source, span, self.message())
    }
}

} // verus!
