//! Diagnostics for the language server: the analysis of a document as ranges in
//! the editor's coordinates, counted from zero.
use vstd::prelude::*;
use crate::ast::Query;
use crate::error::{errors_view, warnings_view, LintError, LintErrorView, LintWarning, LintWarningView, Position, Span};
use crate::lexer::input_fits;
use crate::output::{capped, first_newline, lemma_first_newline, minus_one, utf8_len, utf8_width};
use crate::parser::ParseResult;
use crate::validation::NumberFacts;
use crate::{analysis_spec, parse_query, parse_spec, BrandwatchLinter};

verus! {

/// A place in a document, from the first line and the first character on.
#[derive(Clone, Copy, Debug, PartialEq, Eq, Structural)]
pub struct LspPosition {
    pub line: u32,
    pub character: u32,
}

/// The part of a document from `start` up to `end`.
#[derive(Clone, Copy, Debug, PartialEq, Eq, Structural)]
pub struct LspRange {
    pub start: LspPosition,
    pub end: LspPosition,
}

/// The position `pos` counted from zero: its line and column less one, no less
/// than zero, kept to their low 32 bits.
pub open spec fn lsp_position(pos: Position) -> LspPosition {
    LspPosition { line: minus_one(pos.line) as u32, character: minus_one(pos.column) as u32 }
}

/// The editor position of a query position is its line and its column each less
/// one, whatever its offset in the text: a position at column 1 of any line is at
/// character 0, and two positions on the same line and column map alike.
pub proof fn law_lsp_position_from_line_and_column(p: Position, q: Position)
    ensures
        1 <= p.column <= u32::MAX + 1 ==> lsp_position(p).character == p.column - 1,
        1 <= p.line <= u32::MAX + 1 ==> lsp_position(p).line == p.line - 1,
        p.column == 1 ==> lsp_position(p).character == 0,
        p.line == q.line && p.column == q.column ==> lsp_position(p) == lsp_position(q),
{
}

/// The position `pos` counted from zero.
pub fn position_to_lsp(pos: &Position) -> (r: LspPosition)
    ensures
        r == lsp_position(*pos),
{
    LspPosition { line: pos.line.saturating_sub(1) as u32, character: pos.column.saturating_sub(1) as u32 }
}

/// The range of `span` counted from zero.
pub fn span_to_range(span: &Span) -> (r: LspRange)
    ensures
        r == (LspRange { start: lsp_position(span.start), end: lsp_position(span.end) }),
{
    LspRange { start: position_to_lsp(&span.start), end: position_to_lsp(&span.end) }
}

/// Where line `k` of `s` starts, lines counted from zero and ended by `\n`; none
/// when `s` has fewer lines.
pub open spec fn line_start(s: Seq<char>, k: nat) -> Option<nat>
    decreases k,
{
    if k == 0 {
        Some(0)
    } else {
        match line_start(s, (k - 1) as nat) {
            None => None,
            Some(p) => {
                let n = p + first_newline(s.skip(p as int));
                if p <= s.len() && n < s.len() { Some((n + 1) as nat) } else { None }
            },
        }
    }
}

/// Where the text of the line starting at `p` ends: before its `\n`, or before the
/// `\r\n` that ends it, or at the end of `s`.
pub open spec fn line_content_end(s: Seq<char>, p: nat) -> nat {
    let n = p + first_newline(s.skip(p as int));
    if n < s.len() && n > p && s[n - 1] == '\r' { (n - 1) as nat } else { n }
}

/// The number of UTF-16 code units of `c`.
pub open spec fn utf16_width(c: char) -> nat {
    if (c as u32) < 0x10000 { 1 } else { 2 }
}

/// The bytes of the characters of `line` that start before `target` UTF-16 code
/// units, `count` units having come before them.
pub open spec fn utf16_prefix_bytes(line: Seq<char>, target: nat, count: nat) -> nat
    decreases line.len(),
{
    if line.len() == 0 || count >= target {
        0
    } else {
        utf8_width(line[0]) + utf16_prefix_bytes(line.drop_first(), target, count + utf16_width(line[0]))
    }
}

/// The byte offset in `s` of the place at `line` and UTF-16 `character`, counted
/// from zero: past the end of the line's text it is the line's end, past the last
/// line the end of `s`.
pub open spec fn byte_position(s: Seq<char>, line: nat, character: nat) -> nat {
    match line_start(s, line) {
        None => utf8_len(s),
        Some(p) => utf8_len(s.take(p as int)) + utf16_prefix_bytes(s.subrange(p as int, line_content_end(s, p) as int), character, 0),
    }
}

proof fn lemma_line_start_none(s: Seq<char>, k: nat, m: nat)
    requires
        k <= m,
        line_start(s, k) is None,
    ensures
        line_start(s, m) is None,
    decreases m,
{
    if k < m {
        lemma_line_start_none(s, k, (m - 1) as nat);
    }
}

/// The index of the first `\n` of `chars` from `from` on, or the length of `chars`.
fn find_newline(chars: &Vec<char>, from: usize) -> (r: usize)
    requires
        from <= chars@.len(),
    ensures
        r == from + first_newline(chars@.skip(from as int)),
        r <= chars@.len(),
{
    let mut i = from;
    proof {
        lemma_first_newline(chars@.skip(from as int));
    }
    while i < chars.len() && chars[i] != '\n'
        invariant
            from <= i <= chars@.len(),
            first_newline(chars@.skip(from as int)) == (i - from) + first_newline(chars@.skip(i as int)),
        decreases chars@.len() - i,
    {
        assert(chars@.skip(i as int).drop_first() =~= chars@.skip(i + 1));
        i += 1;
    }
    proof {
        if i < chars@.len() {
            assert(chars@.skip(i as int)[0] == '\n');
        } else {
            assert(chars@.skip(i as int) =~= Seq::<char>::empty());
        }
    }
    i
}

/// The bytes of `chars[from..to]` in UTF-8, or `usize::MAX` if that is more.
fn bytes_between(chars: &Vec<char>, from: usize, to: usize) -> (r: usize)
    requires
        from <= to <= chars@.len(),
    ensures
        r == capped(utf8_len(chars@.subrange(from as int, to as int))),
{
    let mut total: usize = 0;
    let mut i = from;
    assert(chars@.subrange(from as int, from as int) =~= Seq::<char>::empty());
    while i < to
        invariant
            from <= i <= to <= chars@.len(),
            total == capped(utf8_len(chars@.subrange(from as int, i as int))),
        decreases to - i,
    {
        assert(chars@.subrange(from as int, i + 1).drop_last() =~= chars@.subrange(from as int, i as int));
        let c = chars[i];
        let w: usize = if (c as u32) < 0x80 {
            1
        } else if (c as u32) < 0x800 {
            2
        } else if (c as u32) < 0x10000 {
            3
        } else {
            4
        };
        total = total.saturating_add(w);
        i += 1;
    }
    total
}

/// The bytes of the characters of `chars[from..to]` that start before `target`
/// UTF-16 code units, or `usize::MAX` if that is more.
fn utf16_bytes(chars: &Vec<char>, from: usize, to: usize, target: u32) -> (r: usize)
    requires
        from <= to <= chars@.len(),
    ensures
        r == capped(utf16_prefix_bytes(chars@.subrange(from as int, to as int), target as nat, 0)),
{
    let ghost line = chars@.subrange(from as int, to as int);
    let ghost mut done: nat = 0;
    let mut count: u64 = 0;
    let mut bytes: usize = 0;
    let mut i = from;
    assert(chars@.subrange(from as int, to as int) =~= line);
    while i < to && count < target as u64
        invariant
            from <= i <= to <= chars@.len(),
            line == chars@.subrange(from as int, to as int),
            count <= target as u64 + 1,
            utf16_prefix_bytes(line, target as nat, 0) == done + utf16_prefix_bytes(chars@.subrange(i as int, to as int), target as nat, count as nat),
            bytes == capped(done),
        decreases to - i,
    {
        assert(chars@.subrange(i as int, to as int).drop_first() =~= chars@.subrange(i + 1, to as int));
        assert(chars@.subrange(i as int, to as int)[0] == chars@[i as int]);
        let c = chars[i];
        let code = c as u32;
        let w8: usize = if code < 0x80 {
            1
        } else if code < 0x800 {
            2
        } else if code < 0x10000 {
            3
        } else {
            4
        };
        let w16: u64 = if code < 0x10000 { 1 } else { 2 };
        proof {
            done = done + w8 as nat;
        }
        bytes = bytes.saturating_add(w8);
        count = count + w16;
        i += 1;
    }
    proof {
        if i >= to {
            assert(chars@.subrange(i as int, to as int) =~= Seq::<char>::empty());
        }
    }
    bytes
}

/// The byte offset in `text` of the editor position `position` (a line and a
/// UTF-16 character, from zero): see `byte_position`; `usize::MAX` if that is more.
pub fn lsp_position_to_byte_position(text: &str, position: LspPosition) -> (r: usize)
    ensures
        r == capped(byte_position(text@, position.line as nat, position.character as nat)),
{
    let chars = crate::text::chars_of(text);
    let ghost s = text@;
    let mut k: u32 = 0;
    let mut p: usize = 0;
    while k < position.line
        invariant
            chars@ == s,
            s == text@,
            k <= position.line,
            line_start(s, k as nat) == Some(p as nat),
            p <= s.len(),
        decreases position.line - k,
    {
        let n = find_newline(&chars, p);
        if n >= chars.len() {
            proof {
                assert(line_start(s, k as nat) == Some(p as nat));
                assert(((k + 1) as nat - 1) as nat == k as nat);
                assert(line_start(s, (k + 1) as nat) is None);
                lemma_line_start_none(s, (k + 1) as nat, position.line as nat);
                assert(s.subrange(0, s.len() as int) =~= s);
            }
            return bytes_between(&chars, 0, chars.len());
        }
        p = n + 1;
        k += 1;
    }
    let n = find_newline(&chars, p);
    let e = if n < chars.len() && n > p && chars[n - 1] == '\r' { n - 1 } else { n };
    assert(e == line_content_end(s, p as nat));
    assert(s.take(p as int) =~= s.subrange(0, p as int));
    let before = bytes_between(&chars, 0, p);
    let within = utf16_bytes(&chars, p, e, position.character);
    before.saturating_add(within)
}

/// How serious a diagnostic is.
#[derive(Clone, Copy, Debug, PartialEq, Eq, Structural)]
pub enum DiagnosticSeverity {
    Error,
    Warning,
}

/// A finding shown in the editor: where, how serious, its code, what reports it
/// and its text.
#[derive(Clone, Debug, PartialEq)]
pub struct Diagnostic {
    pub range: LspRange,
    pub severity: DiagnosticSeverity,
    pub code: String,
    pub source: String,
    pub message: String,
}

pub struct DiagnosticView {
    pub range: LspRange,
    pub severity: DiagnosticSeverity,
    pub code: Seq<char>,
    pub source: Seq<char>,
    pub message: Seq<char>,
}

impl View for Diagnostic {
    type V = DiagnosticView;

    open spec fn view(&self) -> DiagnosticView {
        DiagnosticView {
            range: self.range,
            severity: self.severity,
            code: self.code@,
            source: self.source@,
            message: self.message@,
        }
    }
}

/// The diagnostic for the error `e`.
pub open spec fn error_diagnostic(e: LintErrorView) -> DiagnosticView {
    DiagnosticView {
        range: LspRange { start: lsp_position(e.span().start), end: lsp_position(e.span().end) },
        severity: DiagnosticSeverity::Error,
        code: e.code(),
        source: "bwq"@,
        message: e.text(),
    }
}

/// The diagnostic for the warning `w`.
pub open spec fn warning_diagnostic(w: LintWarningView) -> DiagnosticView {
    DiagnosticView {
        range: LspRange { start: lsp_position(w.span().start), end: lsp_position(w.span().end) },
        severity: DiagnosticSeverity::Warning,
        code: w.code(),
        source: "bwq"@,
        message: w.text(),
    }
}

/// The diagnostics of the errors `errors` and then of the warnings `warnings`.
pub open spec fn diagnostics_of(errors: Seq<LintErrorView>, warnings: Seq<LintWarningView>) -> Seq<DiagnosticView> {
    errors.map_values(|e: LintErrorView| error_diagnostic(e)) + warnings.map_values(|w: LintWarningView| warning_diagnostic(w))
}

/// The views of `ds`.
pub open spec fn diagnostics_view(ds: Seq<Diagnostic>) -> Seq<DiagnosticView> {
    ds.map_values(|d: Diagnostic| d@)
}

/// Turns analyses into diagnostics.
pub struct DiagnosticsHandler;

impl DiagnosticsHandler {
    pub fn new() -> (r: Self) {
        DiagnosticsHandler
    }

    /// The diagnostic for `error`.
    fn error_to_diagnostic(&self, error: &LintError) -> (r: Diagnostic)
        ensures
            r@ == error_diagnostic(error@),
    {
        Diagnostic {
            range: span_to_range(error.span()),
            severity: DiagnosticSeverity::Error,
            code: crate::text::owned(error.code()),
            source: crate::text::owned("bwq"),
            message: error.message(),
        }
    }

    /// The diagnostic for `warning`.
    fn warning_to_diagnostic(&self, warning: &LintWarning) -> (r: Diagnostic)
        ensures
            r@ == warning_diagnostic(warning@),
    {
        Diagnostic {
            range: span_to_range(warning.span()),
            severity: DiagnosticSeverity::Warning,
            code: crate::text::owned(warning.code()),
            source: crate::text::owned("bwq"),
            message: warning.message(),
        }
    }

    /// The diagnostics of the errors `errors` and then of the warnings `warnings`.
    fn diagnostics(&self, errors: &Vec<LintError>, warnings: &Vec<LintWarning>) -> (r: Vec<Diagnostic>)
        ensures
            diagnostics_view(r@) == diagnostics_of(errors_view(errors@), warnings_view(warnings@)),
    {
        let ghost es = errors_view(errors@);
        let ghost ws = warnings_view(warnings@);
        let ghost ed = es.map_values(|e: LintErrorView| error_diagnostic(e));
        let ghost wd = ws.map_values(|w: LintWarningView| warning_diagnostic(w));
        let mut out: Vec<Diagnostic> = Vec::new();
        let mut i: usize = 0;
        while i < errors.len()
            invariant
                es == errors_view(errors@),
                ed == es.map_values(|e: LintErrorView| error_diagnostic(e)),
                0 <= i <= errors@.len(),
                diagnostics_view(out@) == ed.take(i as int),
            decreases errors@.len() - i,
        {
            let d = self.error_to_diagnostic(&errors[i]);
            assert(es[i as int] == errors@[i as int]@);
            assert(ed[i as int] == error_diagnostic(es[i as int]));
            let ghost before = out@;
            out.push(d);
            assert(diagnostics_view(out@) =~= diagnostics_view(before).push(d@));
            assert(diagnostics_view(out@) =~= ed.take(i + 1));
            i += 1;
        }
        assert(ed.take(errors@.len() as int) =~= ed);
        let mut j: usize = 0;
        while j < warnings.len()
            invariant
                ws == warnings_view(warnings@),
                wd == ws.map_values(|w: LintWarningView| warning_diagnostic(w)),
                0 <= j <= warnings@.len(),
                diagnostics_view(out@) == ed + wd.take(j as int),
            decreases warnings@.len() - j,
        {
            let d = self.warning_to_diagnostic(&warnings[j]);
            assert(ws[j as int] == warnings@[j as int]@);
            assert(wd[j as int] == warning_diagnostic(ws[j as int]));
            let ghost before = out@;
            out.push(d);
            assert(diagnostics_view(out@) =~= diagnostics_view(before).push(d@));
            assert(diagnostics_view(out@) =~= ed + wd.take(j + 1));
            j += 1;
        }
        assert(wd.take(warnings@.len() as int) =~= wd);
        out
    }

    /// The diagnostics of `content`, values reading as numbers as `numbers` says:
    /// those of its errors, then of its warnings.
    pub fn analyze_content(&self, content: &str, linter: &mut BrandwatchLinter, numbers: &NumberFacts) -> (r: Vec<Diagnostic>)
        requires
            input_fits(content@.len() as int),
        ensures
            diagnostics_view(r@) == diagnostics_of(analysis_spec(content@, numbers@).errors, analysis_spec(content@, numbers@).warnings),
    {
        let analysis = linter.analyze(content, numbers);
        self.diagnostics(&analysis.errors, &analysis.warnings)
    }

    /// The diagnostics of `content`, values reading as numbers as `numbers` says, with
    /// its parsed query when it parses.
    pub fn analyze_content_with_ast(
        &self,
        content: &str,
        linter: &mut BrandwatchLinter,
        numbers: &NumberFacts,
    ) -> (r: (Vec<Diagnostic>, Option<Query>))
        requires
            input_fits(content@.len() as int),
        ensures
            diagnostics_view(r.0@) == diagnostics_of(analysis_spec(content@, numbers@).errors, analysis_spec(content@, numbers@).warnings),
            match parse_spec(content@) {
                Ok(p) => r.1 matches Some(q) && q@ == p.query,
                Err(_) => r.1 is None,
            },
    {
        let diagnostics = self.analyze_content(content, linter, numbers);
        let ast = match parse_query(content) {
            Ok(ParseResult { query, .. }) => Some(query),
            Err(_) => None,
        };
        (diagnostics, ast)
    }
}

impl Default for DiagnosticsHandler {
    fn default() -> (r: Self) {
        DiagnosticsHandler::new()
    }
}

} // verus!
