//! The text the command line prints for an analysis: each diagnostic with the
//! lines of the query around it and its span underlined.
use vstd::prelude::*;
use crate::error::{errors_view, warnings_view, LintError, LintErrorView, LintWarning, LintWarningView, Span};
use crate::{AnalysisResult, AnalysisView};
use crate::number::{decimal, decimal_len, push_decimal};

verus! {

/// The width that Unicode gives `c` in its tables (UAX #11, ambiguous characters
/// narrow), for a character from U+00A0 on.
pub uninterp spec fn table_width(c: char) -> nat;

/// The characters from U+0020 to U+007E.
pub open spec fn printable_ascii(c: char) -> bool {
    0x20 <= (c as u32) && (c as u32) < 0x7F
}

/// The control characters: below U+0020, and from U+007F to U+009F.
pub open spec fn control_code(c: char) -> bool {
    (c as u32) < 0x20 || (0x7F <= (c as u32) && (c as u32) < 0xA0)
}

/// The displayed width of `c` as the `unicode-width` crate gives it: none for a
/// control character; one column for the ellipsis, an ambiguous-width character.
pub open spec fn unicode_width_of(c: char) -> Option<nat> {
    if printable_ascii(c) {
        Some(1)
    } else if control_code(c) {
        None
    } else if c == '\u{2026}' {
        Some(1)
    } else {
        Some(table_width(c))
    }
}

/// `UnicodeWidthChar::width` of the `unicode-width` crate: no width for the control
/// characters below U+0020 and from U+007F to U+009F, one column for the other
/// characters below U+007F, one column for the ellipsis U+2026 (an ambiguous-width
/// character, which this function counts as narrow), and for the others the width
/// of its tables, named `table_width` and at most 3 there; the tables are not
/// written out here.
#[verifier::external_body]
fn unicode_width(c: char) -> (r: Option<usize>)
    ensures
        r == (if printable_ascii(c) {
            Some(1usize)
        } else if control_code(c) {
            None
        } else if c == '\u{2026}' {
            Some(1usize)
        } else {
            Some(table_width(c) as usize)
        }),
        r matches Some(w) ==> w <= 3 && (printable_ascii(c) || c == '\u{2026}' || w == table_width(c)),
{
    unicode_width::UnicodeWidthChar::width(c)
}

/// The columns that `c` takes on a terminal: four for a tab, none for a control
/// character.
pub open spec fn char_cols(c: char) -> nat {
    if c == '\t' {
        4
    } else {
        match unicode_width_of(c) {
            Some(w) => w,
            None => 0,
        }
    }
}

/// The columns that the characters `s` take.
pub open spec fn cols_of(s: Seq<char>) -> nat
    decreases s.len(),
{
    if s.len() == 0 {
        0
    } else {
        cols_of(s.drop_last()) + char_cols(s.last())
    }
}

/// The columns that `c` takes on a terminal.
pub fn char_width(c: char) -> (r: usize)
    ensures
        r == char_cols(c),
        r <= 4,
{
    if c == '\t' {
        4
    } else {
        match unicode_width(c) {
            Some(w) => w,
            None => 0,
        }
    }
}

/// The columns that `s` takes, or `usize::MAX` if that is more.
pub fn str_width(s: &str) -> (r: usize)
    ensures
        r == if cols_of(s@) <= usize::MAX { cols_of(s@) } else { usize::MAX as nat },
{
    let cs = crate::text::chars_of(s);
    let mut total: usize = 0;
    let mut i: usize = 0;
    while i < cs.len()
        invariant
            0 <= i <= cs@.len(),
            cs@ == s@,
            total == if cols_of(cs@.take(i as int)) <= usize::MAX { cols_of(cs@.take(i as int)) } else { usize::MAX as nat },
        decreases cs@.len() - i,
    {
        assert(cs@.take(i + 1).drop_last() =~= cs@.take(i as int));
        total = total.saturating_add(char_width(cs[i]));
        i += 1;
    }
    assert(cs@.take(cs@.len() as int) =~= cs@);
    total
}

/// The columns of two strings side by side are the columns of each, added.
pub proof fn law_cols_concat(a: Seq<char>, b: Seq<char>)
    ensures
        cols_of(a + b) == cols_of(a) + cols_of(b),
    decreases b.len(),
{
    if b.len() == 0 {
        assert(a + b =~= a);
    } else {
        law_cols_concat(a, b.drop_last());
        assert((a + b).drop_last() =~= a + b.drop_last());
    }
}

/// The columns of `cs[a..c]` are those of `cs[a..b]` and of `cs[b..c]`.
proof fn lemma_cols_split(cs: Seq<char>, a: int, b: int, c: int)
    requires
        0 <= a <= b <= c <= cs.len(),
    ensures
        cols_of(cs.subrange(a, c)) == cols_of(cs.subrange(a, b)) + cols_of(cs.subrange(b, c)),
{
    assert(cs.subrange(a, c) =~= cs.subrange(a, b) + cs.subrange(b, c));
    law_cols_concat(cs.subrange(a, b), cs.subrange(b, c));
}

proof fn lemma_cols_one(cs: Seq<char>, i: int)
    requires
        0 <= i < cs.len(),
    ensures
        cols_of(cs.subrange(i, i + 1)) == char_cols(cs[i]),
{
    assert(cs.subrange(i, i + 1).drop_last() =~= Seq::<char>::empty());
    assert(cols_of(Seq::<char>::empty()) == 0);
    assert(cs.subrange(i, i + 1).last() == cs[i]);
}

/// `k` characters of `cs`, counted from the left, fit in `avail` columns, and no more do.
pub open spec fn fits_from_left(cs: Seq<char>, k: int, avail: int) -> bool {
    &&& 0 <= k <= cs.len()
    &&& cols_of(cs.subrange(0, k)) <= avail
    &&& (k == cs.len() || cols_of(cs.subrange(0, k + 1)) > avail)
}

/// The characters of `cs` before `end` that fit in `avail` columns start at `s`,
/// and no earlier start fits.
pub open spec fn fits_before(cs: Seq<char>, s: int, end: int, avail: int) -> bool {
    &&& 0 <= s <= end <= cs.len()
    &&& cols_of(cs.subrange(s, end)) <= avail
    &&& (s == 0 || cols_of(cs.subrange(s - 1, end)) > avail)
}

/// The characters of `cs` from `start` that fit in `avail` columns end at `e`, and
/// no later end fits.
pub open spec fn fits_after(cs: Seq<char>, start: int, e: int, avail: int) -> bool {
    &&& 0 <= start <= e <= cs.len()
    &&& cols_of(cs.subrange(start, e)) <= avail
    &&& (e == cs.len() || cols_of(cs.subrange(start, e + 1)) > avail)
}

/// How many characters of `cs` fit in `avail` columns from the left.
pub open spec fn fit_len(cs: Seq<char>, avail: int) -> int {
    choose|k: int| fits_from_left(cs, k, avail)
}

/// Where the characters before `end` that fit in `avail` columns start.
pub open spec fn fit_start(cs: Seq<char>, end: int, avail: int) -> int {
    choose|s: int| fits_before(cs, s, end, avail)
}

/// Where the characters from `start` that fit in `avail` columns end.
pub open spec fn fit_end(cs: Seq<char>, start: int, avail: int) -> int {
    choose|e: int| fits_after(cs, start, e, avail)
}

proof fn lemma_fits_after_unique(cs: Seq<char>, start: int, e: int, avail: int)
    requires
        fits_after(cs, start, e, avail),
    ensures
        fit_end(cs, start, avail) == e,
{
    let f = fit_end(cs, start, avail);
    assert(fits_after(cs, start, f, avail));
    if f < e {
        lemma_cols_split(cs, start, f + 1, e);
    } else if e < f {
        lemma_cols_split(cs, start, e + 1, f);
    }
}

proof fn lemma_fits_before_unique(cs: Seq<char>, s: int, end: int, avail: int)
    requires
        fits_before(cs, s, end, avail),
    ensures
        fit_start(cs, end, avail) == s,
{
    let f = fit_start(cs, end, avail);
    assert(fits_before(cs, f, end, avail));
    if f < s {
        lemma_cols_split(cs, f, s - 1, end);
    } else if s < f {
        lemma_cols_split(cs, s, f - 1, end);
    }
}

proof fn lemma_fits_from_left_unique(cs: Seq<char>, k: int, avail: int)
    requires
        fits_from_left(cs, k, avail),
    ensures
        fit_len(cs, avail) == k,
{
    let f = fit_len(cs, avail);
    assert(fits_from_left(cs, f, avail));
    if f < k {
        lemma_cols_split(cs, 0, f + 1, k);
    } else if k < f {
        lemma_cols_split(cs, 0, k + 1, f);
    }
}

/// How diagnostics are written.
#[derive(Clone, Copy, Debug, PartialEq, Eq, Structural)]
pub enum OutputFormat {
    Text,
    Json,
}

/// Writes the diagnostics of analyses.
pub struct Printer {
    pub format: OutputFormat,
    pub show_warnings: bool,
}

/// The part of a long line that is shown: the characters from `start_char` to `end_char`.
struct ContextWindow {
    start_char: usize,
    end_char: usize,
}

/// The window around `chars[span_start..span_end]`, which takes `span_width`
/// columns: as many characters on each side as fit in half of what is left of
/// `available_width`.
fn find_context_window(
    chars: &[char],
    span_start: usize,
    span_end: usize,
    span_width: usize,
    available_width: usize,
) -> (r: ContextWindow)
    requires
        span_start <= span_end <= chars@.len(),
        span_width <= available_width,
    ensures
        r.start_char == fit_start(chars@, span_start as int, ((available_width - span_width) / 2) as int),
        r.end_char == fit_end(chars@, span_end as int, ((available_width - span_width) / 2) as int),
        fits_before(chars@, r.start_char as int, span_start as int, ((available_width - span_width) / 2) as int),
        fits_after(chars@, span_end as int, r.end_char as int, ((available_width - span_width) / 2) as int),
{
    let remaining_width = available_width - span_width;
    let context_width_per_side = remaining_width / 2;
    let ghost cs = chars@;
    let ghost per = context_width_per_side as int;

    let mut before_width: usize = 0;
    let mut window_start = span_start;
    proof {
        assert(cs.subrange(span_start as int, span_start as int) =~= Seq::<char>::empty());
    }
    loop
        invariant
            cs == chars@,
            per == context_width_per_side,
            0 <= window_start <= span_start <= span_end <= cs.len(),
            before_width == cols_of(cs.subrange(window_start as int, span_start as int)),
            before_width <= per,
        ensures
            fits_before(cs, window_start as int, span_start as int, per),
        decreases window_start,
    {
        if window_start == 0 {
            break;
        }
        let i = window_start - 1;
        let ch_width = char_width(chars[i]);
        proof {
            lemma_cols_split(cs, i as int, window_start as int, span_start as int);
            lemma_cols_one(cs, i as int);
        }
        if ch_width > context_width_per_side - before_width {
            break;
        }
        before_width += ch_width;
        window_start = i;
    }

    let mut after_width: usize = 0;
    let mut window_end = span_end;
    proof {
        assert(cs.subrange(span_end as int, span_end as int) =~= Seq::<char>::empty());
    }
    loop
        invariant
            cs == chars@,
            per == context_width_per_side,
            0 <= span_end <= window_end <= cs.len(),
            after_width == cols_of(cs.subrange(span_end as int, window_end as int)),
            after_width <= per,
        ensures
            fits_after(cs, span_end as int, window_end as int, per),
        decreases cs.len() - window_end,
    {
        if window_end >= chars.len() {
            break;
        }
        let ch_width = char_width(chars[window_end]);
        proof {
            lemma_cols_split(cs, span_end as int, window_end as int, window_end + 1);
            lemma_cols_one(cs, window_end as int);
        }
        if ch_width > context_width_per_side - after_width {
            break;
        }
        after_width += ch_width;
        window_end += 1;
    }
    proof {
        lemma_fits_before_unique(cs, window_start as int, span_start as int, per);
        lemma_fits_after_unique(cs, span_end as int, window_end as int, per);
    }
    ContextWindow { start_char: window_start, end_char: window_end }
}

/// Appends the characters `chars[from..to]` to `s`.
fn push_chars(s: &mut String, chars: &[char], from: usize, to: usize)
    requires
        from <= to <= chars@.len(),
    ensures
        final(s)@ == old(s)@ + chars@.subrange(from as int, to as int),
{
    let mut i = from;
    while i < to
        invariant
            from <= i <= to <= chars@.len(),
            s@ == old(s)@ + chars@.subrange(from as int, i as int),
        decreases to - i,
    {
        crate::text::push_char(s, chars[i]);
        assert(chars@.subrange(from as int, i + 1) =~= chars@.subrange(from as int, i as int).push(chars@[i as int]));
        i += 1;
    }
}

/// The characters of the window, with `ellipsis` where characters were left out on
/// either side, and how many characters were left out on the left (none when none were).
fn build_truncated_display(chars: &[char], window: ContextWindow, ellipsis: &str) -> (r: (String, usize))
    requires
        window.start_char <= window.end_char <= chars@.len(),
    ensures
        r.0@ == (if window.start_char > 0 { ellipsis@ } else { Seq::empty() })
            + chars@.subrange(window.start_char as int, window.end_char as int)
            + (if window.end_char < chars@.len() { ellipsis@ } else { Seq::empty() }),
        r.1 == if window.start_char > 0 { window.start_char } else { 0 },
{
    let mut result = String::new();
    let char_offset = if window.start_char > 0 {
        crate::text::push_str(&mut result, ellipsis);
        window.start_char
    } else {
        0
    };
    push_chars(&mut result, chars, window.start_char, window.end_char);
    if window.end_char < chars.len() {
        crate::text::push_str(&mut result, ellipsis);
    }
    proof {
        let left: Seq<char> = if window.start_char > 0 { ellipsis@ } else { Seq::empty() };
        let right: Seq<char> = if window.end_char < chars@.len() { ellipsis@ } else { Seq::empty() };
        assert(result@ =~= left + chars@.subrange(window.start_char as int, window.end_char as int) + right);
    }
    (result, char_offset)
}

/// The characters from the left of `chars` that fit in `available_width` columns.
fn fitting_prefix(chars: &[char], available_width: usize) -> (r: String)
    ensures
        r@ == chars@.subrange(0, fit_len(chars@, available_width as int)),
{
    let ghost cs = chars@;
    let mut result_width: usize = 0;
    let mut truncated = String::new();
    let mut k: usize = 0;
    assert(cs.subrange(0, 0) =~= Seq::<char>::empty());
    loop
        invariant
            cs == chars@,
            0 <= k <= cs.len(),
            result_width == cols_of(cs.subrange(0, k as int)),
            result_width <= available_width,
            truncated@ == cs.subrange(0, k as int),
        ensures
            fits_from_left(cs, k as int, available_width as int),
            truncated@ == cs.subrange(0, k as int),
        decreases cs.len() - k,
    {
        if k >= chars.len() {
            break;
        }
        let ch = chars[k];
        let ch_width = char_width(ch);
        proof {
            lemma_cols_split(cs, 0, k as int, k + 1);
            lemma_cols_one(cs, k as int);
        }
        if ch_width > available_width - result_width {
            break;
        }
        result_width += ch_width;
        crate::text::push_char(&mut truncated, ch);
        assert(cs.subrange(0, k + 1) =~= cs.subrange(0, k as int).push(ch));
        k += 1;
    }
    proof {
        lemma_fits_from_left_unique(cs, k as int, available_width as int);
    }
    truncated
}

/// The part of the span `chars[span_start..span_end]` that fits in
/// `available_width` columns, between two ellipses.
fn truncate_span_only(
    chars: &[char],
    span_start: usize,
    span_end: usize,
    available_width: usize,
    ellipsis: &str,
) -> (r: (String, usize))
    requires
        span_start <= span_end <= chars@.len(),
    ensures
        ({
            let span = chars@.subrange(span_start as int, span_end as int);
            r.0@ == ellipsis@ + span.subrange(0, fit_len(span, available_width as int)) + ellipsis@
        }),
        r.1 == span_start,
{
    let mut span: Vec<char> = Vec::new();
    push_char_range(&mut span, chars, span_start, span_end);
    let truncated = fitting_prefix(span.as_slice(), available_width);
    let mut result = crate::text::owned(ellipsis);
    crate::text::push_str(&mut result, truncated.as_str());
    crate::text::push_str(&mut result, ellipsis);
    (result, span_start)
}

/// Appends `chars[from..to]` to `v`.
fn push_char_range(v: &mut Vec<char>, chars: &[char], from: usize, to: usize)
    requires
        from <= to <= chars@.len(),
    ensures
        final(v)@ == old(v)@ + chars@.subrange(from as int, to as int),
{
    let mut i = from;
    while i < to
        invariant
            from <= i <= to <= chars@.len(),
            v@ == old(v)@ + chars@.subrange(from as int, i as int),
        decreases to - i,
    {
        v.push(chars[i]);
        assert(chars@.subrange(from as int, i + 1) =~= chars@.subrange(from as int, i as int).push(chars@[i as int]));
        i += 1;
    }
}

/// The characters from the left of `chars` that fit in `available_width` columns,
/// followed by an ellipsis.
fn truncate_from_start(chars: &[char], available_width: usize, ellipsis: &str) -> (r: (String, usize))
    ensures
        r.0@ == chars@.subrange(0, fit_len(chars@, available_width as int)) + ellipsis@,
        r.1 == 0,
{
    let mut truncated = fitting_prefix(chars, available_width);
    crate::text::push_str(&mut truncated, ellipsis);
    (truncated, 0)
}

/// The ellipsis that marks where characters of a long line were left out.
pub open spec fn ellipsis() -> Seq<char> {
    "\u{2026}"@
}

/// `n`, or `usize::MAX` if that is less.
pub open spec fn capped(n: nat) -> nat {
    if n <= usize::MAX { n } else { usize::MAX as nat }
}

/// `n - 1`, or 0 for 0.
pub open spec fn minus_one(n: usize) -> nat {
    if n == 0 { 0 } else { (n - 1) as nat }
}

pub open spec fn min_nat(a: nat, b: nat) -> nat {
    if a <= b { a } else { b }
}

/// What is shown of a `line` wider than `max_width` columns, and how many of its
/// characters were left out on the left: the part around the columns `span_cols`
/// of a span, or the start of the line, with an ellipsis where characters were
/// left out.
#[verifier::opaque]
pub open spec fn truncated_line(line: Seq<char>, span_cols: Option<(usize, usize)>, max_width: nat) -> (Seq<char>, nat) {
    let e = ellipsis();
    let ew = cols_of(e);
    if capped(cols_of(line)) <= max_width {
        (line, 0)
    } else if max_width < ew * 2 + 1 {
        (e, 0)
    } else {
        let avail = (max_width - ew * 2) as nat;
        match span_cols {
            Some((a, b)) => {
                let s = min_nat(minus_one(a), line.len());
                let t = min_nat(minus_one(b), line.len());
                let span = line.subrange(s as int, t as int);
                if cols_of(span) >= avail {
                    (e + span.subrange(0, fit_len(span, avail as int)) + e, s)
                } else {
                    let per = (avail - cols_of(span)) / 2;
                    let ws = fit_start(line, s as int, per as int);
                    let we = fit_end(line, t as int, per as int);
                    (
                        (if ws > 0 { e } else { Seq::empty() }) + line.subrange(ws, we) + (if we < line.len() { e } else { Seq::empty() }),
                        if ws > 0 { ws as nat } else { 0 },
                    )
                }
            },
            None => (line.subrange(0, fit_len(line, avail as int)) + e, 0),
        }
    }
}

/// Whether a span's columns lie in order on `line` once clamped to it.
pub open spec fn span_cols_ordered(line: Seq<char>, span_cols: Option<(usize, usize)>) -> bool {
    match span_cols {
        Some((a, b)) => min_nat(minus_one(a), line.len()) <= min_nat(minus_one(b), line.len()),
        None => true,
    }
}

/// The columns of `chars[from..to]`, or `usize::MAX` if that is more.
fn cols_between(chars: &[char], from: usize, to: usize) -> (r: usize)
    requires
        from <= to <= chars@.len(),
    ensures
        r == if cols_of(chars@.subrange(from as int, to as int)) <= usize::MAX {
            cols_of(chars@.subrange(from as int, to as int))
        } else {
            usize::MAX as nat
        },
{
    let mut total: usize = 0;
    let mut i = from;
    assert(chars@.subrange(from as int, from as int) =~= Seq::<char>::empty());
    while i < to
        invariant
            from <= i <= to <= chars@.len(),
            total == if cols_of(chars@.subrange(from as int, i as int)) <= usize::MAX {
                cols_of(chars@.subrange(from as int, i as int))
            } else {
                usize::MAX as nat
            },
        decreases to - i,
    {
        proof {
            lemma_cols_split(chars@, from as int, i as int, i + 1);
            lemma_cols_one(chars@, i as int);
        }
        total = total.saturating_add(char_width(chars[i]));
        i += 1;
    }
    total
}

// ---------------------------------------------------------------------------
// Lines of the query.
// ---------------------------------------------------------------------------

/// The number of bytes that `c` takes in UTF-8.
pub open spec fn utf8_width(c: char) -> nat {
    if (c as u32) < 0x80 {
        1
    } else if (c as u32) < 0x800 {
        2
    } else if (c as u32) < 0x10000 {
        3
    } else {
        4
    }
}

/// The number of bytes that `s` takes in UTF-8 (`str::len`).
pub open spec fn utf8_len(s: Seq<char>) -> nat
    decreases s.len(),
{
    if s.len() == 0 {
        0
    } else {
        utf8_len(s.drop_last()) + utf8_width(s.last())
    }
}

/// The number of bytes that `s` takes in UTF-8, or `usize::MAX` if that is more.
fn byte_len(s: &[char]) -> (r: usize)
    ensures
        r == capped(utf8_len(s@)),
{
    let mut total: usize = 0;
    let mut i: usize = 0;
    while i < s.len()
        invariant
            0 <= i <= s@.len(),
            total == capped(utf8_len(s@.subrange(0, i as int))),
        decreases s@.len() - i,
    {
        assert(s@.subrange(0, i + 1).drop_last() =~= s@.subrange(0, i as int));
        let c = s[i];
        let w: usize = if (c as u32) < 0x80 {
            1
        } else if (c as u32) < 0x800 {
            2
        } else if (c as u32) < 0x10000 {
            3
        } else {
            4
        };
        total = total.saturating_add(w);
        i += 1;
    }
    assert(s@.subrange(0, s@.len() as int) =~= s@);
    total
}

/// The index of the first line feed of `s`, or its length if it has none.
pub open spec fn first_newline(s: Seq<char>) -> nat
    decreases s.len(),
{
    if s.len() == 0 || s[0] == '\n' {
        0
    } else {
        1 + first_newline(s.drop_first())
    }
}

/// `s` without the carriage return that ends it, if it ends with one.
pub open spec fn strip_cr(s: Seq<char>) -> Seq<char> {
    if s.len() > 0 && s.last() == '\r' { s.drop_last() } else { s }
}

/// The lines of `s` (`str::lines`): split at each line feed, without a carriage
/// return just before it; no line after a final line feed.
pub open spec fn lines_of(s: Seq<char>) -> Seq<Seq<char>>
    decreases s.len(),
{
    if s.len() == 0 {
        Seq::empty()
    } else {
        let k = first_newline(s);
        if k < s.len() {
            seq![strip_cr(s.take(k as int))] + lines_of(s.skip((k + 1) as int))
        } else {
            seq![s]
        }
    }
}

pub proof fn lemma_first_newline(s: Seq<char>)
    ensures
        first_newline(s) <= s.len(),
        first_newline(s) < s.len() ==> s[first_newline(s) as int] == '\n',
        forall|i: int| 0 <= i < first_newline(s) ==> s[i] != '\n',
    decreases s.len(),
{
    if s.len() > 0 && s[0] != '\n' {
        lemma_first_newline(s.drop_first());
        assert forall|i: int| 0 <= i < first_newline(s) implies s[i] != '\n' by {
            if i > 0 {
                assert(s[i] == s.drop_first()[i - 1]);
            }
        }
    }
}

proof fn lemma_first_newline_concat(a: Seq<char>, t: Seq<char>)
    requires
        forall|i: int| 0 <= i < a.len() ==> a[i] != '\n',
    ensures
        first_newline(a + t) == a.len() + first_newline(t),
    decreases a.len(),
{
    if a.len() > 0 {
        assert((a + t).drop_first() =~= a.drop_first() + t);
        lemma_first_newline_concat(a.drop_first(), t);
    } else {
        assert(a + t =~= t);
    }
}

/// The lines of the characters `s`.
fn split_lines(s: &[char]) -> (r: Vec<Vec<char>>)
    ensures
        r@.len() == lines_of(s@).len(),
        forall|i: int| 0 <= i < r@.len() ==> #[trigger] r@[i]@ == lines_of(s@)[i],
{
    let mut lines: Vec<Vec<char>> = Vec::new();
    let mut current: Vec<char> = Vec::new();
    let ghost mut done: Seq<Seq<char>> = Seq::empty();
    let mut i: usize = 0;
    assert(s@.skip(0) =~= s@);
    assert(current@ + s@.skip(0) =~= s@);
    while i < s.len()
        invariant
            0 <= i <= s@.len(),
            lines@.len() == done.len(),
            forall|k: int| 0 <= k < lines@.len() ==> #[trigger] lines@[k]@ == done[k],
            forall|k: int| 0 <= k < current@.len() ==> current@[k] != '\n',
            lines_of(s@) == done + lines_of(current@ + s@.skip(i as int)),
        decreases s@.len() - i,
    {
        let c = s[i];
        let ghost rest = s@.skip(i as int);
        assert(rest == seq![c] + s@.skip(i + 1)) by {
            assert(rest =~= seq![c] + s@.skip(i + 1));
        }
        if c == '\n' {
            proof {
                let t = current@ + rest;
                lemma_first_newline_concat(current@, rest);
                assert(first_newline(rest) == 0);
                assert(t.take(current@.len() as int) =~= current@);
                assert(t.skip((current@.len() + 1) as int) =~= s@.skip(i + 1));
                assert(t[current@.len() as int] == '\n');
                assert(lines_of(t) == seq![strip_cr(current@)] + lines_of(s@.skip(i + 1)));
                done = done.push(strip_cr(current@));
                assert(lines_of(s@) == done + lines_of(Seq::<char>::empty() + s@.skip(i + 1))) by {
                    assert(Seq::<char>::empty() + s@.skip(i + 1) =~= s@.skip(i + 1));
                }
            }
            let n = current.len();
            if n > 0 && current[n - 1] == '\r' {
                current.pop();
            }
            lines.push(current);
            current = Vec::new();
        } else {
            proof {
                assert(current@ + rest =~= current@.push(c) + s@.skip(i + 1));
            }
            current.push(c);
        }
        i += 1;
    }
    proof {
        assert(s@.skip(s@.len() as int) =~= Seq::<char>::empty());
        assert(current@ + s@.skip(s@.len() as int) =~= current@);
        if current@.len() > 0 {
            lemma_first_newline_concat(current@, Seq::<char>::empty());
            assert(current@ + Seq::<char>::empty() =~= current@);
            assert(lines_of(current@) == seq![current@]);
        }
    }
    if current.len() > 0 {
        let ghost c = current@;
        lines.push(current);
        proof {
            done = done.push(c);
        }
    }
    assert(done =~= lines_of(s@));
    lines
}


/// The characters of each line.
pub open spec fn lines_view(v: Seq<Vec<char>>) -> Seq<Seq<char>> {
    v.map_values(|l: Vec<char>| l@)
}

/// The bytes of `line` counted toward the context shown: at most `per`.
pub open spec fn clipped_len(line: Seq<char>, per: nat) -> nat {
    min_nat(utf8_len(line), per)
}

/// The bytes counted for the lines `from..to`.
pub open spec fn clipped_sum(lines: Seq<Seq<char>>, from: int, to: int, per: nat) -> nat
    decreases to - from,
{
    if to <= from {
        0
    } else {
        clipped_sum(lines, from, to - 1, per) + clipped_len(lines[to - 1], per)
    }
}

/// The first and last line shown around the lines `s..=e` of a span: up to two
/// more lines on each side, before first, as long as the bytes counted for the
/// lines shown stay within `max`.
pub open spec fn context_window(lines: Seq<Seq<char>>, s: nat, e: nat, per: nat, max: nat) -> (nat, nat) {
    let base = clipped_sum(lines, s as int, min_nat(e + 1, lines.len()) as int, per);
    let c1 = if s >= 1 { clipped_len(lines[s - 1], per) } else { 0 };
    let c2 = if s >= 2 { clipped_len(lines[s - 2], per) } else { 0 };
    let (start, total) = if s >= 1 && base + c1 <= max {
        if s >= 2 && base + c1 + c2 <= max {
            ((s - 2) as nat, base + c1 + c2)
        } else {
            ((s - 1) as nat, base + c1)
        }
    } else {
        (s, base)
    };
    let d1 = if e + 1 < lines.len() { clipped_len(lines[(e + 1) as int], per) } else { 0 };
    let d2 = if e + 2 < lines.len() { clipped_len(lines[(e + 2) as int], per) } else { 0 };
    let end = if e + 1 < lines.len() && total + d1 <= max {
        if e + 2 < lines.len() && total + d1 + d2 <= max { e + 2 } else { e + 1 }
    } else {
        e
    };
    (start, end)
}

/// The lines shown around a span are its lines, with at most two more on each
/// side, and a line after the span only when the query has it.
pub proof fn law_context_window_bounds(lines: Seq<Seq<char>>, s: nat, e: nat, per: nat, max: nat)
    ensures
        context_window(lines, s, e, per, max).0 <= s <= context_window(lines, s, e, per, max).0 + 2,
        e <= context_window(lines, s, e, per, max).1 <= e + 2,
        context_window(lines, s, e, per, max).1 > e ==> context_window(lines, s, e, per, max).1 < lines.len(),
{
}

/// The bytes counted for `line`.
fn clipped(line: &Vec<char>, per: usize) -> (r: usize)
    ensures
        r == clipped_len(line@, per as nat),
{
    let n = byte_len(line.as_slice());
    if n < per { n } else { per }
}


proof fn lemma_fit_len_from(cs: Seq<char>, k: int, avail: int)
    requires
        0 <= k <= cs.len(),
        cols_of(cs.subrange(0, k)) <= avail,
    ensures
        fits_from_left(cs, fit_len(cs, avail), avail),
    decreases cs.len() - k,
{
    if k == cs.len() || cols_of(cs.subrange(0, k + 1)) > avail {
        assert(fits_from_left(cs, k, avail));
    } else {
        lemma_fit_len_from(cs, k + 1, avail);
    }
}

proof fn lemma_fit_start_from(cs: Seq<char>, s: int, end: int, avail: int)
    requires
        0 <= s <= end <= cs.len(),
        cols_of(cs.subrange(s, end)) <= avail,
    ensures
        fits_before(cs, fit_start(cs, end, avail), end, avail),
    decreases s,
{
    if s == 0 || cols_of(cs.subrange(s - 1, end)) > avail {
        assert(fits_before(cs, s, end, avail));
    } else {
        lemma_fit_start_from(cs, s - 1, end, avail);
    }
}

proof fn lemma_fit_end_from(cs: Seq<char>, start: int, e: int, avail: int)
    requires
        0 <= start <= e <= cs.len(),
        cols_of(cs.subrange(start, e)) <= avail,
    ensures
        fits_after(cs, start, fit_end(cs, start, avail), avail),
    decreases cs.len() - e,
{
    if e == cs.len() || cols_of(cs.subrange(start, e + 1)) > avail {
        assert(fits_after(cs, start, e, avail));
    } else {
        lemma_fit_end_from(cs, start, e + 1, avail);
    }
}

proof fn lemma_cols_empty(cs: Seq<char>, i: int)
    requires
        0 <= i <= cs.len(),
    ensures
        cols_of(cs.subrange(i, i)) == 0,
{
    assert(cs.subrange(i, i) =~= Seq::<char>::empty());
}

/// The columns of the part of `line` that `span_cols` marks, clamped to the line;
/// none when no span is given.
pub open spec fn span_width(line: Seq<char>, span_cols: Option<(usize, usize)>) -> nat {
    match span_cols {
        Some((a, b)) => cols_of(line.subrange(min_nat(minus_one(a), line.len()) as int, min_nat(minus_one(b), line.len()) as int)),
        None => 0,
    }
}

/// Whether `shown` holds the part of `line` that `span_cols` marks, clamped to the
/// line, as one run of characters.
pub open spec fn span_shown_whole(line: Seq<char>, span_cols: Option<(usize, usize)>, shown: Seq<char>) -> bool {
    match span_cols {
        Some((a, b)) => {
            let s = min_nat(minus_one(a), line.len()) as int;
            let t = min_nat(minus_one(b), line.len()) as int;
            exists|i: int| 0 <= i && i + (t - s) <= shown.len() && #[trigger] shown.subrange(i, i + (t - s)) == line.subrange(s, t)
        },
        None => true,
    }
}

/// The ellipsis takes one column.
pub proof fn lemma_ellipsis_cols()
    ensures
        cols_of(ellipsis()) == 1,
{
    reveal_strlit("\u{2026}");
    assert(ellipsis().drop_last() =~= Seq::<char>::empty());
    assert(cols_of(Seq::<char>::empty()) == 0);
}

/// A line cut to `max_width` columns, for any width from 3 (an ellipsis on each
/// side and a character), takes at most `max_width` columns, ellipses included;
/// the characters it leaves out on the left are within the line, and none when no
/// span is given; and a span narrower than `max_width - 2` columns is shown whole
/// (for a line whose width a `usize` can count).
pub proof fn law_truncated_line_fits(line: Seq<char>, span_cols: Option<(usize, usize)>, max_width: nat)
    requires
        cols_of(line) <= usize::MAX,
        max_width >= 3,
        span_cols_ordered(line, span_cols),
    ensures
        cols_of(truncated_line(line, span_cols, max_width).0) <= max_width,
        truncated_line(line, span_cols, max_width).1 <= line.len(),
        span_cols is None ==> truncated_line(line, span_cols, max_width).1 == 0,
        span_width(line, span_cols) + 2 < max_width ==> span_shown_whole(line, span_cols, truncated_line(line, span_cols, max_width).0),
{
    lemma_ellipsis_cols();
    reveal(truncated_line);
    let e = ellipsis();
    let ew = cols_of(e);
    let r = truncated_line(line, span_cols, max_width);
    if capped(cols_of(line)) <= max_width {
        assert(cols_of(line) <= max_width);
        if let Some((a, b)) = span_cols {
            let s = min_nat(minus_one(a), line.len()) as int;
            let t = min_nat(minus_one(b), line.len()) as int;
            assert(r.0.subrange(s, s + (t - s)) == line.subrange(s, t));
        }
    } else {
        let avail = (max_width - ew * 2) as nat;
        match span_cols {
            Some((a, b)) => {
                let s = min_nat(minus_one(a), line.len());
                let t = min_nat(minus_one(b), line.len());
                let span = line.subrange(s as int, t as int);
                if cols_of(span) >= avail {
                    lemma_cols_empty(span, 0);
                    lemma_fit_len_from(span, 0, avail as int);
                    let shown = span.subrange(0, fit_len(span, avail as int));
                    law_cols_concat(e, shown);
                    law_cols_concat(e + shown, e);
                } else {
                    let per = (avail - cols_of(span)) / 2;
                    lemma_cols_empty(line, s as int);
                    lemma_cols_empty(line, t as int);
                    lemma_fit_start_from(line, s as int, s as int, per as int);
                    lemma_fit_end_from(line, t as int, t as int, per as int);
                    let ws = fit_start(line, s as int, per as int);
                    let we = fit_end(line, t as int, per as int);
                    lemma_cols_split(line, ws, s as int, we);
                    lemma_cols_split(line, s as int, t as int, we);
                    let left: Seq<char> = if ws > 0 { e } else { Seq::empty() };
                    let right: Seq<char> = if we < line.len() { e } else { Seq::empty() };
                    assert(cols_of(Seq::<char>::empty()) == 0);
                    law_cols_concat(left, line.subrange(ws, we));
                    law_cols_concat(left + line.subrange(ws, we), right);
                    let i = left.len() + (s - ws);
                    assert(r.0 == left + line.subrange(ws, we) + right);
                    assert(r.0.subrange(i, i + (t - s)) =~= line.subrange(s as int, t as int));
                }
            },
            None => {
                lemma_cols_empty(line, 0);
                lemma_fit_len_from(line, 0, avail as int);
                let shown = line.subrange(0, fit_len(line, avail as int));
                law_cols_concat(shown, e);
            },
        }
    }
}

/// Whether truncating `line` to `max_width` columns around `span_cols` stays
/// within the line: the span's columns are in order, or the line is not cut
/// around them.
pub open spec fn truncation_safe(line: Seq<char>, span_cols: Option<(usize, usize)>, max_width: nat) -> bool {
    ||| span_cols_ordered(line, span_cols)
    ||| capped(cols_of(line)) <= max_width
    ||| max_width < cols_of(ellipsis()) * 2 + 1
}

/// `n` copies of `c`.
pub open spec fn repeat(c: char, n: nat) -> Seq<char> {
    Seq::new(n, |i: int| c)
}

/// `a - b`, or 0 if `b` is more.
pub open spec fn sat_sub(a: nat, b: nat) -> nat {
    if a >= b { (a - b) as nat } else { 0 }
}

/// `n` in decimal, with spaces before it up to `width` characters.
pub open spec fn padded(n: nat, width: nat) -> Seq<char> {
    let d = decimal(n);
    if d.len() < width { repeat(' ', (width - d.len()) as nat) + d } else { d }
}

/// The row of carets under the part of `display` (line `idx` of the query, with
/// `offset` characters left out on its left) that `span` covers; nothing when no
/// caret would be drawn.
#[verifier::opaque]
pub open spec fn underline_row(idx: nat, span: Span, display: Seq<char>, offset: nat, indent: Seq<char>, color: Seq<char>) -> Seq<char> {
    let from = if idx == minus_one(span.start.line) { minus_one(span.start.column) } else { 0 };
    let to = if idx == minus_one(span.end.line) { minus_one(span.end.column) } else { display.len() };
    let ds = sat_sub(from, offset);
    let de = min_nat(sat_sub(to, offset), display.len());
    if ds >= display.len() || de <= ds || cols_of(display.subrange(ds as int, de as int)) == 0 {
        Seq::empty()
    } else {
        indent + " | "@ + color + repeat(' ', cols_of(display.subrange(0, ds as int)))
            + repeat('^', cols_of(display.subrange(ds as int, de as int))) + "\u{1b}[0m\n"@
    }
}

/// Whether line `idx` lies within the lines of `span`.
pub open spec fn in_span(idx: nat, span: Span) -> bool {
    minus_one(span.start.line) <= idx && idx <= minus_one(span.end.line)
}

/// What is shown of a query line: the whole line, or for a line of more than 200
/// bytes its truncation, around the span's columns on a line of the span.
#[verifier::opaque]
pub open spec fn displayed(line: Seq<char>, in_span: bool, span: Span) -> (Seq<char>, nat) {
    if utf8_len(line) > 200 {
        truncated_line(line, if in_span { Some((span.start.column, span.end.column)) } else { None }, 200)
    } else {
        (line, 0)
    }
}

/// Whether the line `line` of a span can be shown (see `truncation_safe`).
pub open spec fn row_safe(line: Seq<char>, in_span: bool, span: Span) -> bool {
    utf8_len(line) > 200 && in_span ==> truncation_safe(line, Some((span.start.column, span.end.column)), 200)
}

/// The rows for the lines `idx..=last` of the query, `current` bytes having been
/// shown before: each line with its number and, on a line of the span, its
/// underline; once more than 800 bytes were shown, a note that the output stops.
pub open spec fn snippet_rows(lines: Seq<Seq<char>>, span: Span, color: Seq<char>, idx: nat, last: nat, indent: Seq<char>, current: nat) -> Seq<char>
    decreases last + 1 - idx,
{
    if idx > last || idx >= lines.len() {
        Seq::empty()
    } else {
        let err = in_span(idx, span);
        let d = displayed(lines[idx as int], err, span);
        let row = padded(idx + 1, indent.len()) + " | "@ + d.0 + "\n"@;
        let under = if err { underline_row(idx, span, d.0, d.1, indent, color) } else { Seq::empty() };
        let cur = current + utf8_len(d.0);
        if cur > 800 {
            row + under + indent + " | ... (output truncated)\n"@
        } else {
            row + under + snippet_rows(lines, span, color, idx + 1, last, indent, cur)
        }
    }
}

/// Whether each line that `snippet_rows` shows can be shown.
pub open spec fn rows_safe(lines: Seq<Seq<char>>, span: Span, idx: nat, last: nat, current: nat) -> bool
    decreases last + 1 - idx,
{
    if idx > last || idx >= lines.len() {
        true
    } else {
        let err = in_span(idx, span);
        let d = displayed(lines[idx as int], err, span);
        let cur = current + utf8_len(d.0);
        &&& row_safe(lines[idx as int], err, span)
        &&& (cur > 800 || rows_safe(lines, span, idx + 1, last, cur))
    }
}

/// The lines of the query around `span`, between two empty rows, with the span
/// underlined in `color`; nothing when the span starts after the last line.
pub open spec fn snippet(lines: Seq<Seq<char>>, span: Span, color: Seq<char>) -> Seq<char> {
    let s = minus_one(span.start.line);
    let e = minus_one(span.end.line);
    if s >= lines.len() {
        Seq::empty()
    } else {
        let w = context_window(lines, s, e, 200, 800);
        let indent = repeat(' ', decimal(w.1 + 1).len());
        indent + " |\n"@ + snippet_rows(lines, span, color, w.0, w.1, indent, 0) + indent + " |\n"@
    }
}

/// Whether the snippet for `span` can be drawn: its last line has a number below
/// `usize::MAX`, and each line shown can be shown.
pub open spec fn snippet_safe(lines: Seq<Seq<char>>, span: Span) -> bool {
    let s = minus_one(span.start.line);
    let e = minus_one(span.end.line);
    s >= lines.len() || (span.end.line < usize::MAX && rows_safe(lines, span, context_window(lines, s, e, 200, 800).0, context_window(lines, s, e, 200, 800).1, 0))
}


/// One line of `snippet_rows` and `rows_safe`.
proof fn lemma_rows_step(lines: Seq<Seq<char>>, span: Span, color: Seq<char>, idx: nat, last: nat, indent: Seq<char>, current: nat)
    requires
        idx <= last,
        idx < lines.len(),
    ensures
        ({
            let err = in_span(idx, span);
            let d = displayed(lines[idx as int], err, span);
            let row = padded(idx + 1, indent.len()) + " | "@ + d.0 + "\n"@;
            let under = if err { underline_row(idx, span, d.0, d.1, indent, color) } else { Seq::empty() };
            let cur = current + utf8_len(d.0);
            &&& snippet_rows(lines, span, color, idx, last, indent, current) == if cur > 800 {
                row + under + indent + " | ... (output truncated)\n"@
            } else {
                row + under + snippet_rows(lines, span, color, idx + 1, last, indent, cur)
            }
            &&& rows_safe(lines, span, idx, last, current) == (row_safe(lines[idx as int], err, span) && (cur > 800 || rows_safe(lines, span, idx + 1, last, cur)))
        }),
{
}

/// Appends `n` copies of `c` to `out`.
fn push_repeat(out: &mut String, c: char, n: usize)
    ensures
        final(out)@ == old(out)@ + repeat(c, n as nat),
{
    let mut i: usize = 0;
    assert(repeat(c, 0) =~= Seq::<char>::empty());
    assert(out@ =~= old(out)@ + repeat(c, 0));
    while i < n
        invariant
            i <= n,
            out@ == old(out)@ + repeat(c, i as nat),
        decreases n - i,
    {
        crate::text::push_char(out, c);
        assert(repeat(c, (i + 1) as nat) =~= repeat(c, i as nat).push(c));
        i += 1;
    }
}

/// Appends, for each character of `chars[from..to]`, as many copies of `c` as the
/// character takes columns.
fn push_repeat_cols(out: &mut String, c: char, chars: &[char], from: usize, to: usize)
    requires
        from <= to <= chars@.len(),
    ensures
        final(out)@ == old(out)@ + repeat(c, cols_of(chars@.subrange(from as int, to as int))),
{
    let mut i = from;
    assert(chars@.subrange(from as int, from as int) =~= Seq::<char>::empty());
    assert(repeat(c, 0) =~= Seq::<char>::empty());
    assert(out@ =~= old(out)@ + repeat(c, 0));
    while i < to
        invariant
            from <= i <= to <= chars@.len(),
            out@ == old(out)@ + repeat(c, cols_of(chars@.subrange(from as int, i as int))),
        decreases to - i,
    {
        let ghost before = cols_of(chars@.subrange(from as int, i as int));
        let w = char_width(chars[i]);
        push_repeat(out, c, w);
        proof {
            lemma_cols_split(chars@, from as int, i as int, i + 1);
            lemma_cols_one(chars@, i as int);
            assert(repeat(c, before) + repeat(c, w as nat) =~= repeat(c, before + w as nat));
        }
        i += 1;
    }
}

/// Appends `n` in decimal, with spaces before it up to `width` characters.
fn push_padded(out: &mut String, n: usize, width: usize)
    ensures
        final(out)@ == old(out)@ + padded(n as nat, width as nat),
{
    let len = decimal_len(n as u64);
    if len < width {
        push_repeat(out, ' ', width - len);
    }
    push_decimal(out, n as u64);
}

/// A string holding the characters `chars`.
fn string_of(chars: &[char]) -> (r: String)
    ensures
        r@ == chars@,
{
    let mut r = String::new();
    push_chars(&mut r, chars, 0, chars.len());
    assert(chars@.subrange(0, chars@.len() as int) =~= chars@);
    r
}

/// Whether the span's columns lie in order on a line of `n` characters once clamped to it.
fn cols_in_order(n: usize, start_col: usize, end_col: usize) -> (r: bool)
    ensures
        r == (min_nat(minus_one(start_col), n as nat) <= min_nat(minus_one(end_col), n as nat)),
{
    let a = start_col.saturating_sub(1);
    let b = end_col.saturating_sub(1);
    let a = if a < n { a } else { n };
    let b = if b < n { b } else { n };
    a <= b
}

/// The characters of an optional file path.
pub open spec fn path_view(path: Option<&str>) -> Option<Seq<char>> {
    match path {
        Some(p) => Some(p@),
        None => None,
    }
}

/// Where a diagnostic starts: its line and column, after the file's path when
/// there is one.
pub open spec fn location(span: Span, path: Option<Seq<char>>) -> Seq<char> {
    match path {
        None => "  --> "@ + decimal(span.start.line as nat) + ":"@ + decimal(span.start.column as nat) + "\n"@,
        Some(p) => "  --> "@ + "\u{1b}[1m"@ + p + "\u{1b}[0m:"@ + decimal(span.start.line as nat) + ":"@
            + decimal(span.start.column as nat) + "\n"@,
    }
}

/// A diagnostic as printed: its kind and code in `color`, its text, where it
/// starts, the snippet of the query lines `lines` around it, and an empty line.
pub open spec fn diagnostic_block(
    kind: Seq<char>,
    color: Seq<char>,
    code: Seq<char>,
    text: Seq<char>,
    span: Span,
    path: Option<Seq<char>>,
    lines: Seq<Seq<char>>,
) -> Seq<char> {
    color + kind + "["@ + code + "]\u{1b}[0m: "@ + text + "\n"@ + location(span, path) + snippet(lines, span, color) + "\n"@
}

/// The color of errors: bold red.
pub open spec fn error_color() -> Seq<char> {
    "\u{1b}[1;31m"@
}

/// The color of warnings: bold yellow.
pub open spec fn warning_color() -> Seq<char> {
    "\u{1b}[1;33m"@
}

/// The errors `errors` as printed, in order.
pub open spec fn errors_text(lines: Seq<Seq<char>>, errors: Seq<LintErrorView>, path: Option<Seq<char>>) -> Seq<char>
    decreases errors.len(),
{
    if errors.len() == 0 {
        Seq::empty()
    } else {
        errors_text(lines, errors.drop_last(), path) + diagnostic_block(
            "error"@,
            error_color(),
            errors.last().code(),
            errors.last().text(),
            errors.last().span(),
            path,
            lines,
        )
    }
}

/// The warnings `warnings` as printed, in order.
pub open spec fn warnings_text(lines: Seq<Seq<char>>, warnings: Seq<LintWarningView>, path: Option<Seq<char>>) -> Seq<char>
    decreases warnings.len(),
{
    if warnings.len() == 0 {
        Seq::empty()
    } else {
        warnings_text(lines, warnings.drop_last(), path) + diagnostic_block(
            "warning"@,
            warning_color(),
            warnings.last().code(),
            warnings.last().text(),
            warnings.last().span(),
            path,
            lines,
        )
    }
}

/// Whether the snippet of each error can be drawn.
pub open spec fn errors_safe(lines: Seq<Seq<char>>, errors: Seq<LintErrorView>) -> bool {
    forall|i: int| 0 <= i < errors.len() ==> snippet_safe(lines, #[trigger] errors[i].span())
}

/// Whether the snippet of each warning can be drawn.
pub open spec fn warnings_safe(lines: Seq<Seq<char>>, warnings: Seq<LintWarningView>) -> bool {
    forall|i: int| 0 <= i < warnings.len() ==> snippet_safe(lines, #[trigger] warnings[i].span())
}

/// The text printed for an analysis: its errors, then its warnings when they are
/// shown, then, when nothing was shown, that all checks passed.
pub open spec fn analysis_text(a: AnalysisView, show_warnings: bool) -> Seq<char> {
    let lines = lines_of(a.query);
    errors_text(lines, a.errors, None) + (if show_warnings { warnings_text(lines, a.warnings, None) } else { Seq::empty() })
        + (if a.errors.len() == 0 && (!show_warnings || a.warnings.len() == 0) { "All checks passed!\n"@ } else { Seq::empty() })
}

/// Whether each diagnostic that is printed for an analysis can be drawn.
pub open spec fn analysis_safe(a: AnalysisView, show_warnings: bool) -> bool {
    let lines = lines_of(a.query);
    errors_safe(lines, a.errors) && (show_warnings ==> warnings_safe(lines, a.warnings))
}

/// The text that `location` describes.
fn location_text(span: &Span, path: Option<&str>) -> (r: String)
    ensures
        r@ == location(*span, path_view(path)),
{
    let mut r = crate::text::owned("  --> ");
    match path {
        Some(p) => {
            crate::text::push_str(&mut r, "\u{1b}[1m");
            crate::text::push_str(&mut r, p);
            crate::text::push_str(&mut r, "\u{1b}[0m:");
        },
        None => {},
    }
    push_decimal(&mut r, span.start.line as u64);
    crate::text::push_str(&mut r, ":");
    push_decimal(&mut r, span.start.column as u64);
    crate::text::push_str(&mut r, "\n");
    r
}

/// The lines of `query`, each as its characters.
fn query_lines(query: &str) -> (r: Vec<Vec<char>>)
    ensures
        lines_view(r@) == lines_of(query@),
{
    let chars = crate::text::chars_of(query);
    let r = split_lines(chars.as_slice());
    assert(lines_view(r@) =~= lines_of(query@));
    r
}

/// A file's path, its analysis and its query, each by its view.
pub open spec fn entries_view(v: Seq<(String, AnalysisResult, String)>) -> Seq<(Seq<char>, AnalysisView, Seq<char>)> {
    v.map_values(|e: (String, AnalysisResult, String)| (e.0@, e.1@, e.2@))
}

/// How many of the files `es` are valid.
pub open spec fn count_valid(es: Seq<(Seq<char>, AnalysisView, Seq<char>)>) -> nat
    decreases es.len(),
{
    if es.len() == 0 {
        0
    } else {
        count_valid(es.drop_last()) + if es.last().1.is_valid { 1nat } else { 0nat }
    }
}

/// Whether a file's diagnostics are printed: it is invalid, or it has warnings and
/// they are shown.
pub open spec fn file_shown(a: AnalysisView, show_warnings: bool) -> bool {
    !a.is_valid || (show_warnings && a.warnings.len() > 0)
}

/// The diagnostics printed for the files `es`, in order, each with its path.
pub open spec fn files_text(es: Seq<(Seq<char>, AnalysisView, Seq<char>)>, show_warnings: bool) -> Seq<char>
    decreases es.len(),
{
    if es.len() == 0 {
        Seq::empty()
    } else {
        let (path, a, query) = es.last();
        let lines = lines_of(query);
        files_text(es.drop_last(), show_warnings) + if file_shown(a, show_warnings) {
            errors_text(lines, a.errors, Some(path)) + if show_warnings {
                warnings_text(lines, a.warnings, Some(path))
            } else {
                Seq::empty()
            }
        } else {
            Seq::empty()
        }
    }
}

/// Whether each diagnostic printed for the files `es` can be drawn.
pub open spec fn files_safe(es: Seq<(Seq<char>, AnalysisView, Seq<char>)>, show_warnings: bool) -> bool {
    forall|i: int| 0 <= i < es.len() && file_shown(#[trigger] es[i].1, show_warnings) ==> {
        let lines = lines_of(es[i].2);
        errors_safe(lines, es[i].1.errors) && (show_warnings ==> warnings_safe(lines, es[i].1.warnings))
    }
}

/// The last line printed for a set of files: how many were valid of those read,
/// and how many could not be read; that all checks passed when all were valid.
pub open spec fn summary_text(valid: nat, total: nat, read_errors: nat) -> Seq<char> {
    if read_errors > 0 {
        "Summary: "@ + decimal(valid) + "/"@ + decimal(total) + " files valid ("@ + decimal(read_errors)
            + " files could not be read)\n"@
    } else if total == valid {
        "All checks passed!\n"@
    } else {
        "Summary: "@ + decimal(valid) + "/"@ + decimal(total) + " files valid\n"@
    }
}

/// The analyses of the files that could be read, with the number of files that
/// could not be.
pub struct FileResults {
    pub successful: Vec<(String, AnalysisResult, String)>,
    pub read_errors: usize,
}

impl FileResults {
    /// No file yet.
    pub fn new() -> (r: Self)
        ensures
            r.successful@.len() == 0,
            r.read_errors == 0,
    {
        FileResults { successful: Vec::new(), read_errors: 0 }
    }

    /// How many files were read.
    pub fn total_files_processed(&self) -> (r: usize)
        ensures
            r == self.successful@.len(),
    {
        self.successful.len()
    }

    /// How many of the files read hold a valid query.
    pub fn valid_files(&self) -> (r: usize)
        ensures
            r == count_valid(entries_view(self.successful@)),
    {
        let ghost es = entries_view(self.successful@);
        let mut n: usize = 0;
        let mut i: usize = 0;
        assert(es.take(0) =~= Seq::<(Seq<char>, AnalysisView, Seq<char>)>::empty());
        while i < self.successful.len()
            invariant
                es == entries_view(self.successful@),
                0 <= i <= es.len(),
                n == count_valid(es.take(i as int)),
                n <= i,
            decreases es.len() - i,
        {
            assert(es.take(i + 1).drop_last() =~= es.take(i as int));
            if self.successful[i].1.is_valid {
                n += 1;
            }
            i += 1;
        }
        assert(es.take(es.len() as int) =~= es);
        n
    }

    /// Whether a file could not be read or holds an invalid query.
    pub fn has_errors(&self) -> (r: bool)
        ensures
            r == (self.read_errors > 0 || exists|i: int| 0 <= i < self.successful@.len() && !(#[trigger] self.successful@[i]).1.is_valid),
    {
        if self.read_errors > 0 {
            return true;
        }
        let mut i: usize = 0;
        while i < self.successful.len()
            invariant
                0 <= i <= self.successful@.len(),
                forall|k: int| 0 <= k < i ==> (#[trigger] self.successful@[k]).1.is_valid,
            decreases self.successful@.len() - i,
        {
            if !self.successful[i].1.is_valid {
                return true;
            }
            i += 1;
        }
        false
    }
}

impl Default for FileResults {
    fn default() -> (r: Self)
        ensures
            r.successful@.len() == 0,
            r.read_errors == 0,
    {
        Self::new()
    }
}

/// The text that `summary_text` describes.
fn summary_line(valid: usize, total: usize, read_errors: usize) -> (r: String)
    ensures
        r@ == summary_text(valid as nat, total as nat, read_errors as nat),
{
    if read_errors > 0 {
        let mut r = crate::text::owned("Summary: ");
        push_decimal(&mut r, valid as u64);
        crate::text::push_str(&mut r, "/");
        push_decimal(&mut r, total as u64);
        crate::text::push_str(&mut r, " files valid (");
        push_decimal(&mut r, read_errors as u64);
        crate::text::push_str(&mut r, " files could not be read)\n");
        r
    } else if total == valid {
        crate::text::owned("All checks passed!\n")
    } else {
        let mut r = crate::text::owned("Summary: ");
        push_decimal(&mut r, valid as u64);
        crate::text::push_str(&mut r, "/");
        push_decimal(&mut r, total as u64);
        crate::text::push_str(&mut r, " files valid\n");
        r
    }
}

/// What printing an analysis writes ends with `All checks passed!` when, and only
/// when, it shows no diagnostic, and then that line is all it writes.
pub proof fn law_all_checks_passed(a: AnalysisView, show_warnings: bool)
    ensures
        (a.errors.len() == 0 && (!show_warnings || a.warnings.len() == 0)) ==> analysis_text(a, show_warnings) == "All checks passed!\n"@,
        !(a.errors.len() == 0 && (!show_warnings || a.warnings.len() == 0)) ==> analysis_text(a, show_warnings)
            == errors_text(lines_of(a.query), a.errors, None) + (if show_warnings {
                warnings_text(lines_of(a.query), a.warnings, None)
            } else {
                Seq::empty()
            }),
{
    let lines = lines_of(a.query);
    let e = errors_text(lines, a.errors, None);
    let w: Seq<char> = if show_warnings { warnings_text(lines, a.warnings, None) } else { Seq::empty() };
    if a.errors.len() == 0 && (!show_warnings || a.warnings.len() == 0) {
        assert(e == Seq::<char>::empty());
        assert(w == Seq::<char>::empty());
        assert(analysis_text(a, show_warnings) =~= "All checks passed!\n"@);
    } else {
        assert(analysis_text(a, show_warnings) =~= e + w);
    }
}

proof fn lemma_count_valid(es: Seq<(Seq<char>, AnalysisView, Seq<char>)>)
    ensures
        count_valid(es) <= es.len(),
        count_valid(es) == es.len() <==> forall|i: int| 0 <= i < es.len() ==> (#[trigger] es[i]).1.is_valid,
    decreases es.len(),
{
    if es.len() > 0 {
        lemma_count_valid(es.drop_last());
        if count_valid(es) == es.len() {
            assert forall|i: int| 0 <= i < es.len() implies (#[trigger] es[i]).1.is_valid by {
                if i < es.len() - 1 {
                    assert(es.drop_last()[i] == es[i]);
                }
            }
        }
        if forall|i: int| 0 <= i < es.len() ==> (#[trigger] es[i]).1.is_valid {
            assert forall|i: int| 0 <= i < es.drop_last().len() implies (#[trigger] es.drop_last()[i]).1.is_valid by {
                assert(es.drop_last()[i] == es[i]);
            }
            assert(es[es.len() - 1].1.is_valid);
        }
    }
}

/// The files checked have errors (`has_errors`) exactly when a file could not be
/// read or fewer files are valid (`valid_files`) than were read
/// (`total_files_processed`), which are never fewer.
pub proof fn law_file_errors(results: FileResults)
    ensures
        count_valid(entries_view(results.successful@)) <= results.successful@.len(),
        (results.read_errors > 0 || exists|i: int| 0 <= i < results.successful@.len() && !(#[trigger] results.successful@[i]).1.is_valid)
            <==> (results.read_errors > 0 || count_valid(entries_view(results.successful@)) < results.successful@.len()),
{
    let es = entries_view(results.successful@);
    lemma_count_valid(es);
    assert forall|i: int| 0 <= i < es.len() implies (#[trigger] es[i]).1.is_valid == results.successful@[i].1.is_valid by {
    }
    if exists|i: int| 0 <= i < results.successful@.len() && !(#[trigger] results.successful@[i]).1.is_valid {
        let i = choose|i: int| 0 <= i < results.successful@.len() && !(#[trigger] results.successful@[i]).1.is_valid;
        assert(!es[i].1.is_valid);
    }
    if count_valid(es) < es.len() {
        let i = choose|i: int| 0 <= i < es.len() && !(#[trigger] es[i]).1.is_valid;
        assert(!results.successful@[i].1.is_valid);
    }
}

impl OutputFormat {
    /// The format named `name`, in any case: JSON for `json`, text for any other name.
    pub fn from_name(name: &str) -> (r: OutputFormat)
        ensures
            r == (if crate::text::lowercase_of(name@) == "json"@ { OutputFormat::Json } else { OutputFormat::Text }),
    {
        let lower = crate::text::to_lowercase(name);
        if crate::text::str_eq(lower.as_str(), "json") {
            OutputFormat::Json
        } else {
            OutputFormat::Text
        }
    }
}

impl Printer {
    /// A printer in `format` that shows warnings when `show_warnings` holds.
    pub fn new(format: OutputFormat, show_warnings: bool) -> (r: Self)
        ensures
            r.format == format,
            r.show_warnings == show_warnings,
    {
        Printer { format, show_warnings }
    }
}

impl Printer {
    /// Appends a diagnostic: see `diagnostic_block`; false when its snippet cannot
    /// be drawn.
    fn print_diagnostic(
        &self,
        out: &mut String,
        lines: &Vec<Vec<char>>,
        kind: &str,
        color: &str,
        code: &str,
        text: &str,
        span: &Span,
        file_path: Option<&str>,
    ) -> (ok: bool)
        ensures
            ok == snippet_safe(lines_view(lines@), *span),
            ok ==> final(out)@ == old(out)@ + diagnostic_block(kind@, color@, code@, text@, *span, path_view(file_path), lines_view(lines@)),
    {
        let mut snip = String::new();
        let ok = self.print_snippet_with_underline(&mut snip, lines, span, color);
        if !ok {
            return false;
        }
        assert(snip@ =~= snippet(lines_view(lines@), *span, color@));
        let loc = location_text(span, file_path);
        let mut block = crate::text::owned(color);
        crate::text::push_str(&mut block, kind);
        crate::text::push_str(&mut block, "[");
        crate::text::push_str(&mut block, code);
        crate::text::push_str(&mut block, "]\u{1b}[0m: ");
        crate::text::push_str(&mut block, text);
        crate::text::push_str(&mut block, "\n");
        crate::text::push_str(&mut block, loc.as_str());
        crate::text::push_str(&mut block, snip.as_str());
        crate::text::push_str(&mut block, "\n");
        crate::text::push_str(out, block.as_str());
        true
    }

    /// Appends the errors `errors`: see `errors_text`; false when the snippet of
    /// one of them cannot be drawn.
    fn print_errors(&self, out: &mut String, lines: &Vec<Vec<char>>, errors: &Vec<LintError>, file_path: Option<&str>) -> (ok: bool)
        ensures
            ok == errors_safe(lines_view(lines@), errors_view(errors@)),
            ok ==> final(out)@ == old(out)@ + errors_text(lines_view(lines@), errors_view(errors@), path_view(file_path)),
    {
        let ghost ls = lines_view(lines@);
        let ghost es = errors_view(errors@);
        let ghost out0 = out@;
        let mut i: usize = 0;
        assert(es.take(0) =~= Seq::<LintErrorView>::empty());
        assert(out@ =~= out0 + errors_text(ls, es.take(0), path_view(file_path)));
        while i < errors.len()
            invariant
                ls == lines_view(lines@),
                es == errors_view(errors@),
                0 <= i <= es.len(),
                forall|k: int| 0 <= k < i ==> snippet_safe(ls, #[trigger] es[k].span()),
                out@ == out0 + errors_text(ls, es.take(i as int), path_view(file_path)),
            decreases es.len() - i,
        {
            let e = &errors[i];
            let code = e.code();
            let text = e.message();
            let ok = self.print_diagnostic(out, lines, "error", "\u{1b}[1;31m", code, text.as_str(), e.span(), file_path);
            assert(es[i as int] == e@);
            if !ok {
                assert(!snippet_safe(ls, es[i as int].span()));
                return false;
            }
            proof {
                assert(es.take(i + 1).drop_last() =~= es.take(i as int));
                vstd::seq_lib::lemma_concat_associative(
                    out0,
                    errors_text(ls, es.take(i as int), path_view(file_path)),
                    diagnostic_block("error"@, error_color(), es[i as int].code(), es[i as int].text(), es[i as int].span(), path_view(file_path), ls),
                );
            }
            i += 1;
        }
        assert(es.take(es.len() as int) =~= es);
        true
    }

    /// Appends the warnings `warnings`: see `warnings_text`; false when the snippet
    /// of one of them cannot be drawn.
    fn print_warnings(&self, out: &mut String, lines: &Vec<Vec<char>>, warnings: &Vec<LintWarning>, file_path: Option<&str>) -> (ok: bool)
        ensures
            ok == warnings_safe(lines_view(lines@), warnings_view(warnings@)),
            ok ==> final(out)@ == old(out)@ + warnings_text(lines_view(lines@), warnings_view(warnings@), path_view(file_path)),
    {
        let ghost ls = lines_view(lines@);
        let ghost ws = warnings_view(warnings@);
        let ghost out0 = out@;
        let mut i: usize = 0;
        assert(ws.take(0) =~= Seq::<LintWarningView>::empty());
        assert(out@ =~= out0 + warnings_text(ls, ws.take(0), path_view(file_path)));
        while i < warnings.len()
            invariant
                ls == lines_view(lines@),
                ws == warnings_view(warnings@),
                0 <= i <= ws.len(),
                forall|k: int| 0 <= k < i ==> snippet_safe(ls, #[trigger] ws[k].span()),
                out@ == out0 + warnings_text(ls, ws.take(i as int), path_view(file_path)),
            decreases ws.len() - i,
        {
            let w = &warnings[i];
            let code = w.code();
            let text = w.message();
            let ok = self.print_diagnostic(out, lines, "warning", "\u{1b}[1;33m", code, text.as_str(), w.span(), file_path);
            assert(ws[i as int] == w@);
            if !ok {
                assert(!snippet_safe(ls, ws[i as int].span()));
                return false;
            }
            proof {
                assert(ws.take(i + 1).drop_last() =~= ws.take(i as int));
                vstd::seq_lib::lemma_concat_associative(
                    out0,
                    warnings_text(ls, ws.take(i as int), path_view(file_path)),
                    diagnostic_block("warning"@, warning_color(), ws[i as int].code(), ws[i as int].text(), ws[i as int].span(), path_view(file_path), ls),
                );
            }
            i += 1;
        }
        assert(ws.take(ws.len() as int) =~= ws);
        true
    }

    /// The text that printing `analysis` writes (see `analysis_text`), for the text
    /// format; none for the JSON format, which is written elsewhere, and none when
    /// a span's columns are out of order on a long line, where slicing the line fails.
    pub fn print_analysis(&self, analysis: &AnalysisResult) -> (r: Option<String>)
        ensures
            r is Some <==> (self.format == OutputFormat::Text && analysis_safe(analysis@, self.show_warnings)),
            r matches Some(t) ==> t@ == analysis_text(analysis@, self.show_warnings),
    {
        if self.format == OutputFormat::Json {
            return None;
        }
        let lines = query_lines(analysis.query.as_str());
        let mut errors_out = String::new();
        if !self.print_errors(&mut errors_out, &lines, &analysis.errors, None) {
            return None;
        }
        let mut warnings_out = String::new();
        if self.show_warnings {
            if !self.print_warnings(&mut warnings_out, &lines, &analysis.warnings, None) {
                return None;
            }
        }
        let mut result = crate::text::owned(errors_out.as_str());
        crate::text::push_str(&mut result, warnings_out.as_str());
        if analysis.errors.len() == 0 && (!self.show_warnings || analysis.warnings.len() == 0) {
            crate::text::push_str(&mut result, "All checks passed!\n");
        }
        proof {
            let ls = lines_of(analysis@.query);
            assert(errors_out@ =~= errors_text(ls, analysis@.errors, None));
            if self.show_warnings {
                assert(warnings_out@ =~= warnings_text(ls, analysis@.warnings, None));
            }
            assert(result@ =~= analysis_text(analysis@, self.show_warnings));
        }
        Some(result)
    }

    /// The text that printing `results` writes, for the text format: the
    /// diagnostics of each file that has some to show, with its path, then the
    /// summary (see `files_text` and `summary_text`); none for the JSON format,
    /// which is written elsewhere, and none when a span's columns are out of order
    /// on a long line, where slicing the line fails.
    pub fn print_file_results(&self, results: &FileResults) -> (r: Option<String>)
        ensures
            r is Some <==> (self.format == OutputFormat::Text && files_safe(entries_view(results.successful@), self.show_warnings)),
            r matches Some(t) ==> t@ == files_text(entries_view(results.successful@), self.show_warnings) + summary_text(
                count_valid(entries_view(results.successful@)),
                results.successful@.len(),
                results.read_errors as nat,
            ),
    {
        if self.format == OutputFormat::Json {
            return None;
        }
        let ghost es = entries_view(results.successful@);
        let mut out = String::new();
        let mut i: usize = 0;
        assert(es.take(0) =~= Seq::<(Seq<char>, AnalysisView, Seq<char>)>::empty());
        while i < results.successful.len()
            invariant
                self.format == OutputFormat::Text,
                es == entries_view(results.successful@),
                0 <= i <= es.len(),
                forall|k: int| 0 <= k < i && file_shown(#[trigger] es[k].1, self.show_warnings) ==> {
                    let lines = lines_of(es[k].2);
                    errors_safe(lines, es[k].1.errors) && (self.show_warnings ==> warnings_safe(lines, es[k].1.warnings))
                },
                out@ == files_text(es.take(i as int), self.show_warnings),
            decreases es.len() - i,
        {
            let entry = &results.successful[i];
            let path = entry.0.as_str();
            let analysis = &entry.1;
            let ghost before = out@;
            assert(es[i as int] == (entry.0@, analysis@, entry.2@));
            assert(es.take(i + 1).drop_last() =~= es.take(i as int));
            assert(es.take(i + 1).last() == es[i as int]);
            if !analysis.is_valid || (self.show_warnings && analysis.warnings.len() > 0) {
                let lines = query_lines(entry.2.as_str());
                assert(file_shown(es[i as int].1, self.show_warnings));
                let mut piece = String::new();
                if !self.print_errors(&mut piece, &lines, &analysis.errors, Some(path)) {
                    return None;
                }
                let mut more = String::new();
                if self.show_warnings {
                    if !self.print_warnings(&mut more, &lines, &analysis.warnings, Some(path)) {
                        return None;
                    }
                }
                proof {
                    assert(piece@ =~= errors_text(lines_of(entry.2@), analysis@.errors, Some(entry.0@)));
                    if self.show_warnings {
                        assert(more@ =~= warnings_text(lines_of(entry.2@), analysis@.warnings, Some(entry.0@)));
                    } else {
                        assert(more@ =~= Seq::<char>::empty());
                    }
                }
                crate::text::push_str(&mut piece, more.as_str());
                crate::text::push_str(&mut out, piece.as_str());
            } else {
                assert(out@ =~= before + Seq::<char>::empty());
            }
            i += 1;
        }
        assert(es.take(es.len() as int) =~= es);
        let valid = results.valid_files();
        let total = results.total_files_processed();
        let summary = summary_line(valid, total, results.read_errors);
        crate::text::push_str(&mut out, summary.as_str());
        Some(out)
    }

    /// The first and last line to show around the lines `start_line_idx..=end_line_idx`
    /// of a span: see `context_window`.
    #[verifier::rlimit(50)]
    fn calculate_context_window(
        &self,
        lines: &Vec<Vec<char>>,
        start_line_idx: usize,
        end_line_idx: usize,
        max_chars_per_line: usize,
        max_total_chars: usize,
    ) -> (r: (usize, usize))
        requires
            start_line_idx < lines@.len(),
            end_line_idx + 2 <= usize::MAX,
            max_total_chars < usize::MAX,
        ensures
            (r.0 as nat, r.1 as nat) == context_window(
                lines_view(lines@),
                start_line_idx as nat,
                end_line_idx as nat,
                max_chars_per_line as nat,
                max_total_chars as nat,
            ),
    {
        let ghost ls = lines_view(lines@);
        let ghost per = max_chars_per_line as nat;
        let mut total: usize = 0;
        let mut idx = start_line_idx;
        while idx <= end_line_idx && idx < lines.len()
            invariant
                ls == lines_view(lines@),
                per == max_chars_per_line,
                start_line_idx <= idx,
                start_line_idx < lines@.len(),
                idx == start_line_idx || idx <= end_line_idx + 1,
                idx <= lines@.len(),
                total == capped(clipped_sum(ls, start_line_idx as int, idx as int, per)),
            decreases lines@.len() - idx,
        {
            let c = clipped(&lines[idx], max_chars_per_line);
            total = total.saturating_add(c);
            idx += 1;
        }
        let ghost base = clipped_sum(ls, start_line_idx as int, min_nat((end_line_idx + 1) as nat, ls.len()) as int, per);
        assert(total == capped(base)) by {
            if start_line_idx <= end_line_idx + 1 {
                assert(idx == min_nat((end_line_idx + 1) as nat, ls.len()));
            }
        }
        let mut start_line = start_line_idx;
        let mut end_line = end_line_idx;
        if start_line_idx >= 1 {
            let c1 = clipped(&lines[start_line_idx - 1], max_chars_per_line);
            if c1 <= max_total_chars && total <= max_total_chars - c1 {
                start_line = start_line_idx - 1;
                total = total + c1;
                if start_line_idx >= 2 {
                    let c2 = clipped(&lines[start_line_idx - 2], max_chars_per_line);
                    if c2 <= max_total_chars && total <= max_total_chars - c2 {
                        start_line = start_line_idx - 2;
                        total = total + c2;
                    }
                }
            }
        }
        if end_line_idx + 1 < lines.len() {
            let d1 = clipped(&lines[end_line_idx + 1], max_chars_per_line);
            if d1 <= max_total_chars && total <= max_total_chars - d1 {
                end_line = end_line_idx + 1;
                total = total + d1;
                if end_line_idx + 2 < lines.len() {
                    let d2 = clipped(&lines[end_line_idx + 2], max_chars_per_line);
                    if d2 <= max_total_chars && total <= max_total_chars - d2 {
                        end_line = end_line_idx + 2;
                    }
                }
            }
        }
        (start_line, end_line)
    }

    /// Appends the row of carets under `display`, line `line_idx` of the query, for
    /// `span`: see `underline_row`.
    fn print_underline_for_line(
        &self,
        out: &mut String,
        line_idx: usize,
        span: &Span,
        display: &[char],
        char_offset: usize,
        indent: &str,
        color: &str,
    )
        ensures
            final(out)@ == old(out)@ + underline_row(line_idx as nat, *span, display@, char_offset as nat, indent@, color@),
    {
        reveal(underline_row);
        let start_line_idx = span.start.line.saturating_sub(1);
        let end_line_idx = span.end.line.saturating_sub(1);
        let from = if line_idx == start_line_idx { span.start.column.saturating_sub(1) } else { 0 };
        let to = if line_idx == end_line_idx { span.end.column.saturating_sub(1) } else { display.len() };
        let display_start = from.saturating_sub(char_offset);
        let display_end = to.saturating_sub(char_offset);
        if display_start >= display.len() {
            return;
        }
        let actual_end = if display_end < display.len() { display_end } else { display.len() };
        if actual_end <= display_start {
            return;
        }
        if cols_between(display, display_start, actual_end) == 0 {
            return;
        }
        let mut row = crate::text::owned(indent);
        crate::text::push_str(&mut row, " | ");
        crate::text::push_str(&mut row, color);
        push_repeat_cols(&mut row, ' ', display, 0, display_start);
        push_repeat_cols(&mut row, '^', display, display_start, actual_end);
        crate::text::push_str(&mut row, "\u{1b}[0m\n");
        crate::text::push_str(out, row.as_str());
    }

    /// Whether `line`, a line of a span from column `start_col` to `end_col`, can
    /// be truncated to `max_width` columns: see `truncation_safe`.
    fn truncation_ok(&self, line: &Vec<char>, start_col: usize, end_col: usize, max_width: usize) -> (r: bool)
        ensures
            r == truncation_safe(line@, Some((start_col, end_col)), max_width as nat),
    {
        if cols_in_order(line.len(), start_col, end_col) {
            return true;
        }
        let w = cols_between(line.as_slice(), 0, line.len());
        assert(line@.subrange(0, line@.len() as int) =~= line@);
        if w <= max_width {
            return true;
        }
        let ellipsis_width = char_width('\u{2026}');
        proof {
            reveal_strlit("\u{2026}");
            assert(ellipsis().drop_last() =~= Seq::<char>::empty());
            assert(cols_of(Seq::<char>::empty()) == 0);
            assert(cols_of(ellipsis()) == ellipsis_width);
        }
        max_width < ellipsis_width * 2 + 1
    }

    /// Appends the rows for the lines `first..=last` of the query: see
    /// `snippet_rows`; false when one of them cannot be shown (`rows_safe`).
    fn print_rows(
        &self,
        out: &mut String,
        lines: &Vec<Vec<char>>,
        span: &Span,
        color: &str,
        first: usize,
        last: usize,
        indent: &str,
        width: usize,
    ) -> (ok: bool)
        requires
            indent@ == repeat(' ', width as nat),
        ensures
            ok == rows_safe(lines_view(lines@), *span, first as nat, last as nat, 0),
            ok ==> final(out)@ == old(out)@ + snippet_rows(lines_view(lines@), *span, color@, first as nat, last as nat, indent@, 0),
    {
        let ghost ls = lines_view(lines@);
        let ghost out0 = out@;
        let ghost all = snippet_rows(ls, *span, color@, first as nat, last as nat, indent@, 0);
        let ghost mut done: Seq<char> = Seq::empty();
        let start_line_idx = span.start.line.saturating_sub(1);
        let end_line_idx = span.end.line.saturating_sub(1);
        let mut idx = first;
        let mut current: usize = 0;
        let mut ok = true;
        assert(out@ =~= out0 + done);
        assert(all =~= done + all);
        loop
            invariant_except_break
                ok,
                current <= 800,
                rows_safe(ls, *span, first as nat, last as nat, 0) == rows_safe(ls, *span, idx as nat, last as nat, current as nat),
                all == done + snippet_rows(ls, *span, color@, idx as nat, last as nat, indent@, current as nat),
            invariant
                ls == lines_view(lines@),
                indent@ == repeat(' ', width as nat),
                indent@.len() == width,
                start_line_idx == minus_one(span.start.line),
                end_line_idx == minus_one(span.end.line),
                first <= idx,
                all == snippet_rows(ls, *span, color@, first as nat, last as nat, indent@, 0),
                out@ == out0 + done,
            ensures
                ok == rows_safe(ls, *span, first as nat, last as nat, 0),
                ok ==> out@ == out0 + all,
            decreases lines@.len() - idx,
        {
            if idx > last || idx >= lines.len() {
                assert(done + Seq::<char>::empty() =~= done);
                break;
            }
            let line = &lines[idx];
            assert(ls[idx as int] == line@);
            let err = start_line_idx <= idx && idx <= end_line_idx;
            proof {
                lemma_rows_step(ls, *span, color@, idx as nat, last as nat, indent@, current as nat);
            }
            let nbytes = byte_len(line.as_slice());
            let mut display: Vec<char> = Vec::new();
            let mut offset: usize = 0;
            if nbytes > 200 {
                if err && !self.truncation_ok(line, span.start.column, span.end.column, 200) {
                    proof {
                        reveal(displayed);
                    }
                    ok = false;
                    break;
                }
                let text = string_of(line.as_slice());
                let cols = if err { Some((span.start.column, span.end.column)) } else { None };
                let (shown, o) = self.truncate_line_for_span(text.as_str(), cols, 200);
                display = crate::text::chars_of(shown.as_str());
                offset = o;
                proof {
                    reveal(displayed);
                }
            } else {
                push_char_range(&mut display, line.as_slice(), 0, line.len());
                assert(line@.subrange(0, line@.len() as int) =~= line@);
                proof {
                    reveal(displayed);
                }
            }
            assert(displayed(ls[idx as int], err, *span) == (display@, offset as nat));
            let mut piece = String::new();
            push_padded(&mut piece, idx + 1, width);
            crate::text::push_str(&mut piece, " | ");
            push_chars(&mut piece, display.as_slice(), 0, display.len());
            crate::text::push_str(&mut piece, "\n");
            proof {
                assert(display@.subrange(0, display@.len() as int) =~= display@);
                assert(Seq::<char>::empty() + padded((idx + 1) as nat, width as nat) =~= padded((idx + 1) as nat, width as nat));
            }
            if err {
                self.print_underline_for_line(&mut piece, idx, span, display.as_slice(), offset, indent, color);
            } else {
                assert(piece@ + Seq::<char>::empty() =~= piece@);
            }
            let shown_bytes = byte_len(display.as_slice());
            current = current.saturating_add(shown_bytes);
            let stop = current > 800;
            if stop {
                crate::text::push_str(&mut piece, indent);
                crate::text::push_str(&mut piece, " | ... (output truncated)\n");
            }
            let ghost rest = if stop {
                Seq::<char>::empty()
            } else {
                snippet_rows(ls, *span, color@, (idx + 1) as nat, last as nat, indent@, current as nat)
            };
            proof {
                if stop {
                    assert(piece@ + rest =~= piece@);
                }
                vstd::seq_lib::lemma_concat_associative(out0, done, piece@);
                vstd::seq_lib::lemma_concat_associative(done, piece@, rest);
            }
            crate::text::push_str(out, piece.as_str());
            proof {
                done = done + piece@;
            }
            if stop {
                break;
            }
            idx += 1;
        }
        ok
    }

    /// Appends the snippet of the query lines `lines` for `span`: see `snippet`;
    /// false when it cannot be drawn (`snippet_safe`).
    fn print_snippet_with_underline(&self, out: &mut String, lines: &Vec<Vec<char>>, span: &Span, color: &str) -> (ok: bool)
        ensures
            ok == snippet_safe(lines_view(lines@), *span),
            ok ==> final(out)@ == old(out)@ + snippet(lines_view(lines@), *span, color@),
    {
        let ghost ls = lines_view(lines@);
        let start_line_idx = span.start.line.saturating_sub(1);
        let end_line_idx = span.end.line.saturating_sub(1);
        if start_line_idx >= lines.len() {
            assert(out@ + snippet(ls, *span, color@) =~= out@);
            return true;
        }
        if span.end.line == usize::MAX {
            return false;
        }
        let (first, last) = self.calculate_context_window(lines, start_line_idx, end_line_idx, 200, 800);
        let width = decimal_len((last + 1) as u64);
        let mut indent = String::new();
        push_repeat(&mut indent, ' ', width);
        assert(indent@ =~= repeat(' ', width as nat));
        let ghost out0 = out@;
        crate::text::push_str(out, indent.as_str());
        crate::text::push_str(out, " |\n");
        let ok = self.print_rows(out, lines, span, color, first, last, indent.as_str(), width);
        if !ok {
            return false;
        }
        crate::text::push_str(out, indent.as_str());
        crate::text::push_str(out, " |\n");
        proof {
            reveal_strlit(" |\n");
            assert(out@ =~= out0 + snippet(ls, *span, color@));
        }
        true
    }

    /// What is shown of `line` when it takes more than `max_width` columns: see
    /// `truncated_line`.
    fn truncate_line_for_span(&self, line: &str, span_cols: Option<(usize, usize)>, max_width: usize) -> (r: (String, usize))
        requires
            truncation_safe(line@, span_cols, max_width as nat),
        ensures
            (r.0@, r.1 as nat) == truncated_line(line@, span_cols, max_width as nat),
    {
        reveal(truncated_line);
        let line_width = str_width(line);
        if line_width <= max_width {
            return (crate::text::owned(line), 0);
        }
        let ellipsis = "\u{2026}";
        let ellipsis_width = char_width('\u{2026}');
        proof {
            reveal_strlit("\u{2026}");
            assert(ellipsis@.drop_last() =~= Seq::<char>::empty());
            assert(cols_of(Seq::<char>::empty()) == 0);
            assert(cols_of(ellipsis@) == ellipsis_width);
        }
        if max_width < ellipsis_width * 2 + 1 {
            return (crate::text::owned(ellipsis), 0);
        }
        let available_width = max_width - ellipsis_width * 2;
        let chars = crate::text::chars_of(line);
        match span_cols {
            Some((start_col, end_col)) => {
                let span_start_char = start_col.saturating_sub(1);
                let span_end_char = end_col.saturating_sub(1);
                let span_start_char = if span_start_char < chars.len() { span_start_char } else { chars.len() };
                let span_end_char = if span_end_char < chars.len() { span_end_char } else { chars.len() };
                let span_width = cols_between(chars.as_slice(), span_start_char, span_end_char);
                if span_width >= available_width {
                    return truncate_span_only(chars.as_slice(), span_start_char, span_end_char, available_width, ellipsis);
                }
                let window = find_context_window(chars.as_slice(), span_start_char, span_end_char, span_width, available_width);
                build_truncated_display(chars.as_slice(), window, ellipsis)
            },
            None => truncate_from_start(chars.as_slice(), available_width, ellipsis),
        }
    }
}

} // verus!
