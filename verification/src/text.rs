//! Text: display widths, decimal numbers, and splitting styled runs into lines.

use unicode_width::UnicodeWidthStr;
use vstd::prelude::*;

use crate::geometry::{saturate, PointSize, LINE_HEIGHT, TICKS_PER_COL};
use crate::style::{chunk_style, styled, CellStyle, TextStyle};

verus! {

/// The number of columns that `UnicodeWidthStr::width` counts for a string.
pub uninterp spec fn display_width(text: Seq<char>) -> usize;

/// Counts the columns that a string takes on screen.
///
/// Calls `unicode_width::UnicodeWidthStr::width`. What it counts depends on the
/// characters alone.
#[verifier::external_body]
pub(crate) fn width_of(text: &str) -> (r: usize)
    ensures
        r == display_width(text@),
{
    UnicodeWidthStr::width(text)
}

/// Collects characters into a string.
///
/// Calls `String::from_iter` of the standard library: the string holds exactly the
/// given characters, in order.
#[verifier::external_body]
pub(crate) fn string_of(chars: &Vec<char>) -> (r: String)
    ensures
        r@ == chars@,
{
    String::from_iter(chars.iter())
}

/// Collects the characters of a string.
pub fn chars_of(text: &str) -> (r: Vec<char>)
    ensures
        r@ == text@,
{
    let mut out: Vec<char> = Vec::new();
    for c in it: text.chars()
        invariant
            it.seq() == text@,
            out@ == text@.take(it.index()),
    {
        proof {
            assert(text@.take(it.index() + 1) == text@.take(it.index()).push(text@[it.index()]));
        }
        out.push(c);
    }
    assert(text@.take(text@.len() as int) == text@);
    out
}

/// `n` copies of one character.
pub open spec fn repeated(c: char, n: nat) -> Seq<char> {
    Seq::new(n, |i: int| c)
}

/// The string of `n` copies of one character.
pub fn repeat_char(c: char, n: usize) -> (r: String)
    ensures
        r@ == repeated(c, n as nat),
{
    let mut out: Vec<char> = Vec::new();
    while out.len() < n
        invariant
            out@.len() <= n,
            out@ == repeated(c, out@.len()),
        decreases n - out@.len(),
    {
        out.push(c);
        assert(out@ == repeated(c, out@.len()));
    }
    string_of(&out)
}

/// The character of a decimal digit.
pub open spec fn digit(d: int) -> char {
    (48 + d) as char
}

/// The decimal digits of a number, without leading zeros.
pub open spec fn decimal(n: nat) -> Seq<char>
    decreases n,
{
    if n < 10 {
        seq![digit(n as int)]
    } else {
        decimal(n / 10).push(digit((n % 10) as int))
    }
}

/// The decimal digits of a signed number.
pub open spec fn signed_decimal(n: int) -> Seq<char> {
    if n < 0 {
        seq!['-'] + decimal((-n) as nat)
    } else {
        decimal(n as nat)
    }
}

/// Appends the decimal digits of a number.
pub fn push_decimal(out: &mut Vec<char>, n: u64)
    ensures
        final(out)@ == old(out)@ + decimal(n as nat),
    decreases n,
{
    if n >= 10 {
        push_decimal(out, n / 10);
    }
    let d: u8 = (n % 10) as u8;
    out.push((48 + d) as char);
}

/// Appends the decimal digits of a number to a string.
pub fn append_decimal(out: &mut String, n: u64)
    ensures
        final(out)@ == old(out)@ + decimal(n as nat),
{
    let mut digits: Vec<char> = Vec::new();
    push_decimal(&mut digits, n);
    assert(digits@ =~= decimal(n as nat));
    out.append(string_of(&digits).as_str());
}

/// Appends one character to a string.
pub fn append_char(out: &mut String, c: char)
    ensures
        final(out)@ == old(out)@.push(c),
{
    out.append(repeat_char(c, 1).as_str());
    assert(out@ =~= old(out)@.push(c));
}

/// The UTF-8 bytes of a string.
pub fn bytes_of(text: &str) -> (r: Vec<u8>)
    ensures
        r@ == vstd::utf8::encode_utf8(text@),
{
    let bytes = text.as_bytes();
    let mut out: Vec<u8> = Vec::new();
    let mut i: usize = 0;
    while i < bytes.len()
        invariant
            i <= bytes@.len(),
            bytes@ == vstd::utf8::encode_utf8(text@),
            out@ == bytes@.take(i as int),
        decreases bytes@.len() - i,
    {
        out.push(bytes[i]);
        i += 1;
        assert(bytes@.take(i as int) =~= bytes@.take(i - 1).push(bytes@[i - 1]));
    }
    assert(bytes@.take(i as int) =~= bytes@);
    out
}

/// The decimal digits of a signed number.
pub fn signed_string(n: i32) -> (r: String)
    ensures
        r@ == signed_decimal(n as int),
{
    let mut out: Vec<char> = Vec::new();
    if n < 0 {
        out.push('-');
        push_decimal(&mut out, (-(n as i64)) as u64);
    } else {
        push_decimal(&mut out, n as u64);
    }
    string_of(&out)
}

/// A run of text with one style.
#[derive(Debug)]
pub struct Span {
    /// The characters of the run.
    pub text: String,
    /// The style of the run.
    pub style: TextStyle,
}

/// A run of text as a value.
pub struct SpanView {
    pub text: Seq<char>,
    pub style: TextStyle,
}

impl View for Span {
    type V = SpanView;

    open spec fn view(&self) -> SpanView {
        SpanView { text: self.text@, style: self.style }
    }
}

impl Span {
    /// A run without any styling.
    pub fn plain(text: &str) -> (r: Span)
        ensures
            r@ == (SpanView { text: text@, style: crate::style::plain_style() }),
    {
        Span { text: text.to_owned(), style: TextStyle::plain() }
    }
}

/// A run of text with its cell style resolved.
#[derive(Debug)]
pub struct Run {
    /// The characters of the run.
    pub text: String,
    /// The style the run is drawn with.
    pub style: CellStyle,
}

/// A resolved run as a value.
pub struct RunView {
    pub text: Seq<char>,
    pub style: CellStyle,
}

impl View for Run {
    type V = RunView;

    open spec fn view(&self) -> RunView {
        RunView { text: self.text@, style: self.style }
    }
}

/// The values of a sequence of runs.
pub open spec fn spans_view(spans: Seq<Span>) -> Seq<SpanView> {
    spans.map_values(|s: Span| s@)
}

/// The values of a sequence of resolved runs.
pub open spec fn runs_view(runs: Seq<Run>) -> Seq<RunView> {
    runs.map_values(|s: Run| s@)
}

/// The values of a sequence of lines.
pub open spec fn lines_view(lines: Seq<Vec<Run>>) -> Seq<Seq<RunView>> {
    lines.map_values(|line: Vec<Run>| runs_view(line@))
}

/// The characters of a sequence of runs, without their styles.
pub open spec fn plain_text(spans: Seq<SpanView>) -> Seq<char>
    decreases spans.len(),
{
    if spans.len() == 0 {
        seq![]
    } else {
        plain_text(spans.drop_last()) + spans.last().text
    }
}

/// A text cut at its line feeds.
pub open spec fn split(text: Seq<char>) -> Seq<Seq<char>>
    decreases text.len(),
{
    if text.len() == 0 {
        seq![seq![]]
    } else {
        let head = split(text.drop_last());
        if text.last() == '\n' {
            head.push(seq![])
        } else {
            head.drop_last().push(head.last().push(text.last()))
        }
    }
}

/// A cut text always has a last line, and no line holds a line feed.
pub proof fn lemma_split(text: Seq<char>)
    ensures
        split(text).len() >= 1,
        forall|i: int, j: int|
            0 <= i < split(text).len() && 0 <= j < split(text)[i].len() ==> split(text)[i][j]
                != '\n',
    decreases text.len(),
{
    if text.len() > 0 {
        lemma_split(text.drop_last());
        let head = split(text.drop_last());
        if text.last() != '\n' {
            assert forall|i: int, j: int|
                0 <= i < split(text).len() && 0 <= j < split(text)[i].len() implies split(
                text,
            )[i][j] != '\n' by {
                if i < head.len() - 1 {
                    assert(split(text)[i] == head[i]);
                } else if j < head.last().len() {
                    assert(split(text)[i][j] == head.last()[j]);
                }
            }
        }
    }
}

/// The lines joined again with line feeds between them.
pub open spec fn joined(lines: Seq<Seq<char>>) -> Seq<char>
    decreases lines.len(),
{
    if lines.len() == 0 {
        seq![]
    } else if lines.len() == 1 {
        lines[0]
    } else {
        joined(lines.drop_last()).push('\n') + lines.last()
    }
}

/// Joining the lines of a text gives the text back.
pub proof fn law_lines_join(text: Seq<char>)
    ensures
        joined(split(text)) == text,
    decreases text.len(),
{
    if text.len() > 0 {
        let head = split(text.drop_last());
        law_lines_join(text.drop_last());
        lemma_split(text.drop_last());
        assert(text == text.drop_last().push(text.last()));
        if text.last() == '\n' {
            assert(split(text).drop_last() == head);
            assert(joined(split(text)) == joined(head).push('\n') + seq![]);
        } else {
            assert(split(text).drop_last() == head.drop_last());
            if head.len() == 1 {
                assert(split(text).len() == 1);
            } else {
                assert(joined(split(text)) == joined(head.drop_last()).push('\n')
                    + head.last().push(text.last()));
            }
        }
    }
}

/// Cuts a text at its line feeds.
pub fn split_lines(text: &str) -> (r: Vec<Vec<char>>)
    ensures
        r@.map_values(|line: Vec<char>| line@) == split(text@),
        r@.len() >= 1,
{
    let chars = chars_of(text);
    let mut out: Vec<Vec<char>> = Vec::new();
    let mut last: Vec<char> = Vec::new();
    let mut i: usize = 0;
    let ghost view = |line: Vec<char>| line@;
    assert(out@.map_values(view).push(last@) =~= split(chars@.take(0)));
    while i < chars.len()
        invariant
            i <= chars@.len(),
            view == (|line: Vec<char>| line@),
            out@.map_values(view).push(last@) == split(chars@.take(i as int)),
        decreases chars@.len() - i,
    {
        let ghost head = split(chars@.take(i as int));
        let ghost before = out@.map_values(view);
        assert(chars@.take(i + 1).drop_last() == chars@.take(i as int));
        assert(head.drop_last() =~= before);
        assert(head.last() == last@);
        if chars[i] == '\n' {
            out.push(last);
            last = Vec::new();
            assert(out@.map_values(view) =~= head);
            assert(last@ =~= seq![]);
        } else {
            last.push(chars[i]);
        }
        i += 1;
    }
    assert(chars@.take(i as int) == text@);
    out.push(last);
    assert(out@.map_values(view) =~= split(text@));
    out
}

/// One line with a piece of a run added; an empty piece adds nothing.
pub open spec fn add_piece(line: Seq<RunView>, piece: Seq<char>, style: CellStyle) -> Seq<RunView> {
    if piece.len() == 0 {
        line
    } else {
        line.push(RunView { text: piece, style })
    }
}

/// The lines with the pieces of one run added: the first piece continues the last
/// line, every other piece starts a line.
pub open spec fn add_pieces(
    lines: Seq<Seq<RunView>>,
    pieces: Seq<Seq<char>>,
    style: CellStyle,
) -> Seq<Seq<RunView>>
    decreases pieces.len(),
{
    if pieces.len() == 0 {
        lines
    } else if pieces.len() == 1 {
        lines.drop_last().push(add_piece(lines.last(), pieces[0], style))
    } else {
        add_pieces(lines, pieces.drop_last(), style).push(
            add_piece(seq![], pieces.last(), style),
        )
    }
}

/// Styled runs cut into lines, each run resolved over `base`.
pub open spec fn styled_lines(spans: Seq<SpanView>, base: CellStyle) -> Seq<Seq<RunView>>
    decreases spans.len(),
{
    if spans.len() == 0 {
        seq![seq![]]
    } else {
        add_pieces(
            styled_lines(spans.drop_last(), base),
            split(spans.last().text),
            styled(spans.last().style, base),
        )
    }
}

fn push_piece(line: &mut Vec<Run>, piece: &Vec<char>, style: CellStyle)
    ensures
        runs_view(final(line)@) == add_piece(runs_view(old(line)@), piece@, style),
{
    if piece.len() > 0 {
        line.push(Run { text: string_of(piece), style });
        assert(runs_view(line@) =~= runs_view(old(line)@).push(
            RunView { text: piece@, style },
        ));
    }
}

/// Cuts styled runs into lines, keeping each piece's resolved style.
pub fn lines_of(spans: &Vec<Span>, base: CellStyle) -> (r: Vec<Vec<Run>>)
    ensures
        lines_view(r@) == styled_lines(spans_view(spans@), base),
        r@.len() >= 1,
{
    let mut lines: Vec<Vec<Run>> = Vec::new();
    lines.push(Vec::new());
    let ghost values = spans_view(spans@);
    assert(lines_view(lines@) =~= styled_lines(values.take(0), base)) by {
        assert(runs_view(lines@[0]@) =~= seq![]);
    }
    let mut i: usize = 0;
    while i < spans.len()
        invariant
            i <= spans@.len(),
            values == spans_view(spans@),
            lines@.len() >= 1,
            lines_view(lines@) == styled_lines(values.take(i as int), base),
        decreases spans@.len() - i,
    {
        let style = chunk_style(&spans[i].style, base);
        let pieces = split_lines(spans[i].text.as_str());
        let ghost cut = split(spans@[i as int].text@);
        let ghost before = lines_view(lines@);
        let mut k: usize = 0;
        while k < pieces.len()
            invariant
                k <= pieces@.len(),
                pieces@.len() >= 1,
                lines@.len() >= 1,
                before.len() >= 1,
                cut == pieces@.map_values(|line: Vec<char>| line@),
                lines_view(lines@) == add_pieces(before, cut.take(k as int), style),
                k == 0 ==> lines_view(lines@) == before,
            decreases pieces@.len() - k,
        {
            let ghost now = lines_view(lines@);
            assert(cut.take(k + 1).drop_last() == cut.take(k as int));
            if k == 0 {
                let mut line = lines.pop().unwrap();
                assert(now.drop_last() =~= lines_view(lines@));
                push_piece(&mut line, &pieces[k], style);
                lines.push(line);
                assert(lines_view(lines@) =~= before.drop_last().push(
                    add_piece(before.last(), cut[0], style),
                ));
            } else {
                let mut line: Vec<Run> = Vec::new();
                assert(runs_view(line@) =~= seq![]);
                push_piece(&mut line, &pieces[k], style);
                lines.push(line);
                assert(lines_view(lines@) =~= now.push(add_piece(seq![], cut[k as int], style)));
            }
            k += 1;
        }
        assert(cut.take(k as int) == cut);
        assert(values.take(i + 1).drop_last() == values.take(i as int));
        i += 1;
    }
    assert(values.take(i as int) == values);
    lines
}

/// The widest of some lines, in columns.
pub open spec fn widest(lines: Seq<Seq<char>>) -> usize
    decreases lines.len(),
{
    if lines.len() == 0 {
        0
    } else {
        let rest = widest(lines.drop_last());
        let last = display_width(lines.last());
        if last > rest {
            last
        } else {
            rest
        }
    }
}

/// The number of lines that are shown of `count` lines.
pub open spec fn limited(count: nat, limit: Option<usize>) -> nat {
    match limit {
        Some(n) => if n < count {
            n as nat
        } else {
            count
        },
        None => count,
    }
}

/// The size of a paragraph: as wide as its widest line, one row for each shown line.
pub open spec fn paragraph_size(spans: Seq<SpanView>, limit: Option<usize>) -> PointSize {
    let lines = split(plain_text(spans));
    PointSize {
        width: saturate(widest(lines) * TICKS_PER_COL),
        height: saturate(limited(lines.len(), limit) * LINE_HEIGHT),
    }
}

/// Multiplies a count by a tick length, holding the product at the end of the range.
pub fn tick_product(n: usize, unit: i64) -> (r: i64)
    requires
        unit == TICKS_PER_COL || unit == LINE_HEIGHT,
    ensures
        r == saturate(n * unit),
{
    let product: i128 = if unit == TICKS_PER_COL {
        assert(n * unit == n * 65536) by (nonlinear_arith)
            requires
                unit == 65536,
        ;
        n as i128 * 65536
    } else {
        assert(n * unit == n * 524288) by (nonlinear_arith)
            requires
                unit == 524288,
        ;
        n as i128 * 524288
    };
    if product > i64::MAX as i128 {
        i64::MAX
    } else {
        product as i64
    }
}

/// Joins the characters of all runs.
pub fn plain_of(spans: &Vec<Span>) -> (r: String)
    ensures
        r@ == plain_text(spans_view(spans@)),
{
    let mut out = String::new();
    let ghost values = spans_view(spans@);
    let mut i: usize = 0;
    while i < spans.len()
        invariant
            i <= spans@.len(),
            values == spans_view(spans@),
            out@ == plain_text(values.take(i as int)),
        decreases spans@.len() - i,
    {
        assert(values.take(i + 1).drop_last() == values.take(i as int));
        out.append(spans[i].text.as_str());
        i += 1;
    }
    assert(values.take(i as int) == values);
    out
}

/// Measures a paragraph.
pub fn measure_text(spans: &Vec<Span>, limit: Option<usize>) -> (r: PointSize)
    ensures
        r == paragraph_size(spans_view(spans@), limit),
{
    let plain = plain_of(spans);
    let lines = split_lines(plain.as_str());
    let ghost values = split(plain@);
    let mut width: usize = 0;
    let mut i: usize = 0;
    while i < lines.len()
        invariant
            i <= lines@.len(),
            values == lines@.map_values(|line: Vec<char>| line@),
            width == widest(values.take(i as int)),
        decreases lines@.len() - i,
    {
        assert(values.take(i + 1).drop_last() == values.take(i as int));
        let line = string_of(&lines[i]);
        let w: usize = width_of(line.as_str());
        if w > width {
            width = w;
        }
        i += 1;
    }
    assert(values.take(i as int) == values);
    let mut count: usize = lines.len();
    if let Some(n) = limit {
        if n < count {
            count = n;
        }
    }
    PointSize { width: tick_product(width, TICKS_PER_COL), height: tick_product(count, LINE_HEIGHT) }
}

/// A paragraph measures one row for each of its lines, up to its limit.
pub proof fn law_one_row_per_line(spans: Seq<SpanView>, limit: Option<usize>)
    requires
        split(plain_text(spans)).len() <= u16::MAX,
    ensures
        crate::geometry::spec_rows(paragraph_size(spans, limit).height) == limited(
            split(plain_text(spans)).len(),
            limit,
        ),
{
}

/// The columns of a line of runs, counted run by run.
pub open spec fn run_widths(line: Seq<RunView>) -> nat
    decreases line.len(),
{
    if line.len() == 0 {
        0
    } else {
        run_widths(line.drop_last()) + display_width(line.last().text) as nat
    }
}

/// The columns of a line of runs, held at the end of the range.
pub open spec fn line_width(line: Seq<RunView>) -> usize {
    if run_widths(line) > usize::MAX {
        usize::MAX
    } else {
        run_widths(line) as usize
    }
}

/// Counts the columns of a line of runs.
pub fn measure_line(line: &Vec<Run>) -> (r: usize)
    ensures
        r == line_width(runs_view(line@)),
{
    let ghost values = runs_view(line@);
    let mut total: usize = 0;
    let mut i: usize = 0;
    while i < line.len()
        invariant
            i <= line@.len(),
            values == runs_view(line@),
            total == line_width(values.take(i as int)),
        decreases line@.len() - i,
    {
        assert(values.take(i + 1).drop_last() == values.take(i as int));
        let w: usize = width_of(line[i].text.as_str());
        total = total.saturating_add(w);
        i += 1;
    }
    assert(values.take(i as int) == values);
    total
}

// ---- Cutting on the left ----------------------------------------------------------

/// How many characters of a text fill its first `columns` columns, if the first `from` ones
/// do not fill fewer.
pub open spec fn filling(text: Seq<char>, columns: int, from: int) -> int
    decreases text.len() - from,
{
    if from >= text.len() || display_width(text.take(from)) >= columns {
        from
    } else {
        filling(text, columns, from + 1)
    }
}

/// What is left of a text behind its first `columns` columns, and how many columns before it
/// stay empty because a wide character was cut.
pub open spec fn behind(text: Seq<char>, columns: int) -> (Seq<char>, int) {
    let k = filling(text, columns, 0);
    let taken = display_width(text.take(k));
    (text.skip(k), if taken > columns { taken - columns } else { 0 })
}

/// Cuts the first columns off a text.
pub fn cut_text(text: &str, columns: u64) -> (r: (String, usize))
    ensures
        (r.0@, r.1 as int) == behind(text@, columns as int),
{
    let chars = chars_of(text);
    let mut first: Vec<char> = Vec::new();
    let mut k: usize = 0;
    let mut taken: usize = width_of("");
    proof {
        reveal_strlit("");
        assert(""@ =~= text@.take(0));
    }
    while k < chars.len() && (taken as u64) < columns
        invariant
            k <= chars@.len(),
            chars@ == text@,
            first@ == text@.take(k as int),
            taken == display_width(text@.take(k as int)),
            filling(text@, columns as int, 0) == filling(text@, columns as int, k as int),
        decreases chars@.len() - k,
    {
        first.push(chars[k]);
        k += 1;
        assert(first@ =~= text@.take(k as int));
        let prefix = string_of(&first);
        taken = width_of(prefix.as_str());
    }
    let mut rest: Vec<char> = Vec::new();
    let mut i: usize = k;
    assert(rest@ =~= text@.subrange(k as int, i as int));
    while i < chars.len()
        invariant
            k <= i <= chars@.len(),
            chars@ == text@,
            rest@ == text@.subrange(k as int, i as int),
        decreases chars@.len() - i,
    {
        rest.push(chars[i]);
        i += 1;
        assert(rest@ =~= text@.subrange(k as int, i as int));
    }
    assert(rest@ =~= text@.skip(k as int));
    let gap: usize = if taken as u64 > columns { (taken as u64 - columns) as usize } else { 0 };
    (string_of(&rest), gap)
}

/// What is left of a line of runs behind its first `columns` columns, and how many columns
/// before it stay empty because a wide character was cut.
pub open spec fn runs_behind(runs: Seq<RunView>, columns: int) -> (Seq<RunView>, int)
    decreases runs.len(),
{
    if runs.len() == 0 || columns <= 0 {
        (runs, 0)
    } else if display_width(runs[0].text) <= columns {
        runs_behind(runs.drop_first(), columns - display_width(runs[0].text))
    } else {
        let (rest, gap) = behind(runs[0].text, columns);
        (seq![RunView { text: rest, style: runs[0].style }] + runs.drop_first(), gap)
    }
}

/// Cuts the first columns off a line of runs.
pub fn cut_runs(runs: Vec<Run>, columns: u64) -> (r: (Vec<Run>, usize))
    ensures
        (runs_view(r.0@), r.1 as int) == runs_behind(runs_view(runs@), columns as int),
{
    let ghost values = runs_view(runs@);
    let mut left: u64 = columns;
    let mut i: usize = 0;
    assert(values.skip(0) =~= values);
    while i < runs.len() && left > 0
        invariant_except_break
            runs_behind(values, columns as int) == runs_behind(values.skip(i as int), left as int),
        invariant
            i <= runs@.len(),
            values == runs_view(runs@),
        ensures
            runs_behind(values, columns as int) == runs_behind(values.skip(i as int), left as int),
            i == runs@.len() || left == 0 || display_width(values[i as int].text) > left,
        decreases runs@.len() - i,
    {
        let width: usize = width_of(runs[i].text.as_str());
        assert(values.skip(i as int)[0] == runs@[i as int]@);
        assert(values.skip(i as int).drop_first() =~= values.skip(i + 1));
        if width as u64 > left {
            break;
        }
        left = left - width as u64;
        i += 1;
    }
    let mut out: Vec<Run> = Vec::new();
    let mut gap: usize = 0;
    let ghost rest = values.skip(i as int);
    let ghost cut = runs_behind(rest, left as int);
    assert(cut.0.len() == rest.len());
    let mut k: usize = i;
    while k < runs.len()
        invariant
            i <= k <= runs@.len(),
            values == runs_view(runs@),
            rest == values.skip(i as int),
            cut == runs_behind(rest, left as int),
            cut.0.len() == rest.len(),
            i == runs@.len() || left == 0 || display_width(values[i as int].text) > left,
            runs_view(out@) == cut.0.take(k - i),
            k > i ==> gap == cut.1,
            k == i ==> gap == 0,
        decreases runs@.len() - k,
    {
        let ghost before = runs_view(out@);
        assert(rest[k - i] == runs@[k as int]@);
        if k == i && left > 0 {
            let (text, columns) = cut_text(runs[k].text.as_str(), left);
            gap = columns;
            out.push(Run { text, style: runs[k].style });
        } else {
            out.push(Run { text: runs[k].text.clone(), style: runs[k].style });
            assert(cut.0[k - i] == rest[k - i]) by {
                if left > 0 {
                    assert(cut.0[k - i] == rest.drop_first()[k - i - 1]);
                }
            }
        }
        assert(runs_view(out@) =~= before.push(out@[k - i]@));
        k += 1;
        assert(cut.0.take(k - i) =~= cut.0.take(k - 1 - i).push(cut.0[k - 1 - i]));
    }
    assert(cut.0.take(k - i) =~= cut.0);
    (out, gap)
}

} // verus!
