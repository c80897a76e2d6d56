//! Text: no character is lost, moved or restyled on its way to the screen.

use vstd::prelude::*;

use crate::buffer::{stringn, CellView};
use crate::geometry::CellRect;
use crate::paint::print_runs;
use crate::style::{styled, CellStyle};
use crate::text::{
    add_piece, add_pieces, behind, decimal, display_width, filling, joined, law_lines_join,
    lemma_split, line_width, paragraph_size, plain_text, run_widths, runs_behind,
    signed_decimal, split, styled_lines, widest, RunView, SpanView,
};

verus! {

// ---- Runs and lines ---------------------------------------------------------------

/// The characters of a text, each with the style that it is shown in. A line feed is not
/// shown and has none.
pub open spec fn ink(text: Seq<char>, style: CellStyle) -> Seq<(char, Option<CellStyle>)> {
    Seq::new(
        text.len(),
        |i: int|
            (
                text[i],
                if text[i] == '\n' {
                    None
                } else {
                    Some(style)
                },
            ),
    )
}

/// The characters of some spans, one span behind the other.
pub open spec fn spans_ink(spans: Seq<SpanView>, base: CellStyle) -> Seq<(char, Option<CellStyle>)>
    decreases spans.len(),
{
    if spans.len() == 0 {
        seq![]
    } else {
        ink(spans[0].text, styled(spans[0].style, base)) + spans_ink(spans.drop_first(), base)
    }
}

/// The characters of a line of runs, from the left to the right.
pub open spec fn line_ink(runs: Seq<RunView>) -> Seq<(char, Option<CellStyle>)>
    decreases runs.len(),
{
    if runs.len() == 0 {
        seq![]
    } else {
        Seq::new(runs[0].text.len(), |i: int| (runs[0].text[i], Some(runs[0].style))) + line_ink(
            runs.drop_first(),
        )
    }
}

/// The characters of some lines from the top to the bottom, with a line feed between two lines.
pub open spec fn lines_ink(lines: Seq<Seq<RunView>>) -> Seq<(char, Option<CellStyle>)>
    decreases lines.len(),
{
    if lines.len() == 0 {
        seq![]
    } else if lines.len() == 1 {
        line_ink(lines[0])
    } else {
        lines_ink(lines.drop_last()).push(('\n', None)) + line_ink(lines.last())
    }
}

proof fn lemma_spans_ink_last(spans: Seq<SpanView>, base: CellStyle)
    requires
        spans.len() > 0,
    ensures
        spans_ink(spans, base) == spans_ink(spans.drop_last(), base) + ink(
            spans.last().text,
            styled(spans.last().style, base),
        ),
    decreases spans.len(),
{
    if spans.len() == 1 {
        assert(spans.drop_first() =~= seq![]);
        assert(spans.drop_last() =~= seq![]);
        assert(spans_ink(spans.drop_first(), base) =~= seq![]);
        assert(spans_ink(spans.drop_last(), base) =~= seq![]);
        assert(spans_ink(spans, base) =~= ink(spans[0].text, styled(spans[0].style, base)));
    } else {
        let rest = spans.drop_first();
        lemma_spans_ink_last(rest, base);
        assert(rest.drop_last() =~= spans.drop_last().drop_first());
        assert(spans.drop_last()[0] == spans[0]);
        assert(spans_ink(spans, base) =~= spans_ink(spans.drop_last(), base) + ink(
            spans.last().text,
            styled(spans.last().style, base),
        ));
    }
}

proof fn lemma_line_ink_last(runs: Seq<RunView>, run: RunView)
    ensures
        line_ink(runs.push(run)) == line_ink(runs) + Seq::new(
            run.text.len(),
            |i: int| (run.text[i], Some(run.style)),
        ),
    decreases runs.len(),
{
    let all = runs.push(run);
    let own = Seq::new(run.text.len(), |i: int| (run.text[i], Some(run.style)));
    if runs.len() == 0 {
        assert(all.drop_first() =~= seq![]);
        assert(line_ink(all.drop_first()) =~= seq![]);
        assert(line_ink(all) =~= line_ink(runs) + own);
    } else {
        lemma_line_ink_last(runs.drop_first(), run);
        assert(all.drop_first() =~= runs.drop_first().push(run));
        assert(line_ink(all) =~= line_ink(runs) + own);
    }
}

proof fn lemma_piece_ink(line: Seq<RunView>, piece: Seq<char>, style: CellStyle)
    requires
        forall|j: int| 0 <= j < piece.len() ==> piece[j] != '\n',
    ensures
        line_ink(add_piece(line, piece, style)) == line_ink(line) + ink(piece, style),
{
    if piece.len() == 0 {
        assert(line_ink(line) + ink(piece, style) =~= line_ink(line));
    } else {
        lemma_line_ink_last(line, RunView { text: piece, style });
        assert(ink(piece, style) =~= Seq::new(piece.len(), |i: int| (piece[i], Some(style))));
    }
}

proof fn lemma_pieces_ink(lines: Seq<Seq<RunView>>, pieces: Seq<Seq<char>>, style: CellStyle)
    requires
        lines.len() >= 1,
        pieces.len() >= 1,
        forall|i: int, j: int| 0 <= i < pieces.len() && 0 <= j < pieces[i].len() ==> pieces[i][j] != '\n',
    ensures
        add_pieces(lines, pieces, style).len() >= 1,
        lines_ink(add_pieces(lines, pieces, style)) == lines_ink(lines) + ink(joined(pieces), style),
    decreases pieces.len(),
{
    if pieces.len() == 1 {
        let after = add_pieces(lines, pieces, style);
        lemma_piece_ink(lines.last(), pieces[0], style);
        assert(after.drop_last() =~= lines.drop_last());
        assert(after.last() == add_piece(lines.last(), pieces[0], style));
        assert(joined(pieces) == pieces[0]);
        if lines.len() == 1 {
            assert(after.len() == 1);
            assert(lines_ink(after) == line_ink(after[0]));
            assert(lines_ink(lines) == line_ink(lines[0]));
        }
        assert(lines_ink(after) =~= lines_ink(lines) + ink(joined(pieces), style));
    } else {
        let before = add_pieces(lines, pieces.drop_last(), style);
        lemma_pieces_ink(lines, pieces.drop_last(), style);
        let empty = Seq::<RunView>::empty();
        lemma_piece_ink(empty, pieces.last(), style);
        let after = add_pieces(lines, pieces, style);
        assert(after.drop_last() =~= before);
        assert(line_ink(empty) =~= seq![]);
        assert(line_ink(after.last()) =~= ink(pieces.last(), style));
        assert(ink(joined(pieces), style) =~= ink(joined(pieces.drop_last()), style).push(
            ('\n', None),
        ) + ink(pieces.last(), style));
        assert(lines_ink(after) =~= lines_ink(lines) + ink(joined(pieces), style));
    }
}

/// The lines of a text show every character of its spans, in order and in the style of the span
/// that it comes from, and break where the spans have a line feed and nowhere else.
pub proof fn law_lines_show_every_character(spans: Seq<SpanView>, base: CellStyle)
    ensures
        styled_lines(spans, base).len() >= 1,
        lines_ink(styled_lines(spans, base)) == spans_ink(spans, base),
    decreases spans.len(),
{
    if spans.len() == 0 {
        assert(line_ink(seq![]) =~= seq![]);
        assert(styled_lines(spans, base)[0] =~= seq![]);
        assert(lines_ink(styled_lines(spans, base)) =~= spans_ink(spans, base));
    } else {
        let rest = spans.drop_last();
        let text = spans.last().text;
        law_lines_show_every_character(rest, base);
        lemma_split(text);
        law_lines_join(text);
        lemma_pieces_ink(styled_lines(rest, base), split(text), styled(spans.last().style, base));
        lemma_spans_ink_last(spans, base);
    }
}

/// The lines of a text read as its spans do, put together.
pub proof fn law_lines_read_as_the_text(spans: Seq<SpanView>, base: CellStyle)
    ensures
        lines_ink(styled_lines(spans, base)).map_values(|c: (char, Option<CellStyle>)| c.0)
            == plain_text(spans),
    decreases spans.len(),
{
    law_lines_show_every_character(spans, base);
    let char_of = |c: (char, Option<CellStyle>)| c.0;
    if spans.len() == 0 {
        assert(spans_ink(spans, base).map_values(char_of) =~= plain_text(spans));
    } else {
        law_lines_read_as_the_text(spans.drop_last(), base);
        law_lines_show_every_character(spans.drop_last(), base);
        lemma_spans_ink_last(spans, base);
        assert(spans_ink(spans, base).map_values(char_of) =~= spans_ink(
            spans.drop_last(),
            base,
        ).map_values(char_of) + spans.last().text);
    }
}

/// A text is cut at its line feeds: a line more for each of them, and what two texts with a line
/// feed between them are cut into is what each of them is.
pub proof fn law_line_feed_parts_lines(first: Seq<char>, second: Seq<char>)
    ensures
        split(first.push('\n') + second) == split(first) + split(second),
    decreases second.len(),
{
    let whole = first.push('\n') + second;
    lemma_split(first);
    lemma_split(second);
    if second.len() == 0 {
        assert(whole =~= first.push('\n'));
        assert(whole.drop_last() =~= first);
        assert(split(whole) =~= split(first) + split(second));
    } else {
        law_line_feed_parts_lines(first, second.drop_last());
        assert(whole.drop_last() =~= first.push('\n') + second.drop_last());
        assert(whole.last() == second.last());
        lemma_split(second.drop_last());
        assert(split(whole) =~= split(first) + split(second));
    }
}

// ---- Sizes ------------------------------------------------------------------------

proof fn lemma_widest(lines: Seq<Seq<char>>)
    ensures
        forall|i: int| 0 <= i < lines.len() ==> display_width(#[trigger] lines[i]) <= widest(lines),
        widest(lines) == 0 || exists|i: int|
            0 <= i < lines.len() && display_width(#[trigger] lines[i]) == widest(lines),
    decreases lines.len(),
{
    if lines.len() > 0 {
        let rest = lines.drop_last();
        lemma_widest(rest);
        assert forall|i: int| 0 <= i < lines.len() implies display_width(#[trigger] lines[i])
            <= widest(lines) by {
            if i < lines.len() - 1 {
                assert(rest[i] == lines[i]);
            }
        }
        if display_width(lines.last()) <= widest(rest) && widest(rest) > 0 {
            let i = choose|i: int|
                0 <= i < rest.len() && display_width(#[trigger] rest[i]) == widest(rest);
            assert(display_width(lines[i]) == widest(lines));
        } else if widest(lines) > 0 {
            assert(display_width(lines[lines.len() - 1]) == widest(lines));
        }
    }
}

/// A paragraph is as wide as its widest line, and as high as the lines that it shows: all of
/// them, or as many as its limit allows. One column is one point, and one line is eight.
pub proof fn law_paragraph_takes_its_lines(spans: Seq<SpanView>, limit: Option<usize>)
    ensures
        ({
            let lines = split(plain_text(spans));
            let size = paragraph_size(spans, limit);
            let point = 65536int;
            &&& forall|i: int|
                0 <= i < lines.len() && display_width(#[trigger] lines[i]) * point <= i64::MAX
                    ==> display_width(lines[i]) * point <= size.width
            &&& size.width < i64::MAX ==> size.width == 0 || exists|i: int|
                0 <= i < lines.len() && display_width(#[trigger] lines[i]) * point == size.width
            &&& limit is None && lines.len() * 8 * point <= i64::MAX ==> size.height == lines.len()
                * 8 * point
            &&& limit is Some && limit->0 >= lines.len() ==> size == paragraph_size(spans, None)
            &&& limit is Some && limit->0 <= lines.len() && limit->0 * 8 * point <= i64::MAX
                ==> size.height == limit->0 * 8 * point
            &&& size.width == paragraph_size(spans, None).width
        }),
{
    let lines = split(plain_text(spans));
    let size = paragraph_size(spans, limit);
    lemma_widest(lines);
    assert forall|i: int|
        0 <= i < lines.len() && display_width(#[trigger] lines[i]) * 65536 <= i64::MAX implies display_width(
        lines[i],
    ) * 65536 <= size.width by {
        assert(display_width(lines[i]) <= widest(lines));
    }
    if 0 < size.width < i64::MAX {
        let i = choose|i: int|
            0 <= i < lines.len() && display_width(#[trigger] lines[i]) == widest(lines);
        assert(display_width(lines[i]) * 65536 == size.width);
    }
}

proof fn lemma_run_widths_sum(a: Seq<RunView>, b: Seq<RunView>)
    ensures
        run_widths(a + b) == run_widths(a) + run_widths(b),
    decreases b.len(),
{
    if b.len() == 0 {
        assert(a + b =~= a);
    } else {
        lemma_run_widths_sum(a, b.drop_last());
        assert((a + b).drop_last() =~= a + b.drop_last());
    }
}

/// The width of a line is that of its runs put together, however they are parted.
pub proof fn law_line_width_adds_up(a: Seq<RunView>, run: RunView, b: Seq<RunView>)
    requires
        run_widths(a) + display_width(run.text) + run_widths(b) <= usize::MAX,
    ensures
        line_width(a.push(run) + b) == line_width(a) + display_width(run.text) + line_width(b),
        line_width(seq![]) == 0,
{
    lemma_run_widths_sum(a.push(run), b);
    assert(a.push(run).drop_last() =~= a);
}

// ---- Cutting on the left ----------------------------------------------------------

proof fn lemma_filling(text: Seq<char>, columns: int, from: int)
    requires
        0 <= from <= text.len(),
        forall|j: int| 0 <= j < from ==> display_width(#[trigger] text.take(j)) < columns,
    ensures
        from <= filling(text, columns, from) <= text.len(),
        forall|j: int|
            0 <= j < filling(text, columns, from) ==> display_width(#[trigger] text.take(j)) < columns,
        filling(text, columns, from) < text.len() ==> display_width(
            text.take(filling(text, columns, from)),
        ) >= columns,
    decreases text.len() - from,
{
    if from < text.len() && display_width(text.take(from)) < columns {
        lemma_filling(text, columns, from + 1);
    }
}

/// Cutting the first columns off a text takes the fewest characters that fill them, leaves the
/// others as they are, and leaves as many columns empty as those characters take too many.
pub proof fn law_cut_takes_the_fewest_characters(text: Seq<char>, columns: int)
    ensures
        ({
            let (rest, gap) = behind(text, columns);
            exists|k: int|
                {
                    &&& 0 <= k <= text.len()
                    &&& rest == #[trigger] text.skip(k)
                    &&& forall|j: int| 0 <= j < k ==> display_width(#[trigger] text.take(j)) < columns
                    &&& k < text.len() ==> display_width(text.take(k)) >= columns
                    &&& display_width(text.take(k)) >= columns ==> columns + gap == display_width(
                        text.take(k),
                    )
                    &&& display_width(text.take(k)) < columns ==> gap == 0
                }
        }),
{
    lemma_filling(text, columns, 0);
    let k = filling(text, columns, 0);
    assert(behind(text, columns).0 == text.skip(k));
}

proof fn lemma_suffix_ink(run: RunView, k: int)
    requires
        0 <= k <= run.text.len(),
    ensures
        line_ink(seq![RunView { text: run.text.skip(k), style: run.style }]) == line_ink(
            seq![run],
        ).skip(k),
{
    let cut = RunView { text: run.text.skip(k), style: run.style };
    assert(seq![cut].drop_first() =~= seq![]);
    assert(seq![run].drop_first() =~= seq![]);
    assert(line_ink(seq![]) =~= seq![]);
    assert(line_ink(seq![cut]) =~= line_ink(seq![run]).skip(k));
}

proof fn lemma_ink_of_first(run: RunView, rest: Seq<RunView>)
    ensures
        line_ink(seq![run] + rest) == line_ink(seq![run]) + line_ink(rest),
{
    assert((seq![run] + rest).drop_first() =~= rest);
    assert(seq![run].drop_first() =~= seq![]);
    assert(line_ink(seq![]) =~= seq![]);
    assert(line_ink(seq![run] + rest) =~= line_ink(seq![run]) + line_ink(rest));
}

/// What is left of a line behind its first columns are its last characters, each as it was; a
/// line that is not cut stays as it is, and runs that end before the cut are gone.
pub proof fn law_cut_line_keeps_its_end(runs: Seq<RunView>, columns: int)
    ensures
        ({
            let (rest, gap) = runs_behind(runs, columns);
            &&& exists|k: int|
                0 <= k <= line_ink(runs).len() && line_ink(rest) == #[trigger] line_ink(runs).skip(k)
            &&& columns <= 0 ==> rest == runs && gap == 0
            &&& runs.len() > 0 && columns > 0 && display_width(runs[0].text) <= columns
                ==> runs_behind(runs, columns) == runs_behind(
                runs.drop_first(),
                columns - display_width(runs[0].text),
            )
            &&& runs.len() > 0 && columns > 0 && display_width(runs[0].text) > columns ==> {
                &&& gap == behind(runs[0].text, columns).1
                &&& rest.len() == runs.len()
                &&& rest[0] == (RunView {
                    text: behind(runs[0].text, columns).0,
                    style: runs[0].style,
                })
                &&& rest.drop_first() == runs.drop_first()
            }
        }),
    decreases runs.len(),
{
    let all = line_ink(runs);
    let (rest, gap) = runs_behind(runs, columns);
    if runs.len() == 0 || columns <= 0 {
        assert(all.skip(0) =~= all);
    } else {
        assert(seq![runs[0]] + runs.drop_first() =~= runs);
        lemma_ink_of_first(runs[0], runs.drop_first());
        let first = line_ink(seq![runs[0]]);
        let others = line_ink(runs.drop_first());
        if display_width(runs[0].text) <= columns {
            law_cut_line_keeps_its_end(
                runs.drop_first(),
                columns - display_width(runs[0].text),
            );
            let k = choose|k: int|
                0 <= k <= others.len() && line_ink(rest) == #[trigger] others.skip(k);
            assert(all.skip(first.len() + k) =~= others.skip(k));
        } else {
            law_cut_takes_the_fewest_characters(runs[0].text, columns);
            lemma_filling(runs[0].text, columns, 0);
            let k = filling(runs[0].text, columns, 0);
            let cut = RunView { text: runs[0].text.skip(k), style: runs[0].style };
            lemma_suffix_ink(runs[0], k);
            lemma_ink_of_first(cut, runs.drop_first());
            assert(first.len() == runs[0].text.len()) by {
                assert(seq![runs[0]].drop_first() =~= Seq::<RunView>::empty());
                assert(line_ink(Seq::<RunView>::empty()).len() == 0);
            }
            assert(rest =~= seq![cut] + runs.drop_first());
            assert(all.skip(k) =~= first.skip(k) + others);
            assert(rest.drop_first() =~= runs.drop_first());
        }
    }
}

// ---- Printing ---------------------------------------------------------------------

/// The runs of a line are printed one behind the other: the first one where the line starts, and
/// the others from where it ended, as far as there are columns left before `right`.
pub proof fn law_runs_follow_each_other(
    cells: Seq<CellView>,
    area: CellRect,
    x: u16,
    y: u16,
    right: u16,
    run: RunView,
    rest: Seq<RunView>,
)
    requires
        area.x <= x < right,
        area.y <= y < area.y + area.height,
    ensures
        ({
            let (next, end) = stringn(
                cells,
                area,
                x,
                y,
                run.text,
                (right - x) as usize,
                run.style,
            );
            print_runs(cells, area, x, y, right, seq![run] + rest) == print_runs(
                next,
                area,
                end,
                y,
                right,
                rest,
            )
        }),
        print_runs(cells, area, right, y, right, seq![run] + rest) == cells,
        print_runs(cells, area, x, y, right, seq![]) == cells,
{
    assert((seq![run] + rest).drop_first() =~= rest);
}

// ---- Numbers ----------------------------------------------------------------------

/// The number that decimal digits stand for.
pub open spec fn read_decimal(digits: Seq<char>) -> int
    decreases digits.len(),
{
    if digits.len() == 0 {
        0
    } else {
        read_decimal(digits.drop_last()) * 10 + (digits.last() as int - '0' as int)
    }
}

pub(crate) proof fn lemma_decimal_reads_back(n: nat)
    ensures
        read_decimal(decimal(n)) == n,
        decimal(n).len() >= 1,
        forall|i: int| 0 <= i < decimal(n).len() ==> '0' <= #[trigger] decimal(n)[i] <= '9',
        n > 0 ==> decimal(n)[0] != '0',
    decreases n,
{
    if n < 10 {
        assert(decimal(n).drop_last() =~= seq![]);
        assert(read_decimal(seq![]) == 0);
    } else {
        lemma_decimal_reads_back(n / 10);
        assert(decimal(n).drop_last() =~= decimal(n / 10));
        assert forall|i: int| 0 <= i < decimal(n).len() implies '0' <= #[trigger] decimal(n)[i] <= '9' by {
            if i < decimal(n).len() - 1 {
                assert(decimal(n)[i] == decimal(n / 10)[i]);
            }
        }
        assert(decimal(n)[0] == decimal(n / 10)[0]);
    }
}

/// A number is written in decimal digits that stand for it, the highest one first and without
/// zeros before it, behind a minus sign where it is negative.
pub proof fn law_numbers_are_written_in_digits(n: int)
    ensures
        ({
            let text = signed_decimal(n);
            let digits = if n < 0 {
                text.skip(1)
            } else {
                text
            };
            &&& n < 0 ==> text.len() > 1 && text[0] == '-'
            &&& digits.len() >= 1
            &&& forall|i: int| 0 <= i < digits.len() ==> '0' <= #[trigger] digits[i] <= '9'
            &&& digits[0] == '0' ==> n == 0 && digits.len() == 1
            &&& read_decimal(digits) == if n < 0 {
                -n
            } else {
                n
            }
        }),
{
    let m = (if n < 0 { -n } else { n }) as nat;
    lemma_decimal_reads_back(m);
    if n < 0 {
        assert(signed_decimal(n).skip(1) =~= decimal(m));
    }
}

} // verus!
