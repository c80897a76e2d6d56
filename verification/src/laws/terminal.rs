//! The terminal: what is asked of it and read from its answers, and how images are sent.

use vstd::prelude::*;
use vstd::utf8::encode_utf8;

use crate::buffer::{CellView, DiffOption};
use crate::geometry::CellRect;
use crate::kitty::{
    base64_char, chunk, command, command_count, image_cells, mark, placeheld, placeholder_row, placement,
    transmission, commands, KittyImage, MARKS, PLACEHOLDER,
};
use crate::probe::{
    complete, cut, decimal_bytes, doubled, filled_parts, first_font, font_in, grants_kitty,
    iterm_added, lists_sixel, number, query, questions, said, stands_at, Capabilities, FontSize,
    Protocol,
};
use crate::text::decimal;

verus! {

// ---- Answers ----------------------------------------------------------------------

/// Some bytes with a separator between each two.
pub open spec fn joined_by(parts: Seq<Seq<u8>>, separator: u8) -> Seq<u8>
    decreases parts.len(),
{
    if parts.len() == 0 {
        seq![]
    } else if parts.len() == 1 {
        parts[0]
    } else {
        joined_by(parts.drop_last(), separator).push(separator) + parts.last()
    }
}

proof fn lemma_cut_is_something(bytes: Seq<u8>, separator: u8)
    ensures
        cut(bytes, separator).len() >= 1,
    decreases bytes.len(),
{
    if bytes.len() > 0 {
        lemma_cut_is_something(bytes.drop_last(), separator);
    }
}

/// Cutting loses nothing: the parts with the separator between them are the bytes again.
pub proof fn law_parts_join(bytes: Seq<u8>, separator: u8)
    ensures
        joined_by(cut(bytes, separator), separator) == bytes,
    decreases bytes.len(),
{
    if bytes.len() > 0 {
        let head = cut(bytes.drop_last(), separator);
        law_parts_join(bytes.drop_last(), separator);
        lemma_cut_is_something(bytes.drop_last(), separator);
        let all = cut(bytes, separator);
        assert(bytes == bytes.drop_last().push(bytes.last()));
        if bytes.last() == separator {
            assert(all.drop_last() =~= head);
            assert(joined_by(all, separator) =~= bytes);
        } else {
            assert(all.drop_last() =~= head.drop_last());
            if head.len() == 1 {
                assert(joined_by(all, separator) =~= bytes);
            } else {
                assert(joined_by(all, separator) =~= joined_by(head, separator).push(bytes.last()));
            }
        }
    }
}

proof fn lemma_uncut(bytes: Seq<u8>, separator: u8)
    requires
        !bytes.contains(separator),
    ensures
        cut(bytes, separator) == seq![bytes],
    decreases bytes.len(),
{
    if bytes.len() > 0 {
        let rest = bytes.drop_last();
        assert forall|k: int| 0 <= k < rest.len() implies rest[k] != separator by {
            assert(bytes.contains(bytes[k]));
        }
        assert(bytes.contains(bytes[bytes.len() - 1]));
        lemma_uncut(rest, separator);
        assert(rest.push(bytes.last()) =~= bytes);
        assert(cut(bytes, separator)[0] == bytes);
        assert(cut(bytes, separator) =~= seq![bytes]);
    } else {
        assert(cut(bytes, separator)[0] =~= bytes);
        assert(cut(bytes, separator) =~= seq![bytes]);
    }
}

/// Bytes are cut at every separator: what two parts with one between them are cut into is what each
/// of them is.
pub proof fn law_separator_parts_bytes(first: Seq<u8>, second: Seq<u8>, separator: u8)
    ensures
        cut(first.push(separator) + second, separator) == cut(first, separator) + cut(
            second,
            separator,
        ),
    decreases second.len(),
{
    let whole = first.push(separator) + second;
    lemma_cut_is_something(first, separator);
    lemma_cut_is_something(second, separator);
    if second.len() == 0 {
        assert(whole =~= first.push(separator));
        assert(whole.drop_last() =~= first);
        assert(cut(whole, separator) =~= cut(first, separator) + cut(second, separator));
    } else {
        law_separator_parts_bytes(first, second.drop_last(), separator);
        assert(whole.drop_last() =~= first.push(separator) + second.drop_last());
        assert(whole.last() == second.last());
        lemma_cut_is_something(second.drop_last(), separator);
        assert(cut(whole, separator) =~= cut(first, separator) + cut(second, separator));
    }
}

/// The responses of an answer are its parts that are not empty, all of them and in order.
pub proof fn law_responses_keep_their_order(first: Seq<Seq<u8>>, part: Seq<u8>)
    ensures
        part.len() > 0 ==> filled_parts(first.push(part)) == filled_parts(first).push(part),
        part.len() == 0 ==> filled_parts(first.push(part)) == filled_parts(first),
        filled_parts(seq![]) == Seq::<Seq<u8>>::empty(),
{
    assert(first.push(part).drop_last() =~= first);
}

proof fn lemma_digits_hold_no_semicolon(n: nat)
    ensures
        !decimal_bytes(n).contains(0x3bu8),
{
    let bytes = decimal_bytes(n);
    crate::laws::text::lemma_decimal_reads_back(n);
    assert forall|k: int| 0 <= k < bytes.len() implies bytes[k] != 0x3bu8 by {
        assert('0' <= decimal(n)[k] <= '9');
        assert(bytes[k] == decimal(n)[k] as u8);
    }
}

/// A terminal that reports its cell size as two numbers, the height before the width, is understood
/// so; sizes without extent are passed over.
pub proof fn law_cell_size_is_read(height: u16, width: u16)
    ensures
        ({
            let body = decimal_bytes(height as nat).push(0x3bu8) + decimal_bytes(width as nat);
            let response = (encode_utf8("[6;"@) + body).push(0x74u8);
            &&& width > 0 && height > 0 ==> font_in(response) == Some(FontSize { width, height })
            &&& width == 0 || height == 0 ==> font_in(response) is None
        }),
{
    let head = encode_utf8("[6;"@);
    let body = decimal_bytes(height as nat).push(0x3bu8) + decimal_bytes(width as nat);
    let response = (head + body).push(0x74u8);
    reveal_strlit("[6;");
    vstd::utf8::is_ascii_chars_encode_utf8("[6;"@);
    assert(head.len() == 3);
    assert(response.subrange(3, response.len() - 1) =~= body);
    lemma_digits_hold_no_semicolon(height as nat);
    lemma_digits_hold_no_semicolon(width as nat);
    lemma_uncut(decimal_bytes(height as nat), 0x3bu8);
    lemma_uncut(decimal_bytes(width as nat), 0x3bu8);
    law_separator_parts_bytes(decimal_bytes(height as nat), decimal_bytes(width as nat), 0x3bu8);
    assert(cut(body, 0x3bu8) =~= seq![decimal_bytes(height as nat), decimal_bytes(width as nat)]);
    crate::probe::law_numbers_read_back(height);
    crate::probe::law_numbers_read_back(width);
    assert forall|k: int| 0 <= k < head.len() implies #[trigger] response[0 + k] == head[k] by {}
    assert(stands_at(response, head, 0));
}

/// A terminal that lists attribute 4 anywhere among its attributes has Sixel graphics.
pub proof fn law_sixel_is_found_among_attributes(before: Seq<u8>, behind: Seq<u8>)
    ensures
        ({
            let list = before.push(0x3bu8).push(0x34u8).push(0x3bu8) + behind;
            lists_sixel((encode_utf8("[?"@) + list).push(0x63u8))
        }),
{
    let head = encode_utf8("[?"@);
    let list = before.push(0x3bu8).push(0x34u8).push(0x3bu8) + behind;
    let response = (head + list).push(0x63u8);
    reveal_strlit("[?");
    vstd::utf8::is_ascii_chars_encode_utf8("[?"@);
    assert(head.len() == 2);
    assert(response.subrange(2, response.len() - 1) =~= list);
    let four = seq![0x34u8];
    let first = before.push(0x3bu8) + four;
    assert(list =~= first.push(0x3bu8) + behind);
    law_separator_parts_bytes(first, behind, 0x3bu8);
    law_separator_parts_bytes(before, four, 0x3bu8);
    lemma_uncut(four, 0x3bu8);
    lemma_cut_is_something(before, 0x3bu8);
    let parts = cut(list, 0x3bu8);
    let at = cut(before, 0x3bu8).len() as int;
    assert(parts[at] == four);
    assert(parts.contains(four));
    assert forall|k: int| 0 <= k < head.len() implies #[trigger] response[0 + k] == head[k] by {}
    assert(stands_at(response, head, 0));
}

/// Only the attributes of the terminal tell of Sixel, and only with attribute 4 among them; only a
/// report of the cell size tells the cell size; and only the reply to the question after images
/// grants these, where it says so.
pub proof fn law_other_responses_say_nothing(response: Seq<u8>)
    ensures
        lists_sixel(response) ==> {
            &&& response.len() >= 4
            &&& response[0] == 0x5b && response[1] == 0x3f
            &&& response.last() == 0x63
            &&& response.contains(0x34u8)
        },
        font_in(response) is Some ==> {
            &&& response.len() >= 4
            &&& response[0] == 0x5b && response[1] == 0x36 && response[2] == 0x3b
            &&& response.last() == 0x74
        },
        grants_kitty(response) <==> response.len() >= 9 && response.take(9) == seq![
            0x5fu8,
            0x47u8,
            0x69u8,
            0x3du8,
            0x33u8,
            0x31u8,
            0x3bu8,
            0x4fu8,
            0x4bu8,
        ],
{
    let list = encode_utf8("[?"@);
    let size = encode_utf8("[6;"@);
    let granted = encode_utf8("_Gi=31;OK"@);
    reveal_strlit("[?");
    reveal_strlit("[6;");
    reveal_strlit("_Gi=31;OK");
    vstd::utf8::is_ascii_chars_encode_utf8("[?"@);
    vstd::utf8::is_ascii_chars_encode_utf8("[6;"@);
    vstd::utf8::is_ascii_chars_encode_utf8("_Gi=31;OK"@);
    if lists_sixel(response) {
        assert(response[0int + 0] == list[0] && response[0int + 1] == list[1]);
        let inner = response.subrange(2, response.len() - 1);
        let parts = cut(inner, 0x3bu8);
        let at = choose|k: int| 0 <= k < parts.len() && parts[k] == seq![0x34u8];
        lemma_parts_are_pieces(inner, 0x3bu8, at, 0);
        let k = choose|k: int| 0 <= k < inner.len() && inner[k] == 0x34u8;
        assert(response[2 + k] == 0x34u8);
    }
    if font_in(response) is Some {
        assert(response[0int + 0] == size[0] && response[0int + 1] == size[1] && response[0int + 2] == size[2]);
    }
    let said = seq![0x5fu8, 0x47u8, 0x69u8, 0x3du8, 0x33u8, 0x31u8, 0x3bu8, 0x4fu8, 0x4bu8];
    assert(granted =~= said);
    if grants_kitty(response) {
        assert forall|k: int| 0 <= k < 9 implies #[trigger] response.take(9)[k] == said[k] by {
            assert(response[0 + k] == granted[k]);
        }
        assert(response.take(9) =~= said);
    }
    if response.len() >= 9 && response.take(9) == said {
        assert forall|k: int| 0 <= k < granted.len() implies #[trigger] response[0 + k] == granted[k] by {
            assert(response.take(9)[k] == said[k]);
        }
        assert(stands_at(response, granted, 0));
    }
}

proof fn lemma_parts_are_pieces(bytes: Seq<u8>, separator: u8, at: int, i: int)
    requires
        0 <= at < cut(bytes, separator).len(),
        0 <= i < cut(bytes, separator)[at].len(),
    ensures
        exists|k: int| 0 <= k < bytes.len() && bytes[k] == cut(bytes, separator)[at][i],
    decreases bytes.len(),
{
    if bytes.len() > 0 {
        let short = bytes.drop_last();
        let head = cut(short, separator);
        lemma_cut_is_something(short, separator);
        let found = cut(bytes, separator)[at][i];
        if bytes.last() == separator {
            assert(at < head.len());
            lemma_parts_are_pieces(short, separator, at, i);
            let k = choose|k: int| 0 <= k < short.len() && short[k] == found;
            assert(bytes[k] == found);
        } else if at == head.len() - 1 && i == head.last().len() {
            assert(bytes[bytes.len() - 1] == found);
        } else {
            lemma_parts_are_pieces(short, separator, at, i);
            let k = choose|k: int| 0 <= k < short.len() && short[k] == found;
            assert(bytes[k] == found);
        }
    }
}

/// The Kitty protocol is preferred to Sixel, wherever in the answer either is granted; without
/// either there is none.
pub proof fn law_kitty_is_preferred(all: Seq<Seq<u8>>, i: int)
    requires
        0 <= i < all.len(),
    ensures
        grants_kitty(all[i]) ==> said(all).protocol == Some(Protocol::Kitty),
        lists_sixel(all[i]) ==> said(all).protocol == Some(Protocol::Sixel) || said(all).protocol
            == Some(Protocol::Kitty),
        said(all).protocol == Some(Protocol::Kitty) ==> exists|k: int|
            0 <= k < all.len() && grants_kitty(#[trigger] all[k]),
        said(all).protocol == Some(Protocol::Sixel) ==> exists|k: int|
            0 <= k < all.len() && lists_sixel(#[trigger] all[k]),
        said(all).protocol != Some(Protocol::Iterm2),
{
}

proof fn lemma_first_font(all: Seq<Seq<u8>>, n: nat, i: int)
    requires
        0 <= i < n <= all.len(),
        font_in(all[i]) is Some,
        forall|k: int| 0 <= k < i ==> font_in(#[trigger] all[k]) is None,
    ensures
        first_font(all, n) == font_in(all[i]),
    decreases n,
{
    if i < n - 1 {
        lemma_first_font(all, (n - 1) as nat, i);
    } else {
        lemma_no_font(all, (n - 1) as nat);
    }
}

proof fn lemma_no_font(all: Seq<Seq<u8>>, n: nat)
    requires
        n <= all.len(),
        forall|k: int| 0 <= k < n ==> font_in(#[trigger] all[k]) is None,
    ensures
        first_font(all, n) is None,
    decreases n,
{
    if n > 0 {
        lemma_no_font(all, (n - 1) as nat);
        assert(font_in(all[n - 1]) is None);
    }
}

/// The cell size is the first one that the answer reports.
pub proof fn law_first_cell_size_counts(all: Seq<Seq<u8>>, i: int)
    requires
        0 <= i < all.len(),
        font_in(all[i]) is Some,
        forall|k: int| 0 <= k < i ==> font_in(#[trigger] all[k]) is None,
    ensures
        said(all).font == font_in(all[i]),
{
    lemma_first_font(all, all.len(), i);
}

/// An answer is complete as soon as the status report has arrived, whatever comes before and after.
pub proof fn law_answer_ends_with_the_report(before: Seq<u8>, behind: Seq<u8>)
    ensures
        complete(before + encode_utf8("\x1b[0n"@) + behind),
{
    let report = encode_utf8("\x1b[0n"@);
    let text = before + report + behind;
    let at = before.len() as int;
    assert forall|k: int| 0 <= k < report.len() implies #[trigger] text[at + k] == report[k] by {}
    assert(stands_at(text, report, at));
}

/// A text of which every escape character stands twice, with one of each two taken away.
pub open spec fn halved(text: Seq<char>) -> Seq<char>
    decreases text.len(),
{
    if text.len() == 0 {
        seq![]
    } else if text[0] == '\x1b' && text.len() > 1 && text[1] == '\x1b' {
        seq!['\x1b'] + halved(text.skip(2))
    } else {
        seq![text[0]] + halved(text.skip(1))
    }
}

proof fn lemma_doubled_front(c: char, text: Seq<char>)
    ensures
        doubled(seq![c] + text) == (if c == '\x1b' {
            seq![c, c]
        } else {
            seq![c]
        }) + doubled(text),
    decreases text.len(),
{
    let all = seq![c] + text;
    let front = if c == '\x1b' { seq![c, c] } else { seq![c] };
    if text.len() == 0 {
        assert(all.drop_last() =~= seq![]);
        assert(doubled(all.drop_last()) =~= seq![]);
        assert(doubled(all) =~= front + doubled(text));
    } else {
        lemma_doubled_front(c, text.drop_last());
        assert(all.drop_last() =~= seq![c] + text.drop_last());
        assert(all.last() == text.last());
        assert(doubled(all) =~= front + doubled(text));
    }
}

/// A multiplexer hands on what is asked: taking the doubled escapes apart again gives the questions,
/// which are asked as they are where there is none.
pub proof fn law_multiplexer_hands_the_questions_on(text: Seq<char>)
    ensures
        halved(doubled(text)) == text,
        query(false) == questions(),
        query(true) == "\x1bPtmux;"@ + doubled(questions()) + "\x1b\\"@,
    decreases text.len(),
{
    if text.len() > 0 {
        let rest = text.drop_first();
        law_multiplexer_hands_the_questions_on(rest);
        assert(seq![text[0]] + rest =~= text);
        lemma_doubled_front(text[0], rest);
        let all = doubled(text);
        if text[0] == '\x1b' {
            assert(all.skip(2) =~= doubled(rest));
        } else {
            assert(all.skip(1) =~= doubled(rest));
        }
        assert(halved(all) =~= text);
    }
}

// ---- Images -----------------------------------------------------------------------

/// The data of an image is cut into as few commands as it takes, each with 3072 bytes of it but the
/// last one, and every byte is in one of them.
pub proof fn law_image_is_cut_into_chunks(data: Seq<u8>, i: int)
    requires
        0 <= i < command_count(data.len()),
    ensures
        ({
            let n = command_count(data.len()) as int;
            &&& (n - 1) * 3072 < data.len() <= n * 3072
            &&& i < n - 1 ==> chunk(data, i) == data.subrange(i * 3072, (i + 1) * 3072)
            &&& i == n - 1 ==> chunk(data, i) == data.skip(i * 3072)
        }),
{
    let n = command_count(data.len()) as int;
    if i == n - 1 {
        assert(chunk(data, i) =~= data.skip(i * 3072));
    }
}

/// Every command is one of the graphics protocol and names the image; the first one also says what
/// is to be done and how large the pixels are, and every one but the last says that more follows.
pub proof fn law_commands_say_what_they_carry(
    image: KittyImage,
    action: Seq<char>,
    data: Seq<u8>,
    i: int,
)
    requires
        0 <= i < command_count(data.len()),
    ensures
        ({
            let first = action + ",s="@ + decimal(image.width as nat) + ",v="@ + decimal(
                image.height as nat,
            ) + ","@;
            let about = if i == 0 {
                first
            } else {
                seq![]
            };
            let more = if i == command_count(data.len()) - 1 {
                "m=0;"@
            } else {
                "m=1;"@
            };
            command(image, action, data, i) == "\x1b_Gq=2,o=z,f=32,t=d,i="@ + decimal(
                image.id as nat,
            ) + ","@ + about + more + crate::kitty::base64(chunk(data, i)) + "\x1b\\"@
        }),
        ({
            let n = command_count(data.len());
            &&& commands(image, action, data, 0) == Seq::<char>::empty()
            &&& commands(image, action, data, (i + 1) as nat) == commands(
                image,
                action,
                data,
                i as nat,
            ) + command(image, action, data, i)
            &&& transmission(image, action, data) == commands(image, action, data, n)
        }),
{
    let start = "\x1b_Gq=2,o=z,f=32,t=d,i="@ + decimal(image.id as nat) + ","@;
    let none = Seq::<char>::empty();
    assert(start + none =~= start);
    if i == 0 {
        let first = action + ",s="@ + decimal(image.width as nat) + ",v="@ + decimal(
            image.height as nat,
        ) + ","@;
        assert(start + first =~= start + action + ",s="@ + decimal(image.width as nat) + ",v="@
            + decimal(image.height as nat) + ","@);
    }
}

/// An image is transmitted and placed in one command, on as many columns and rows as it is given.
pub proof fn law_placement_names_columns_and_rows(cols: u16, rows: u16)
    ensures
        placement(cols, rows) == "a=T,U=1,c="@ + decimal(cols as nat) + ",r="@ + decimal(rows as nat),
{
}

/// The cells that an image takes are those of its area, as many columns and rows as the image has,
/// from the top left on, and no more rows than there are marks for.
pub proof fn law_image_takes_its_cells(cell_width: u16, cell_height: u16, area: CellRect, skipped: u16)
    ensures
        ({
            let cells = image_cells(cell_width, cell_height, area, skipped);
            &&& cells.x == area.x && cells.y == area.y
            &&& cells.width <= cell_width && cells.width <= area.width
            &&& cells.width == cell_width || cells.width == area.width
            &&& cells.height <= cell_height && cells.height <= area.height
            &&& cells.height > 0 ==> cells.height + skipped <= 297
            &&& cells.height == cell_height || cells.height == area.height || cells.height + skipped
                == 297 || (skipped >= 297 && cells.height == 0)
        }),
{
}

/// The first cell of every row of an image holds the whole row, and counts as one column; the cells
/// behind it are left to it, and all other cells stay. The row is marked with its number in the
/// image, counted from what is scrolled off.
pub proof fn law_rows_of_an_image_are_held_by_their_first_cell(
    cell: CellView,
    x: int,
    y: int,
    image: KittyImage,
    shown: CellRect,
    area: CellRect,
    skipped: u16,
)
    ensures
        ({
            let after = placeheld(cell, x, y, image, shown, area, skipped);
            &&& !shown.covers(x, y) ==> after == cell
            &&& shown.covers(x, y) && x > shown.x ==> after == (CellView {
                diff: DiffOption::Skip,
                ..cell
            })
            &&& shown.covers(x, y) && x == shown.x ==> {
                &&& after.diff == DiffOption::ForcedWidth(1)
                &&& after.fg == cell.fg && after.bg == cell.bg && after.modifiers == cell.modifiers
                &&& after.symbol == placeholder_row(
                    image,
                    shown.width as int,
                    area,
                    skipped + (y - shown.y),
                )
            }
        }),
{
}

/// A row of an image names the image by its color, three bytes of the id from the highest to the
/// lowest, and by a mark for the fourth; it has one placeholder for each column, of which the first
/// is marked with the row and the first column.
pub proof fn law_placeholders_name_their_image(
    image: KittyImage,
    width: int,
    area: CellRect,
    row: int,
    bytes: (nat, nat, nat, nat),
)
    requires
        1 <= width,
        1 <= area.width,
        1 <= area.height,
        0 <= row < 297,
        bytes.0 < 256,
        bytes.1 < 256,
        bytes.2 < 256,
        bytes.3 < 256,
        image.id == ((bytes.0 * 256 + bytes.1) * 256 + bytes.2) * 256 + bytes.3,
    ensures
        placeholder_row(image, width, area, row) == "\x1b[s\x1b[38;2;"@ + decimal(bytes.1) + ";"@
            + decimal(bytes.2) + ";"@ + decimal(bytes.3) + "m"@ + seq![
            '\u{10EEEE}',
            MARKS[row],
            MARKS[0],
            MARKS[bytes.0 as int],
        ] + Seq::new((width - 1) as nat, |i: int| '\u{10EEEE}') + "\x1b[u\x1b["@ + decimal(
            (area.width - 1) as nat,
        ) + "C\x1b["@ + decimal((area.height - 1) as nat) + "B"@,
{
    assert(image.id / 65536 % 256 == bytes.1);
    assert(image.id / 256 % 256 == bytes.2);
    assert(image.id % 256 == bytes.3);
    assert(image.id / 16777216 == bytes.0);
    let tail = Seq::new((width - 1) as nat, |i: int| '\u{10EEEE}');
    assert(crate::text::repeated(PLACEHOLDER, (width - 1) as nat) =~= tail);
}

/// A terminal that says nothing of images but how large its cells are is taken at the host's word;
/// what it said itself stands.
pub proof fn law_host_fills_in_what_was_not_said(found: Capabilities, iterm: bool)
    ensures
        ({
            let after = iterm_added(found, iterm);
            &&& after.font == found.font
            &&& found.protocol is Some || found.font is None || !iterm ==> after.protocol
                == found.protocol
            &&& found.protocol is None && found.font is Some && iterm ==> after.protocol == Some(
                Protocol::Iterm2,
            )
        }),
{
}

/// Keys with their values, as a command lists them.
pub open spec fn key_list(keys: Seq<(char, Seq<char>)>) -> Seq<char>
    decreases keys.len(),
{
    if keys.len() == 0 {
        seq![]
    } else {
        let (key, value) = keys.last();
        (if keys.len() > 1 {
            key_list(keys.drop_last()).push(',')
        } else {
            seq![]
        }) + seq![key, '='] + value
    }
}

/// A command without data.
pub open spec fn bare_command(keys: Seq<(char, Seq<char>)>) -> Seq<char> {
    seq!['\x1b', '_', 'G'] + key_list(keys) + seq![';', '\x1b', '\\']
}

proof fn lemma_key_list(keys: Seq<(char, Seq<char>)>, key: char, value: Seq<char>)
    ensures
        key_list(keys.push((key, value))) == (if keys.len() > 0 {
            key_list(keys).push(',')
        } else {
            seq![]
        }) + seq![key, '='] + value,
{
    assert(keys.push((key, value)).drop_last() =~= keys);
}

/// A new placement of an image names it, the columns and the rows; the pixels are not sent with it.
#[verifier::rlimit(50)]
pub proof fn law_new_placement_names_its_image(image: KittyImage, cols: u16, rows: u16)
    ensures
        image.moving(cols, rows) == bare_command(
            seq![
                ('q', seq!['2']),
                ('a', seq!['p']),
                ('U', seq!['1']),
                ('i', decimal(image.id as nat)),
                ('c', decimal(cols as nat)),
                ('r', decimal(rows as nat)),
            ],
        ),
{
    let none: Seq<(char, Seq<char>)> = seq![];
    let id = decimal(image.id as nat);
    let c = decimal(cols as nat);
    let r = decimal(rows as nat);
    let a1 = none.push(('q', seq!['2']));
    let a2 = a1.push(('a', seq!['p']));
    let a3 = a2.push(('U', seq!['1']));
    let a4 = a3.push(('i', id));
    let a5 = a4.push(('c', c));
    let a6 = a5.push(('r', r));
    let start = seq!['\x1b', '_', 'G'];
    assert("\x1b_Gq=2,a=p,U=1,i="@ =~= start + key_list(a3) + seq![',', 'i', '=']) by {
        reveal_strlit("\x1b_Gq=2,a=p,U=1,i=");
        lemma_key_list(none, 'q', seq!['2']);
        lemma_key_list(a1, 'a', seq!['p']);
        lemma_key_list(a2, 'U', seq!['1']);
        assert(key_list(a3) =~= seq!['q', '=', '2', ',', 'a', '=', 'p', ',', 'U', '=', '1']);
    }
    assert("\x1b_Gq=2,a=p,U=1,i="@ + id =~= start + key_list(a4)) by {
        lemma_key_list(a3, 'i', id);
    }
    assert("\x1b_Gq=2,a=p,U=1,i="@ + id + ",c="@ + c =~= start + key_list(a5)) by {
        reveal_strlit(",c=");
        lemma_key_list(a4, 'c', c);
        assert(start + key_list(a5) =~= (start + key_list(a4)) + seq![',', 'c', '='] + c);
    }
    assert("\x1b_Gq=2,a=p,U=1,i="@ + id + ",c="@ + c + ",r="@ + r =~= start + key_list(a6)) by {
        reveal_strlit(",r=");
        lemma_key_list(a5, 'r', r);
        assert(start + key_list(a6) =~= (start + key_list(a5)) + seq![',', 'r', '='] + r);
    }
    assert(";\x1b\\"@ =~= seq![';', '\x1b', '\\']) by {
        reveal_strlit(";\x1b\\");
    }
    assert(a6 =~= seq![
        ('q', seq!['2']),
        ('a', seq!['p']),
        ('U', seq!['1']),
        ('i', id),
        ('c', c),
        ('r', r),
    ]);
}

/// To delete an image its name is enough, and takes its placements with it.
pub proof fn law_deletion_names_its_image(image: KittyImage)
    ensures
        image.deletion() == bare_command(
            seq![('a', seq!['d']), ('d', seq!['I']), ('i', decimal(image.id as nat))],
        ),
{
    let none: Seq<(char, Seq<char>)> = seq![];
    let id = decimal(image.id as nat);
    let d1 = none.push(('a', seq!['d']));
    let d2 = d1.push(('d', seq!['I']));
    let d3 = d2.push(('i', id));
    let start = seq!['\x1b', '_', 'G'];
    assert("\x1b_Ga=d,d=I,i="@ =~= start + key_list(d2) + seq![',', 'i', '=']) by {
        reveal_strlit("\x1b_Ga=d,d=I,i=");
        lemma_key_list(none, 'a', seq!['d']);
        lemma_key_list(d1, 'd', seq!['I']);
        assert(key_list(d2) =~= seq!['a', '=', 'd', ',', 'd', '=', 'I']);
    }
    assert("\x1b_Ga=d,d=I,i="@ + id =~= start + key_list(d3)) by {
        lemma_key_list(d2, 'i', id);
    }
    assert(";\x1b\\"@ =~= seq![';', '\x1b', '\\']) by {
        reveal_strlit(";\x1b\\");
    }
    assert(d3 =~= seq![('a', seq!['d']), ('d', seq!['I']), ('i', id)]);
}

/// Six bits are written as one character: capitals first, then small letters, then digits, then a
/// plus and a slash.
pub proof fn law_bits_have_their_characters(bits: int)
    ensures
        0 <= bits < 26 ==> base64_char(bits) as int == 'A' as int + bits,
        26 <= bits < 52 ==> base64_char(bits) as int == 'a' as int + bits - 26,
        52 <= bits < 62 ==> base64_char(bits) as int == '0' as int + bits - 52,
        base64_char(62) == '+',
        base64_char(63) == '/',
{
}

} // verus!
