//! Asking the terminal what it can do: the query, the end of the answer, and what the
//! answer says.

use vstd::prelude::*;
use vstd::utf8::encode_utf8;

use crate::text::{append_char, bytes_of, chars_of, decimal};

verus! {

/// The escape character, with which every sequence starts.
pub const ESC: u8 = 0x1b;

/// What separates parameters.
pub const SEMICOLON: u8 = 0x3b;

/// A graphics protocol. Kitty and Sixel announce themselves in an answer; a host may
/// know of the third one by other means.
#[derive(Clone, Copy, Debug, PartialEq, Eq, Structural)]
pub enum Protocol {
    Kitty,
    Sixel,
    Iterm2,
}

/// The size of a cell in pixels.
#[derive(Clone, Copy, Debug, PartialEq, Eq, Structural)]
pub struct FontSize {
    pub width: u16,
    pub height: u16,
}

/// What a terminal says of itself.
#[derive(Clone, Copy, Debug, PartialEq, Eq, Structural)]
pub struct Capabilities {
    /// The graphics protocol, where it announces one.
    pub protocol: Option<Protocol>,
    /// The cell size, where it reports one.
    pub font: Option<FontSize>,
}

// ---- The query --------------------------------------------------------------------

/// A graphics probe, the device attributes, the cell size, and a status report that every
/// terminal answers.
pub open spec fn questions() -> Seq<char> {
    "\x1b_Gi=31,s=1,v=1,a=q,t=d,f=24;AAAA\x1b\\\x1b[c\x1b[16t\x1b[5n"@
}

/// A text with every escape character doubled.
pub open spec fn doubled(text: Seq<char>) -> Seq<char>
    decreases text.len(),
{
    if text.len() == 0 {
        seq![]
    } else if text.last() == '\x1b' {
        doubled(text.drop_last()).push('\x1b').push('\x1b')
    } else {
        doubled(text.drop_last()).push(text.last())
    }
}

/// What is written to the terminal. A multiplexer answers queries itself, unless they
/// are wrapped in its passthrough form.
pub open spec fn query(multiplexed: bool) -> Seq<char> {
    if multiplexed {
        "\x1bPtmux;"@ + doubled(questions()) + "\x1b\\"@
    } else {
        questions()
    }
}

fn append_doubled(out: &mut String, text: &str)
    ensures
        final(out)@ == old(out)@ + doubled(text@),
{
    let chars = chars_of(text);
    let mut i: usize = 0;
    assert(out@ =~= old(out)@ + doubled(chars@.take(0)));
    while i < chars.len()
        invariant
            i <= chars@.len(),
            out@ == old(out)@ + doubled(chars@.take(i as int)),
        decreases chars@.len() - i,
    {
        assert(chars@.take(i + 1).drop_last() =~= chars@.take(i as int));
        append_char(out, chars[i]);
        if chars[i] == '\x1b' {
            append_char(out, chars[i]);
        }
        i += 1;
        assert(out@ =~= old(out)@ + doubled(chars@.take(i as int)));
    }
    assert(chars@.take(i as int) =~= chars@);
}

/// The bytes of the query.
pub fn query_bytes(multiplexed: bool) -> (r: Vec<u8>)
    ensures
        r@ == encode_utf8(query(multiplexed)),
{
    let mut out = String::new();
    let text = "\x1b_Gi=31,s=1,v=1,a=q,t=d,f=24;AAAA\x1b\\\x1b[c\x1b[16t\x1b[5n";
    if multiplexed {
        out.append("\x1bPtmux;");
        append_doubled(&mut out, text);
        out.append("\x1b\\");
    } else {
        out.append(text);
    }
    assert(out@ =~= query(multiplexed));
    bytes_of(out.as_str())
}

// ---- The answer -------------------------------------------------------------------

/// Whether some bytes stand at a position.
pub open spec fn stands_at(text: Seq<u8>, part: Seq<u8>, at: int) -> bool {
    &&& 0 <= at
    &&& at + part.len() <= text.len()
    &&& forall|k: int| 0 <= k < part.len() ==> #[trigger] text[at + k] == part[k]
}

fn found_at(text: &Vec<u8>, part: &Vec<u8>, at: usize) -> (r: bool)
    ensures
        r == stands_at(text@, part@, at as int),
{
    if part.len() > text.len() || at > text.len() - part.len() {
        return false;
    }
    let mut k: usize = 0;
    while k < part.len()
        invariant
            k <= part@.len(),
            at + part@.len() <= text.len(),
            forall|j: int| 0 <= j < k ==> #[trigger] text@[at + j] == part@[j],
        decreases part@.len() - k,
    {
        if text[at + k] != part[k] {
            assert(text@[at + k] != part@[k as int]);
            return false;
        }
        k += 1;
    }
    true
}

/// Whether the answer to the status report, the last one, has arrived.
pub open spec fn complete(received: Seq<u8>) -> bool {
    exists|at: int| stands_at(received, encode_utf8("\x1b[0n"@), at)
}

/// Whether everything that will be answered has arrived.
pub fn is_complete(received: &Vec<u8>) -> (r: bool)
    ensures
        r == complete(received@),
{
    let end = bytes_of("\x1b[0n");
    let mut at: usize = 0;
    while at < received.len()
        invariant
            at <= received@.len(),
            end@ == encode_utf8("\x1b[0n"@),
            forall|k: int| 0 <= k < at ==> !stands_at(received@, end@, k),
        decreases received@.len() - at,
    {
        if found_at(received, &end, at) {
            assert(stands_at(received@, end@, at as int));
            return true;
        }
        at += 1;
    }
    found_at(received, &end, at)
}

/// Bytes cut at a separator.
pub open spec fn cut(bytes: Seq<u8>, separator: u8) -> Seq<Seq<u8>>
    decreases bytes.len(),
{
    if bytes.len() == 0 {
        seq![seq![]]
    } else {
        let head = cut(bytes.drop_last(), separator);
        if bytes.last() == separator {
            head.push(seq![])
        } else {
            head.drop_last().push(head.last().push(bytes.last()))
        }
    }
}

/// The values of a list of byte strings.
pub open spec fn parts_view(parts: Seq<Vec<u8>>) -> Seq<Seq<u8>> {
    parts.map_values(|p: Vec<u8>| p@)
}

/// Cuts bytes at a separator.
pub fn cut_at(bytes: &Vec<u8>, separator: u8) -> (r: Vec<Vec<u8>>)
    ensures
        parts_view(r@) == cut(bytes@, separator),
        r@.len() >= 1,
{
    let mut out: Vec<Vec<u8>> = Vec::new();
    let mut last: Vec<u8> = Vec::new();
    let mut i: usize = 0;
    assert(parts_view(out@).push(last@) =~= cut(bytes@.take(0), separator));
    while i < bytes.len()
        invariant
            i <= bytes@.len(),
            parts_view(out@).push(last@) == cut(bytes@.take(i as int), separator),
        decreases bytes@.len() - i,
    {
        let ghost head = cut(bytes@.take(i as int), separator);
        let ghost before = parts_view(out@);
        assert(bytes@.take(i + 1).drop_last() =~= bytes@.take(i as int));
        assert(head.drop_last() =~= before);
        assert(head.last() == last@);
        if bytes[i] == separator {
            let mut full: Vec<u8> = Vec::new();
            std::mem::swap(&mut full, &mut last);
            out.push(full);
            assert(parts_view(out@) =~= before.push(head.last()));
            assert(parts_view(out@).push(last@) =~= head.push(seq![]));
        } else {
            last.push(bytes[i]);
        }
        i += 1;
    }
    assert(bytes@.take(i as int) =~= bytes@);
    let ghost before = parts_view(out@);
    let ghost end = last@;
    out.push(last);
    assert(parts_view(out@) =~= before.push(end));
    out
}

/// The parts of a list that are not empty.
pub open spec fn filled_parts(parts: Seq<Seq<u8>>) -> Seq<Seq<u8>>
    decreases parts.len(),
{
    if parts.len() == 0 {
        seq![]
    } else if parts.last().len() > 0 {
        filled_parts(parts.drop_last()).push(parts.last())
    } else {
        filled_parts(parts.drop_last())
    }
}

/// The sequences of an answer, without their escape characters.
pub fn responses(received: &Vec<u8>) -> (r: Vec<Vec<u8>>)
    ensures
        parts_view(r@) == filled_parts(cut(received@, ESC)),
{
    let mut parts = cut_at(received, ESC);
    let ghost all = parts_view(parts@);
    let mut out: Vec<Vec<u8>> = Vec::new();
    let mut i: usize = 0;
    assert(parts_view(out@) =~= filled_parts(all.take(0)));
    while i < parts.len()
        invariant
            i <= parts@.len(),
            all.len() == parts@.len(),
            forall|k: int| i <= k < parts@.len() ==> (#[trigger] parts@[k])@ == all[k],
            parts_view(out@) == filled_parts(all.take(i as int)),
        decreases parts@.len() - i,
    {
        assert(all.take(i + 1).drop_last() =~= all.take(i as int));
        let mut part: Vec<u8> = Vec::new();
        std::mem::swap(&mut part, &mut parts[i]);
        assert(part@ == all[i as int]);
        if part.len() > 0 {
            let ghost before = parts_view(out@);
            out.push(part);
            assert(parts_view(out@) =~= before.push(all[i as int]));
        }
        i += 1;
    }
    assert(all.take(i as int) =~= all);
    out
}

// ---- What it says -----------------------------------------------------------------

/// Whether a response grants the graphics probe.
pub open spec fn grants_kitty(response: Seq<u8>) -> bool {
    stands_at(response, encode_utf8("_Gi=31;OK"@), 0)
}

/// Whether a response lists the device attribute of Sixel graphics, which is 4.
pub open spec fn lists_sixel(response: Seq<u8>) -> bool {
    &&& stands_at(response, encode_utf8("[?"@), 0)
    &&& response.len() > 2
    &&& response.last() == 0x63
    &&& cut(response.subrange(2, response.len() - 1), SEMICOLON).contains(seq![0x34u8])
}

/// The value of decimal digits.
pub open spec fn digits_value(digits: Seq<u8>) -> nat
    decreases digits.len(),
{
    if digits.len() == 0 {
        0
    } else {
        digits_value(digits.drop_last()) * 10 + (digits.last() - 48) as nat
    }
}

/// Whether a byte is a decimal digit.
pub open spec fn is_digit(b: u8) -> bool {
    48 <= b <= 57
}

/// Whether all bytes are decimal digits.
pub open spec fn all_digits(bytes: Seq<u8>) -> bool {
    forall|i: int| 0 <= i < bytes.len() ==> is_digit(#[trigger] bytes[i])
}

/// The number that bytes stand for: decimal digits, with a plus sign before them or not.
pub open spec fn number(bytes: Seq<u8>) -> Option<u16> {
    let digits = if bytes.len() > 0 && bytes[0] == 0x2b { bytes.skip(1) } else { bytes };
    if digits.len() > 0 && all_digits(digits) && digits_value(digits) <= u16::MAX {
        Some(digits_value(digits) as u16)
    } else {
        None
    }
}

proof fn lemma_digits_grow(digits: Seq<u8>, n: int)
    requires
        0 <= n <= digits.len(),
        all_digits(digits),
    ensures
        digits_value(digits.take(n)) <= digits_value(digits),
    decreases digits.len(),
{
    if n < digits.len() {
        lemma_digits_grow(digits.drop_last(), n);
        assert(digits.drop_last().take(n) =~= digits.take(n));
    } else {
        assert(digits.take(n) =~= digits);
    }
}

/// Reads a number.
pub fn parse_number(bytes: &Vec<u8>) -> (r: Option<u16>)
    ensures
        r == number(bytes@),
{
    let start: usize = if bytes.len() > 0 && bytes[0] == 0x2b { 1 } else { 0 };
    let ghost digits = if bytes@.len() > 0 && bytes@[0] == 0x2b { bytes@.skip(1) } else { bytes@ };
    assert(digits =~= bytes@.skip(start as int));
    if start == bytes.len() {
        return None;
    }
    let mut i: usize = start;
    while i < bytes.len()
        invariant
            start <= i <= bytes@.len(),
            start < bytes@.len(),
            digits == bytes@.skip(start as int),
            digits == if bytes@.len() > 0 && bytes@[0] == 0x2b { bytes@.skip(1) } else { bytes@ },
            forall|k: int| 0 <= k < i - start ==> is_digit(#[trigger] digits[k]),
        decreases bytes@.len() - i,
    {
        if bytes[i] < 48 || bytes[i] > 57 {
            assert(!is_digit(digits[i - start]));
            return None;
        }
        i += 1;
    }
    let mut value: u32 = 0;
    i = start;
    assert(digits.take(0) =~= Seq::<u8>::empty());
    while i < bytes.len()
        invariant
            start <= i <= bytes@.len(),
            start < bytes@.len(),
            digits == bytes@.skip(start as int),
            digits == if bytes@.len() > 0 && bytes@[0] == 0x2b { bytes@.skip(1) } else { bytes@ },
            all_digits(digits),
            value == digits_value(digits.take(i - start)),
            value <= u16::MAX,
        decreases bytes@.len() - i,
    {
        proof {
            assert(digits.take(i + 1 - start).drop_last() =~= digits.take(i - start));
            assert(digits.take(i + 1 - start).last() == bytes@[i as int]);
            assert(is_digit(digits[i - start]));
            lemma_digits_grow(digits, i + 1 - start);
        }
        value = value * 10 + (bytes[i] as u32 - 48);
        if value > u16::MAX as u32 {
            return None;
        }
        i += 1;
    }
    assert(digits.take(i - start) =~= digits);
    Some(value as u16)
}

/// The cell size that a response reports: height first, both positive.
pub open spec fn font_in(response: Seq<u8>) -> Option<FontSize> {
    if !stands_at(response, encode_utf8("[6;"@), 0) || response.len() < 4 || response.last() != 0x74 {
        None
    } else {
        let parts = cut(response.subrange(3, response.len() - 1), SEMICOLON);
        if parts.len() < 2 {
            None
        } else {
            match (number(parts[0]), number(parts[1])) {
                (Some(height), Some(width)) => if width > 0 && height > 0 {
                    Some(FontSize { width, height })
                } else {
                    None
                },
                _ => None,
            }
        }
    }
}

/// The first cell size that one of the first `n` responses reports.
pub open spec fn first_font(all: Seq<Seq<u8>>, n: nat) -> Option<FontSize>
    decreases n,
{
    if n == 0 {
        None
    } else {
        match first_font(all, (n - 1) as nat) {
            Some(size) => Some(size),
            None => font_in(all[n - 1]),
        }
    }
}

/// What the responses of a terminal say of it.
pub open spec fn said(all: Seq<Seq<u8>>) -> Capabilities {
    Capabilities {
        protocol: if exists|i: int| 0 <= i < all.len() && grants_kitty(#[trigger] all[i]) {
            Some(Protocol::Kitty)
        } else if exists|i: int| 0 <= i < all.len() && lists_sixel(#[trigger] all[i]) {
            Some(Protocol::Sixel)
        } else {
            None
        },
        font: first_font(all, all.len()),
    }
}

fn middle(bytes: &Vec<u8>, from: usize, to: usize) -> (r: Vec<u8>)
    requires
        from <= to <= bytes@.len(),
    ensures
        r@ == bytes@.subrange(from as int, to as int),
{
    let mut out: Vec<u8> = Vec::new();
    let mut i: usize = from;
    while i < to
        invariant
            from <= i <= to <= bytes@.len(),
            out@ == bytes@.subrange(from as int, i as int),
        decreases to - i,
    {
        out.push(bytes[i]);
        i += 1;
        assert(out@ =~= bytes@.subrange(from as int, i as int));
    }
    out
}

fn has_sixel(response: &Vec<u8>) -> (r: bool)
    ensures
        r == lists_sixel(response@),
{
    let n: usize = response.len();
    if !found_at(response, &bytes_of("[?"), 0) || n <= 2 || response[n - 1] != 0x63 {
        return false;
    }
    let parts = cut_at(&middle(response, 2, n - 1), SEMICOLON);
    let ghost all = parts_view(parts@);
    let mut i: usize = 0;
    while i < parts.len()
        invariant
            i <= parts@.len(),
            all == parts_view(parts@),
            lists_sixel(response@) == all.contains(seq![0x34u8]),
            forall|k: int| 0 <= k < i ==> all[k] != seq![0x34u8],
        decreases parts@.len() - i,
    {
        assert(all[i as int] == parts@[i as int]@);
        if parts[i].len() == 1 && parts[i][0] == 0x34 {
            assert(all[i as int] =~= seq![0x34u8]);
            return true;
        }
        i += 1;
    }
    false
}

fn read_font(response: &Vec<u8>) -> (r: Option<FontSize>)
    ensures
        r == font_in(response@),
{
    let n: usize = response.len();
    if !found_at(response, &bytes_of("[6;"), 0) || n < 4 || response[n - 1] != 0x74 {
        return None;
    }
    let parts = cut_at(&middle(response, 3, n - 1), SEMICOLON);
    let ghost all = parts_view(parts@);
    if parts.len() < 2 {
        return None;
    }
    assert(all[0] == parts@[0]@);
    assert(all[1] == parts@[1]@);
    match (parse_number(&parts[0]), parse_number(&parts[1])) {
        (Some(height), Some(width)) => {
            if width > 0 && height > 0 {
                Some(FontSize { width, height })
            } else {
                None
            }
        },
        _ => None,
    }
}

/// Reads what the responses of a terminal say of it.
pub fn capabilities(all: &Vec<Vec<u8>>) -> (r: Capabilities)
    ensures
        r == said(parts_view(all@)),
{
    let ghost values = parts_view(all@);
    let granted = bytes_of("_Gi=31;OK");
    let mut kitty = false;
    let mut sixel = false;
    let mut font: Option<FontSize> = None;
    let mut i: usize = 0;
    while i < all.len()
        invariant
            i <= all@.len(),
            values == parts_view(all@),
            granted@ == encode_utf8("_Gi=31;OK"@),
            kitty == (exists|k: int| 0 <= k < i && grants_kitty(#[trigger] values[k])),
            sixel == (exists|k: int| 0 <= k < i && lists_sixel(#[trigger] values[k])),
            font == first_font(values, i as nat),
        decreases all@.len() - i,
    {
        assert(values[i as int] == all@[i as int]@);
        if found_at(&all[i], &granted, 0) {
            assert(grants_kitty(values[i as int]));
            kitty = true;
        }
        if has_sixel(&all[i]) {
            assert(lists_sixel(values[i as int]));
            sixel = true;
        }
        if font.is_none() {
            font = read_font(&all[i]);
        }
        i += 1;
    }
    Capabilities {
        protocol: if kitty {
            Some(Protocol::Kitty)
        } else if sixel {
            Some(Protocol::Sixel)
        } else {
            None
        },
        font,
    }
}

/// What is known of a terminal once the host adds whether it speaks the iTerm2 protocol.
pub open spec fn iterm_added(found: Capabilities, iterm: bool) -> Capabilities {
    if found.protocol is None && found.font is Some && iterm {
        Capabilities { protocol: Some(Protocol::Iterm2), ..found }
    } else {
        found
    }
}

/// Adds what the host knows by other means: a terminal that announces no protocol but reports
/// its cell size speaks the iTerm2 protocol where `iterm` says so.
pub fn with_iterm(found: Capabilities, iterm: bool) -> (r: Capabilities)
    ensures
        r == iterm_added(found, iterm),
        r == (Capabilities {
            protocol: if found.protocol is None && found.font is Some && iterm {
                Some(Protocol::Iterm2)
            } else {
                found.protocol
            },
            font: found.font,
        }),
{
    if found.protocol.is_none() && found.font.is_some() && iterm {
        Capabilities { protocol: Some(Protocol::Iterm2), font: found.font }
    } else {
        found
    }
}

/// The bytes of a number's decimal digits.
pub open spec fn decimal_bytes(n: nat) -> Seq<u8> {
    decimal(n).map_values(|c: char| c as u8)
}

proof fn lemma_decimal_bytes(n: nat)
    ensures
        all_digits(decimal_bytes(n)),
        digits_value(decimal_bytes(n)) == n,
        decimal_bytes(n).len() > 0,
    decreases n,
{
    if n >= 10 {
        lemma_decimal_bytes(n / 10);
        assert(decimal_bytes(n).drop_last() =~= decimal_bytes(n / 10));
        assert(decimal_bytes(n).last() == 48 + n % 10);
        assert forall|i: int| 0 <= i < decimal_bytes(n).len() implies is_digit(
            #[trigger] decimal_bytes(n)[i],
        ) by {
            if i < decimal_bytes(n / 10).len() {
                assert(decimal_bytes(n)[i] == decimal_bytes(n / 10)[i]);
            }
        }
    } else {
        assert(decimal_bytes(n).drop_last() =~= Seq::<u8>::empty());
        assert(digits_value(Seq::<u8>::empty()) == 0);
        assert(decimal_bytes(n).last() == 48 + n);
    }
}

/// A number that a terminal writes in decimal is read back as it is, with a plus sign
/// before it or not.
pub proof fn law_numbers_read_back(n: u16)
    ensures
        number(decimal_bytes(n as nat)) == Some(n),
        number(seq![0x2bu8] + decimal_bytes(n as nat)) == Some(n),
{
    lemma_decimal_bytes(n as nat);
    let bytes = decimal_bytes(n as nat);
    assert(is_digit(bytes[0]));
    assert((seq![0x2bu8] + bytes).skip(1) =~= bytes);
}

/// No response holds an escape character, and none is empty.
pub proof fn law_responses_hold_no_escape(received: Seq<u8>, i: int, j: int)
    requires
        0 <= i < filled_parts(cut(received, ESC)).len(),
        0 <= j < filled_parts(cut(received, ESC))[i].len(),
    ensures
        filled_parts(cut(received, ESC))[i].len() > 0,
        filled_parts(cut(received, ESC))[i][j] != ESC,
{
    lemma_cut(received, ESC);
    lemma_filled(cut(received, ESC), ESC);
}

proof fn lemma_cut(bytes: Seq<u8>, separator: u8)
    ensures
        cut(bytes, separator).len() >= 1,
        forall|i: int|
            0 <= i < cut(bytes, separator).len() ==> !(#[trigger] cut(bytes, separator)[i]).contains(
                separator,
            ),
    decreases bytes.len(),
{
    if bytes.len() > 0 {
        lemma_cut(bytes.drop_last(), separator);
        let head = cut(bytes.drop_last(), separator);
        let all = cut(bytes, separator);
        assert forall|i: int| 0 <= i < all.len() implies !(#[trigger] all[i]).contains(separator) by {
            if bytes.last() == separator {
                if i < head.len() {
                    assert(all[i] == head[i]);
                }
            } else if i < head.len() - 1 {
                assert(all[i] == head[i]);
            } else {
                assert(!head[head.len() - 1].contains(separator));
                let last = head.last();
                assert(all[i] == last.push(bytes.last()));
                assert forall|k: int| 0 <= k < all[i].len() implies all[i][k] != separator by {
                    if k < last.len() {
                        assert(last.contains(last[k]));
                    }
                }
            }
        }
    }
}

proof fn lemma_filled(parts: Seq<Seq<u8>>, separator: u8)
    requires
        forall|i: int| 0 <= i < parts.len() ==> !(#[trigger] parts[i]).contains(separator),
    ensures
        forall|i: int|
            0 <= i < filled_parts(parts).len() ==> {
                &&& (#[trigger] filled_parts(parts)[i]).len() > 0
                &&& !filled_parts(parts)[i].contains(separator)
            },
    decreases parts.len(),
{
    if parts.len() > 0 {
        assert forall|i: int| 0 <= i < parts.drop_last().len() implies !(#[trigger] parts.drop_last()[i]).contains(
            separator,
        ) by {
            assert(parts.drop_last()[i] == parts[i]);
        }
        lemma_filled(parts.drop_last(), separator);
        assert(!parts[parts.len() - 1].contains(separator));
        let before = filled_parts(parts.drop_last());
        let all = filled_parts(parts);
        assert forall|i: int| 0 <= i < all.len() implies {
            &&& (#[trigger] all[i]).len() > 0
            &&& !all[i].contains(separator)
        } by {
            if i < before.len() {
                assert(all[i] == before[i]);
            }
        }
    }
}

} // verus!
