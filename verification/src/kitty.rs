//! Images on terminals that speak the Kitty graphics protocol: transmission,
//! retransmission onto one image id, deletion, and the placeholder cells that bind an
//! image to the grid.

use flate2::write::ZlibEncoder;
use flate2::Compression;
use ratatui::buffer::Buffer;
use std::io::Write;
use vstd::prelude::*;
use vstd::utf8::encode_utf8;

use crate::buffer::{
    area_of, buffer_area, buffer_cells, cell_index, lemma_cell_index, lemma_cell_position,
    lemma_position_in_grid, set_diff_option, set_symbol, whole, CellView, DiffOption,
};
use crate::geometry::CellRect;
use crate::text::{append_char, append_decimal, bytes_of, decimal, repeat_char, repeated};

verus! {

/// Bytes of compressed data per command; their Base64 form takes 4096 characters, the
/// most that the protocol allows.
pub const CHUNK_RAW: usize = 3072;

/// The character that stands for one cell of an image.
pub const PLACEHOLDER: char = '\u{10EEEE}';

// ---- Outside encoders -------------------------------------------------------------

/// The bytes that `ZlibEncoder` makes of some data at the fast compression level.
pub uninterp spec fn zlib_fast(data: Seq<u8>) -> Seq<u8>;

/// Compresses data.
///
/// Writes the data to a `flate2::write::ZlibEncoder` at `Compression::fast()` over a
/// vector; dropping the encoder finishes the stream. What comes out depends on the data
/// alone, and is never empty: the stream starts with a header. That inflating it gives the
/// data back is left unsaid.
#[verifier::external_body]
fn deflate(data: &[u8]) -> (r: Vec<u8>)
    ensures
        r@ == zlib_fast(data@),
        r@.len() > 0,
{
    let mut out = Vec::new();
    ZlibEncoder::new(&mut out, Compression::fast()).write_all(data).expect("zlib encoder");
    out
}

/// The Base64 character of six bits.
pub open spec fn base64_char(bits: int) -> char {
    if bits < 26 {
        (65 + bits) as char
    } else if bits < 52 {
        (71 + bits) as char
    } else if bits < 62 {
        (bits - 4) as char
    } else if bits == 62 {
        '+'
    } else {
        '/'
    }
}

/// The Base64 form of data, padded.
pub open spec fn base64(data: Seq<u8>) -> Seq<char>
    decreases data.len(),
{
    if data.len() == 0 {
        seq![]
    } else if data.len() == 1 {
        let a = data[0] as int;
        seq![base64_char(a / 4), base64_char(a % 4 * 16), '=', '=']
    } else if data.len() == 2 {
        let a = data[0] as int;
        let b = data[1] as int;
        seq![
            base64_char(a / 4),
            base64_char(a % 4 * 16 + b / 16),
            base64_char(b % 16 * 4),
            '=',
        ]
    } else {
        let a = data[0] as int;
        let b = data[1] as int;
        let c = data[2] as int;
        seq![
            base64_char(a / 4),
            base64_char(a % 4 * 16 + b / 16),
            base64_char(b % 16 * 4 + c / 64),
            base64_char(c % 64),
        ] + base64(data.skip(3))
    }
}

/// Appends the Base64 form of some data to a string.
///
/// Calls `encode_append` of `base64_simd::STANDARD`: the standard alphabet, padded. It
/// panics on data so long that its Base64 form could not be addressed.
#[verifier::external_body]
fn append_base64(data: &[u8], out: &mut String)
    requires
        data@.len() <= CHUNK_RAW,
    ensures
        final(out)@ == old(out)@ + base64(data@),
{
    base64_simd::STANDARD.encode_append(data, out);
}

// ---- Transmission -----------------------------------------------------------------

/// One image slot on the terminal.
///
/// [`create`](Self::create) transmits pixels with a virtual placement;
/// [`frame`](Self::frame) retransmits onto the same id. A retransmission deletes the
/// image and its placements, so a frame recreates the placement in the same command.
#[derive(Clone, Copy, Debug, PartialEq, Eq, Structural)]
pub struct KittyImage {
    /// Image id.
    pub id: u32,
    /// Pixel width of the transmitted data.
    pub width: u32,
    /// Pixel height of the transmitted data.
    pub height: u32,
}

/// The number of commands that carry `len` bytes.
pub open spec fn command_count(len: nat) -> nat {
    (len + CHUNK_RAW - 1) as nat / CHUNK_RAW as nat
}

/// The part of the data that command `i` carries.
pub open spec fn chunk(data: Seq<u8>, i: int) -> Seq<u8> {
    let from = i * CHUNK_RAW;
    data.subrange(
        from,
        if from + CHUNK_RAW <= data.len() { from + CHUNK_RAW } else { data.len() as int },
    )
}

/// The action that transmits an image and places it on `cols` by `rows` cells.
pub open spec fn placement(cols: u16, rows: u16) -> Seq<char> {
    "a=T,U=1,c="@ + decimal(cols as nat) + ",r="@ + decimal(rows as nat)
}

/// Command `i` of a transmission. The first one also carries the action and the size.
pub open spec fn command(image: KittyImage, action: Seq<char>, data: Seq<u8>, i: int) -> Seq<char> {
    let start = "\x1b_Gq=2,o=z,f=32,t=d,i="@ + decimal(image.id as nat) + ","@;
    let opened = if i == 0 {
        start + action + ",s="@ + decimal(image.width as nat) + ",v="@ + decimal(
            image.height as nat,
        ) + ","@
    } else {
        start
    };
    let more = if i + 1 < command_count(data.len()) { "m=1;"@ } else { "m=0;"@ };
    opened + more + base64(chunk(data, i)) + "\x1b\\"@
}

/// The first `n` commands of a transmission.
pub open spec fn commands(image: KittyImage, action: Seq<char>, data: Seq<u8>, n: nat) -> Seq<char>
    decreases n,
{
    if n == 0 {
        seq![]
    } else {
        commands(image, action, data, (n - 1) as nat) + command(image, action, data, n - 1)
    }
}

/// The whole transmission of compressed data.
pub open spec fn transmission(image: KittyImage, action: Seq<char>, data: Seq<u8>) -> Seq<char> {
    commands(image, action, data, command_count(data.len()))
}

impl KittyImage {
    /// Creates an image slot for `width` by `height` RGBA pixels.
    #[must_use]
    pub fn new(id: u32, width: u32, height: u32) -> (r: KittyImage)
        ensures
            r == (KittyImage { id, width, height }),
    {
        KittyImage { id, width, height }
    }

    /// The initial transmission: compressed pixels and a virtual placement of `cols` by
    /// `rows` cells.
    pub fn create(&self, rgba: &[u8], cols: u16, rows: u16) -> (r: Vec<u8>)
        ensures
            r@ == encode_utf8(transmission(*self, placement(cols, rows), zlib_fast(rgba@))),
            command_count(zlib_fast(rgba@).len()) >= 1,
    {
        self.transmit(rgba, cols, rows)
    }

    /// A replacement frame. `cols` and `rows` must match the placeholders on screen.
    pub fn frame(&self, rgba: &[u8], cols: u16, rows: u16) -> (r: Vec<u8>)
        ensures
            r@ == encode_utf8(transmission(*self, placement(cols, rows), zlib_fast(rgba@))),
            command_count(zlib_fast(rgba@).len()) >= 1,
    {
        self.transmit(rgba, cols, rows)
    }

    /// The command for a new placement on `cols` by `rows` cells.
    pub open spec fn moving(self, cols: u16, rows: u16) -> Seq<char> {
        "\x1b_Gq=2,a=p,U=1,i="@ + decimal(self.id as nat) + ",c="@ + decimal(cols as nat) + ",r="@
            + decimal(rows as nat) + ";\x1b\\"@
    }

    /// The command that deletes the image.
    pub open spec fn deletion(self) -> Seq<char> {
        "\x1b_Ga=d,d=I,i="@ + decimal(self.id as nat) + ";\x1b\\"@
    }

    /// A new virtual placement on `cols` by `rows` cells; the pixels stay.
    pub fn resize_placement(&self, cols: u16, rows: u16) -> (r: Vec<u8>)
        ensures
            r@ == encode_utf8(self.moving(cols, rows)),
            r@ == encode_utf8(
                "\x1b_Gq=2,a=p,U=1,i="@ + decimal(self.id as nat) + ",c="@ + decimal(cols as nat)
                    + ",r="@ + decimal(rows as nat) + ";\x1b\\"@,
            ),
    {
        let mut out = String::new();
        out.append("\x1b_Gq=2,a=p,U=1,i=");
        append_decimal(&mut out, self.id as u64);
        out.append(",c=");
        append_decimal(&mut out, cols as u64);
        out.append(",r=");
        append_decimal(&mut out, rows as u64);
        out.append(";\x1b\\");
        assert(out@ =~= "\x1b_Gq=2,a=p,U=1,i="@ + decimal(self.id as nat) + ",c="@ + decimal(
            cols as nat,
        ) + ",r="@ + decimal(rows as nat) + ";\x1b\\"@);
        bytes_of(out.as_str())
    }

    /// The deletion of the image and of all its placements.
    #[must_use]
    pub fn delete(&self) -> (r: Vec<u8>)
        ensures
            r@ == encode_utf8(self.deletion()),
            r@ == encode_utf8("\x1b_Ga=d,d=I,i="@ + decimal(self.id as nat) + ";\x1b\\"@),
    {
        let mut out = String::new();
        out.append("\x1b_Ga=d,d=I,i=");
        append_decimal(&mut out, self.id as u64);
        out.append(";\x1b\\");
        assert(out@ =~= "\x1b_Ga=d,d=I,i="@ + decimal(self.id as nat) + ";\x1b\\"@);
        bytes_of(out.as_str())
    }

    fn transmit(&self, rgba: &[u8], cols: u16, rows: u16) -> (r: Vec<u8>)
        ensures
            r@ == encode_utf8(transmission(*self, placement(cols, rows), zlib_fast(rgba@))),
            command_count(zlib_fast(rgba@).len()) >= 1,
    {
        let mut action = String::new();
        action.append("a=T,U=1,c=");
        append_decimal(&mut action, cols as u64);
        action.append(",r=");
        append_decimal(&mut action, rows as u64);
        assert(action@ =~= placement(cols, rows));
        let data = deflate(rgba);
        let text = self.encode(&data, action.as_str());
        bytes_of(text.as_str())
    }

    /// Frames compressed data as commands, each with at most one chunk of it.
    pub fn encode(&self, data: &Vec<u8>, action: &str) -> (r: String)
        ensures
            r@ == transmission(*self, action@, data@),
    {
        let mut out = String::new();
        let mut i: usize = 0;
        let mut from: usize = 0;
        let ghost count = command_count(data@.len());
        assert(out@ =~= commands(*self, action@, data@, 0));
        while from < data.len()
            invariant
                i <= count,
                count == command_count(data@.len()),
                from == (if i * CHUNK_RAW <= data@.len() { i * CHUNK_RAW } else { data@.len() as int }),
                out@ == commands(*self, action@, data@, i as nat),
            decreases data@.len() - from,
        {
            let rest: usize = data.len() - from;
            let size: usize = if rest > CHUNK_RAW { CHUNK_RAW } else { rest };
            let ghost before = out@;
            out.append("\x1b_Gq=2,o=z,f=32,t=d,i=");
            append_decimal(&mut out, self.id as u64);
            out.append(",");
            if i == 0 {
                out.append(action);
                out.append(",s=");
                append_decimal(&mut out, self.width as u64);
                out.append(",v=");
                append_decimal(&mut out, self.height as u64);
                out.append(",");
            }
            if rest > CHUNK_RAW {
                out.append("m=1;");
            } else {
                out.append("m=0;");
            }
            assert((rest > CHUNK_RAW) == (i + 1 < count));
            append_base64(vstd::slice::slice_subrange(data.as_slice(), from, from + size), &mut out);
            assert(data@.subrange(from as int, from + size) == chunk(data@, i as int));
            out.append("\x1b\\");
            assert(out@ =~= before + command(*self, action@, data@, i as int));
            from += size;
            i += 1;
        }
        assert(i == count);
        out
    }
}

// ---- Laws of a transmission -------------------------------------------------------

proof fn lemma_base64_len(data: Seq<u8>)
    ensures
        base64(data).len() == (data.len() + 2) / 3 * 4,
    decreases data.len(),
{
    if data.len() >= 3 {
        lemma_base64_len(data.skip(3));
    }
}

proof fn lemma_base64_concat(a: Seq<u8>, b: Seq<u8>)
    requires
        a.len() % 3 == 0,
    ensures
        base64(a + b) == base64(a) + base64(b),
    decreases a.len(),
{
    if a.len() == 0 {
        assert(a + b =~= b);
        assert(base64(a) + base64(b) =~= base64(b));
    } else {
        lemma_base64_concat(a.skip(3), b);
        assert((a + b).skip(3) =~= a.skip(3) + b);
        assert(base64(a + b) =~= base64(a) + base64(b));
    }
}

/// What the first `n` commands carry, one behind the other.
pub open spec fn payload(data: Seq<u8>, n: nat) -> Seq<char>
    decreases n,
{
    if n == 0 {
        seq![]
    } else {
        payload(data, (n - 1) as nat) + base64(chunk(data, n - 1))
    }
}

proof fn lemma_payload(data: Seq<u8>, n: nat)
    requires
        n <= command_count(data.len()),
    ensures
        payload(data, n) == base64(
            data.take(if n * CHUNK_RAW <= data.len() { n * CHUNK_RAW } else { data.len() as int }),
        ),
    decreases n,
{
    if n > 0 {
        let k = (n - 1) as nat;
        lemma_payload(data, k);
        let from = k * CHUNK_RAW;
        assert(from <= data.len());
        let to = if n * CHUNK_RAW <= data.len() { n * CHUNK_RAW } else { data.len() as int };
        assert(data.take(to) =~= data.take(from) + chunk(data, k as int));
        lemma_base64_concat(data.take(from), chunk(data, k as int));
    } else {
        assert(data.take(0) =~= Seq::<u8>::empty());
    }
}

/// The commands of a transmission carry, put together, the Base64 form of the whole data, and
/// with it the data.
pub proof fn law_commands_carry_everything(data: Seq<u8>)
    ensures
        payload(data, command_count(data.len())) == base64(data),
        unbase64(payload(data, command_count(data.len()))) == data,
{
    law_base64_gives_data_back(data);
    let n = command_count(data.len());
    lemma_payload(data, n);
    assert(n * CHUNK_RAW >= data.len());
    assert(data.take(data.len() as int) =~= data);
}

/// Data that is not empty takes at least one command, and the last one is marked as such.
pub proof fn law_data_takes_a_command(image: KittyImage, action: Seq<char>, data: Seq<u8>)
    requires
        data.len() > 0,
    ensures
        command_count(data.len()) >= 1,
        ({
            let n = command_count(data.len());
            transmission(image, action, data) == commands(image, action, data, (n - 1) as nat)
                + command(image, action, data, n - 1)
        }),
        transmission(image, action, data).len() > 0,
{
    reveal_strlit("\x1b\\");
}

/// The six bits of a Base64 character.
pub open spec fn base64_bits(c: char) -> int {
    if 'A' <= c <= 'Z' {
        c as int - 65
    } else if 'a' <= c <= 'z' {
        c as int - 71
    } else if '0' <= c <= '9' {
        c as int + 4
    } else if c == '+' {
        62
    } else {
        63
    }
}

/// The data of a padded Base64 form.
pub open spec fn unbase64(text: Seq<char>) -> Seq<u8>
    decreases text.len(),
{
    if text.len() < 4 {
        seq![]
    } else {
        let a = base64_bits(text[0]);
        let b = base64_bits(text[1]);
        let c = base64_bits(text[2]);
        let d = base64_bits(text[3]);
        let first = (a * 4 + b / 16) as u8;
        let second = (b % 16 * 16 + c / 4) as u8;
        let third = (c % 4 * 64 + d) as u8;
        let group = if text[2] == '=' {
            seq![first]
        } else if text[3] == '=' {
            seq![first, second]
        } else {
            seq![first, second, third]
        };
        group + unbase64(text.skip(4))
    }
}

proof fn lemma_base64_bits(bits: int)
    requires
        0 <= bits < 64,
    ensures
        base64_bits(base64_char(bits)) == bits,
        base64_char(bits) != '=',
{
}

proof fn lemma_six_bits(a: int, b: int, c: int)
    requires
        0 <= a < 256,
        0 <= b < 256,
        0 <= c < 256,
    ensures
        0 <= a / 4 < 64,
        0 <= a % 4 * 16 + b / 16 < 64,
        0 <= b % 16 * 4 + c / 64 < 64,
        0 <= c % 64 < 64,
        a / 4 * 4 + (a % 4 * 16 + b / 16) / 16 == a,
        (a % 4 * 16 + b / 16) % 16 * 16 + (b % 16 * 4 + c / 64) / 4 == b,
        (b % 16 * 4 + c / 64) % 4 * 64 + c % 64 == c,
{
}

proof fn lemma_group_back(data: Seq<u8>)
    requires
        data.len() >= 3,
    ensures
        unbase64(base64(data)) == data.take(3) + unbase64(base64(data.skip(3))),
{
    let a = data[0] as int;
    let b = data[1] as int;
    let c = data[2] as int;
    let text = base64(data);
    lemma_six_bits(a, b, c);
    lemma_base64_bits(a / 4);
    lemma_base64_bits(a % 4 * 16 + b / 16);
    lemma_base64_bits(b % 16 * 4 + c / 64);
    lemma_base64_bits(c % 64);
    assert(text.skip(4) =~= base64(data.skip(3)));
    assert(seq![a as u8, b as u8, c as u8] =~= data.take(3));
}

proof fn lemma_end_back(data: Seq<u8>)
    requires
        data.len() < 3,
    ensures
        unbase64(base64(data)) == data,
{
    let text = base64(data);
    if data.len() == 1 {
        let a = data[0] as int;
        lemma_six_bits(a, 0, 0);
        lemma_base64_bits(a / 4);
        lemma_base64_bits(a % 4 * 16);
        assert(unbase64(text.skip(4)) =~= seq![]);
        assert(unbase64(text) =~= seq![a as u8]);
    } else if data.len() == 2 {
        let a = data[0] as int;
        let b = data[1] as int;
        lemma_six_bits(a, b, 0);
        lemma_base64_bits(a / 4);
        lemma_base64_bits(a % 4 * 16 + b / 16);
        lemma_base64_bits(b % 16 * 4);
        assert(unbase64(text.skip(4)) =~= seq![]);
        assert(unbase64(text) =~= seq![a as u8, b as u8]);
    }
    assert(unbase64(text) =~= data);
}

/// The Base64 form of data gives the data back.
pub proof fn law_base64_gives_data_back(data: Seq<u8>)
    ensures
        unbase64(base64(data)) == data,
    decreases data.len(),
{
    if data.len() < 3 {
        lemma_end_back(data);
    } else {
        lemma_group_back(data);
        law_base64_gives_data_back(data.skip(3));
        assert(data.take(3) + data.skip(3) =~= data);
    }
}

/// No command carries more than the 4096 characters that the protocol allows.
pub proof fn law_commands_stay_short(data: Seq<u8>, i: int)
    requires
        0 <= i < command_count(data.len()),
    ensures
        0 < base64(chunk(data, i)).len() <= 4096,
{
    lemma_base64_len(chunk(data, i));
}

// ---- Placeholders -----------------------------------------------------------------

/// The number of rows and columns that can be marked.
pub const MARK_COUNT: u16 = 297;

/// The combining marks that number the rows and columns of an image.
pub const MARKS: [char; 297] = [
    '\u{305}', '\u{30D}', '\u{30E}', '\u{310}', '\u{312}', '\u{33D}', '\u{33E}', '\u{33F}',
    '\u{346}', '\u{34A}', '\u{34B}', '\u{34C}', '\u{350}', '\u{351}', '\u{352}', '\u{357}',
    '\u{35B}', '\u{363}', '\u{364}', '\u{365}', '\u{366}', '\u{367}', '\u{368}', '\u{369}',
    '\u{36A}', '\u{36B}', '\u{36C}', '\u{36D}', '\u{36E}', '\u{36F}', '\u{483}', '\u{484}',
    '\u{485}', '\u{486}', '\u{487}', '\u{592}', '\u{593}', '\u{594}', '\u{595}', '\u{597}',
    '\u{598}', '\u{599}', '\u{59C}', '\u{59D}', '\u{59E}', '\u{59F}', '\u{5A0}', '\u{5A1}',
    '\u{5A8}', '\u{5A9}', '\u{5AB}', '\u{5AC}', '\u{5AF}', '\u{5C4}', '\u{610}', '\u{611}',
    '\u{612}', '\u{613}', '\u{614}', '\u{615}', '\u{616}', '\u{617}', '\u{657}', '\u{658}',
    '\u{659}', '\u{65A}', '\u{65B}', '\u{65D}', '\u{65E}', '\u{6D6}', '\u{6D7}', '\u{6D8}',
    '\u{6D9}', '\u{6DA}', '\u{6DB}', '\u{6DC}', '\u{6DF}', '\u{6E0}', '\u{6E1}', '\u{6E2}',
    '\u{6E4}', '\u{6E7}', '\u{6E8}', '\u{6EB}', '\u{6EC}', '\u{730}', '\u{732}', '\u{733}',
    '\u{735}', '\u{736}', '\u{73A}', '\u{73D}', '\u{73F}', '\u{740}', '\u{741}', '\u{743}',
    '\u{745}', '\u{747}', '\u{749}', '\u{74A}', '\u{7EB}', '\u{7EC}', '\u{7ED}', '\u{7EE}',
    '\u{7EF}', '\u{7F0}', '\u{7F1}', '\u{7F3}', '\u{816}', '\u{817}', '\u{818}', '\u{819}',
    '\u{81B}', '\u{81C}', '\u{81D}', '\u{81E}', '\u{81F}', '\u{820}', '\u{821}', '\u{822}',
    '\u{823}', '\u{825}', '\u{826}', '\u{827}', '\u{829}', '\u{82A}', '\u{82B}', '\u{82C}',
    '\u{82D}', '\u{951}', '\u{953}', '\u{954}', '\u{F82}', '\u{F83}', '\u{F86}', '\u{F87}',
    '\u{135D}', '\u{135E}', '\u{135F}', '\u{17DD}', '\u{193A}', '\u{1A17}', '\u{1A75}', '\u{1A76}',
    '\u{1A77}', '\u{1A78}', '\u{1A79}', '\u{1A7A}', '\u{1A7B}', '\u{1A7C}', '\u{1B6B}', '\u{1B6D}',
    '\u{1B6E}', '\u{1B6F}', '\u{1B70}', '\u{1B71}', '\u{1B72}', '\u{1B73}', '\u{1CD0}', '\u{1CD1}',
    '\u{1CD2}', '\u{1CDA}', '\u{1CDB}', '\u{1CE0}', '\u{1DC0}', '\u{1DC1}', '\u{1DC3}', '\u{1DC4}',
    '\u{1DC5}', '\u{1DC6}', '\u{1DC7}', '\u{1DC8}', '\u{1DC9}', '\u{1DCB}', '\u{1DCC}', '\u{1DD1}',
    '\u{1DD2}', '\u{1DD3}', '\u{1DD4}', '\u{1DD5}', '\u{1DD6}', '\u{1DD7}', '\u{1DD8}', '\u{1DD9}',
    '\u{1DDA}', '\u{1DDB}', '\u{1DDC}', '\u{1DDD}', '\u{1DDE}', '\u{1DDF}', '\u{1DE0}', '\u{1DE1}',
    '\u{1DE2}', '\u{1DE3}', '\u{1DE4}', '\u{1DE5}', '\u{1DE6}', '\u{1DFE}', '\u{20D0}', '\u{20D1}',
    '\u{20D4}', '\u{20D5}', '\u{20D6}', '\u{20D7}', '\u{20DB}', '\u{20DC}', '\u{20E1}', '\u{20E7}',
    '\u{20E9}', '\u{20F0}', '\u{2CEF}', '\u{2CF0}', '\u{2CF1}', '\u{2DE0}', '\u{2DE1}', '\u{2DE2}',
    '\u{2DE3}', '\u{2DE4}', '\u{2DE5}', '\u{2DE6}', '\u{2DE7}', '\u{2DE8}', '\u{2DE9}', '\u{2DEA}',
    '\u{2DEB}', '\u{2DEC}', '\u{2DED}', '\u{2DEE}', '\u{2DEF}', '\u{2DF0}', '\u{2DF1}', '\u{2DF2}',
    '\u{2DF3}', '\u{2DF4}', '\u{2DF5}', '\u{2DF6}', '\u{2DF7}', '\u{2DF8}', '\u{2DF9}', '\u{2DFA}',
    '\u{2DFB}', '\u{2DFC}', '\u{2DFD}', '\u{2DFE}', '\u{2DFF}', '\u{A66F}', '\u{A67C}', '\u{A67D}',
    '\u{A6F0}', '\u{A6F1}', '\u{A8E0}', '\u{A8E1}', '\u{A8E2}', '\u{A8E3}', '\u{A8E4}', '\u{A8E5}',
    '\u{A8E6}', '\u{A8E7}', '\u{A8E8}', '\u{A8E9}', '\u{A8EA}', '\u{A8EB}', '\u{A8EC}', '\u{A8ED}',
    '\u{A8EE}', '\u{A8EF}', '\u{A8F0}', '\u{A8F1}', '\u{AAB0}', '\u{AAB2}', '\u{AAB3}', '\u{AAB7}',
    '\u{AAB8}', '\u{AABE}', '\u{AABF}', '\u{AAC1}', '\u{FE20}', '\u{FE21}', '\u{FE22}', '\u{FE23}',
    '\u{FE24}', '\u{FE25}', '\u{FE26}', '\u{10A0F}', '\u{10A38}', '\u{1D185}', '\u{1D186}', '\u{1D187}',
    '\u{1D188}', '\u{1D189}', '\u{1D1AA}', '\u{1D1AB}', '\u{1D1AC}', '\u{1D1AD}', '\u{1D242}', '\u{1D243}',
    '\u{1D244}',
];

/// The mark of a row or column, or the first mark where there is none.
pub open spec fn mark(index: int) -> char {
    if 0 <= index < MARK_COUNT {
        MARKS[index]
    } else {
        MARKS[0]
    }
}

/// The mark of a row or column, or the first mark where there is none.
pub fn diacritic(index: u16) -> (r: char)
    ensures
        r == mark(index as int),
{
    if index < MARK_COUNT {
        MARKS[index as usize]
    } else {
        MARKS[0]
    }
}

/// The number of image rows that can be shown from row `skipped` on.
pub open spec fn marked_rows(height: u16, cell_height: u16, skipped: u16) -> int {
    let marks = if skipped < MARK_COUNT { MARK_COUNT - skipped } else { 0 };
    let rows = if height < cell_height { height as int } else { cell_height as int };
    if rows < marks {
        rows
    } else {
        marks
    }
}

/// What one cell holds so that a whole row of an image is drawn from there: the image id
/// as a color, the marks of row and column and of the id's high byte, one placeholder for
/// each column, and the cursor moved to the end of the area.
pub open spec fn placeholder_row(image: KittyImage, width: int, area: CellRect, row: int) -> Seq<char> {
    "\x1b[s\x1b[38;2;"@ + decimal((image.id / 65536 % 256) as nat) + ";"@ + decimal(
        (image.id / 256 % 256) as nat,
    ) + ";"@ + decimal((image.id % 256) as nat) + "m"@ + seq![
        PLACEHOLDER,
        mark(row),
        mark(0),
        mark((image.id / 16777216) as int),
    ] + repeated(PLACEHOLDER, (width - 1) as nat) + "\x1b[u\x1b["@ + decimal((area.width - 1) as nat)
        + "C\x1b["@ + decimal((area.height - 1) as nat) + "B"@
}

/// A cell after placeholders were drawn over the cells of `shown`.
pub open spec fn placeheld(
    cell: CellView,
    x: int,
    y: int,
    image: KittyImage,
    shown: CellRect,
    area: CellRect,
    skipped: u16,
) -> CellView {
    if !shown.covers(x, y) {
        cell
    } else if x == shown.x {
        CellView {
            symbol: placeholder_row(image, shown.width as int, area, y - shown.y + skipped),
            diff: DiffOption::ForcedWidth(1),
            ..cell
        }
    } else {
        CellView { diff: DiffOption::Skip, ..cell }
    }
}

/// The cells of an area that an image of `cell_width` by `cell_height` cells takes.
pub open spec fn image_cells(cell_width: u16, cell_height: u16, area: CellRect, skipped: u16) -> CellRect {
    CellRect {
        x: area.x,
        y: area.y,
        width: if area.width < cell_width { area.width } else { cell_width },
        height: marked_rows(area.height, cell_height, skipped) as u16,
    }
}

/// The cells of a buffer after placeholders were drawn.
pub open spec fn with_placeholders(
    cells: Seq<CellView>,
    grid: CellRect,
    image: KittyImage,
    shown: CellRect,
    area: CellRect,
    skipped: u16,
) -> Seq<CellView> {
    Seq::new(
        cells.len(),
        |i: int|
            placeheld(
                cells[i],
                grid.x + i % grid.width as int,
                grid.y + i / grid.width as int,
                image,
                shown,
                area,
                skipped,
            ),
    )
}

fn row_symbol(image: &KittyImage, width: u16, area: CellRect, row: u16) -> (r: String)
    requires
        width > 0,
        area.width > 0,
        area.height > 0,
    ensures
        r@ == placeholder_row(*image, width as int, area, row as int),
{
    let mut out = String::new();
    out.append("\x1b[s\x1b[38;2;");
    append_decimal(&mut out, (image.id / 65536 % 256) as u64);
    out.append(";");
    append_decimal(&mut out, (image.id / 256 % 256) as u64);
    out.append(";");
    append_decimal(&mut out, (image.id % 256) as u64);
    out.append("m");
    append_char(&mut out, PLACEHOLDER);
    append_char(&mut out, diacritic(row));
    append_char(&mut out, diacritic(0));
    append_char(&mut out, diacritic((image.id / 16777216) as u16));
    out.append(repeat_char(PLACEHOLDER, width as usize - 1).as_str());
    out.append("\x1b[u\x1b[");
    append_decimal(&mut out, (area.width - 1) as u64);
    out.append("C\x1b[");
    append_decimal(&mut out, (area.height - 1) as u64);
    out.append("B");
    assert(out@ =~= placeholder_row(*image, width as int, area, row as int));
    out
}

/// Draws placeholder cells for an image of `cell_width` by `cell_height` cells, so that
/// the terminal shows the image there. The cells scroll and clip like ordinary text;
/// `skipped_rows` is the number of image rows that lie above the area.
pub fn draw_placeholders(
    image: &KittyImage,
    cell_width: u16,
    cell_height: u16,
    area: CellRect,
    skipped_rows: u16,
    buf: &mut Buffer,
)
    requires
        whole(*old(buf)),
        area.wf(),
    ensures
        whole(*final(buf)),
        buffer_area(*final(buf)) == buffer_area(*old(buf)),
        buffer_cells(*final(buf)) == with_placeholders(
            buffer_cells(*old(buf)),
            buffer_area(*old(buf)),
            *image,
            image_cells(cell_width, cell_height, area, skipped_rows),
            area,
            skipped_rows,
        ),
{
    let grid = area_of(buf);
    let width: u16 = if area.width < cell_width { area.width } else { cell_width };
    let marks: u16 = if skipped_rows < MARK_COUNT { MARK_COUNT - skipped_rows } else { 0 };
    let rows: u16 = if area.height < cell_height { area.height } else { cell_height };
    let height: u16 = if rows < marks { rows } else { marks };
    let ghost before = buffer_cells(*buf);
    let ghost shown = image_cells(cell_width, cell_height, area, skipped_rows);
    let ghost after = with_placeholders(before, grid, *image, shown, area, skipped_rows);
    if width == 0 {
        assert(buffer_cells(*buf) =~= after);
        return;
    }
    let mut y: u16 = 0;
    while y < height
        invariant
            whole(*buf),
            area.wf(),
            0 < width <= area.width,
            height <= area.height,
            y <= height,
            y < height ==> skipped_rows + height <= MARK_COUNT,
            buffer_area(*buf) == grid,
            grid == buffer_area(*old(buf)),
            shown == (CellRect { x: area.x, y: area.y, width, height }),
            before.len() == buffer_cells(*buf).len(),
            after == with_placeholders(before, grid, *image, shown, area, skipped_rows),
            forall|i: int|
                0 <= i < before.len() ==> #[trigger] buffer_cells(*buf)[i] == if i / grid.width as int
                    + grid.y < area.y + y {
                    after[i]
                } else {
                    before[i]
                },
        decreases height - y,
    {
        let symbol = row_symbol(image, width, area, y + skipped_rows);
        let row: u16 = area.y + y;
        let mut x: u16 = 0;
        while x < width
            invariant
                whole(*buf),
                area.wf(),
                0 < width <= area.width,
                height <= area.height,
                y < height,
                x <= width,
                row == area.y + y,
                skipped_rows + height <= MARK_COUNT,
                buffer_area(*buf) == grid,
                shown == (CellRect { x: area.x, y: area.y, width, height }),
                symbol@ == placeholder_row(*image, width as int, area, y + skipped_rows),
                before.len() == buffer_cells(*buf).len(),
                after == with_placeholders(before, grid, *image, shown, area, skipped_rows),
                forall|i: int|
                    0 <= i < before.len() ==> #[trigger] buffer_cells(*buf)[i] == if i
                        / grid.width as int + grid.y < row || (i / grid.width as int + grid.y == row
                        && i % grid.width as int + grid.x < area.x + x) {
                        after[i]
                    } else {
                        before[i]
                    },
            decreases width - x,
        {
            let col: u16 = area.x + x;
            let ghost was = buffer_cells(*buf);
            let ghost at = cell_index(grid, col as int, row as int);
            if grid.contains(col as i32, row as i32) {
                proof {
                    lemma_cell_index(grid, col as int, row as int);
                    lemma_cell_position(grid, col as int, row as int);
                }
                if x == 0 {
                    set_symbol(buf, col, row, symbol.as_str());
                    set_diff_option(buf, col, row, DiffOption::ForcedWidth(1));
                } else {
                    set_diff_option(buf, col, row, DiffOption::Skip);
                }
                assert(buffer_cells(*buf)[at] == after[at]);
            }
            assert forall|i: int| 0 <= i < before.len() implies #[trigger] buffer_cells(*buf)[i] == if i
                / grid.width as int + grid.y < row || (i / grid.width as int + grid.y == row && i
                % grid.width as int + grid.x < area.x + x + 1) {
                after[i]
            } else {
                before[i]
            } by {
                let q = i / grid.width as int;
                let r = i % grid.width as int;
                lemma_position_in_grid(grid, i);
                if q + grid.y == row && r + grid.x == col {
                    assert(grid.covers(col as int, row as int));
                    assert(i == at);
                } else {
                    assert(i != at || !grid.covers(col as int, row as int));
                    assert(buffer_cells(*buf)[i] == was[i]);
                }
            }
            x += 1;
        }
        assert forall|i: int| 0 <= i < before.len() implies #[trigger] buffer_cells(*buf)[i] == if i
            / grid.width as int + grid.y < area.y + y + 1 {
            after[i]
        } else {
            before[i]
        } by {
            lemma_position_in_grid(grid, i);
        }
        y += 1;
    }
    assert forall|i: int| 0 <= i < before.len() implies #[trigger] buffer_cells(*buf)[i] == after[i] by {
        lemma_position_in_grid(grid, i);
    }
    assert(buffer_cells(*buf) =~= after);
}

} // verus!
