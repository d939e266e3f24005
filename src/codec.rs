//! The PPM codec. Decoding reads the bytes one at a time through a small
//! state machine: a header of four tokens (tag, width, height, largest value)
//! ended by its line break, then either text triples ("P3") or raw byte
//! triples ("P6"). A `#` comments out the rest of a line, in the header and
//! in text pixel data.
use vstd::prelude::*;

use crate::decimal::{dec_digits, push_decimal};
use crate::image::{Image, ImageModel};
use crate::number::{lemma_byte_digits_len, number_of, parse_number};
use crate::pixel::Pixel;

verus! {

/// Why bytes could not be decoded as an image.
#[derive(Debug, Clone, Copy, PartialEq, Eq, Structural)]
pub enum FormatError {
    /// The input ended before the four header fields.
    Truncated,
    /// A token is not a number in range, a header line holds a fifth token,
    /// or a text line ends inside a triple.
    InvalidToken,
    /// The number of pixels read differs from width times height.
    DimensionMismatch { pixels: usize, width: usize, height: usize },
}

/// Space, tab, line feed, form feed and carriage return.
pub open spec fn is_space(c: u8) -> bool {
    c == 32 || c == 9 || c == 10 || c == 12 || c == 13
}

/// The state of the decoder after some prefix of the input.
pub struct Scan {
    /// Pixel data is raw bytes rather than text.
    pub binary: bool,
    /// The first error met; once set it stays.
    pub err: Option<FormatError>,
    /// How many of the four header fields have been read.
    pub field: nat,
    /// The line holding the last header field has ended.
    pub header_done: bool,
    /// Inside a comment.
    pub comment: bool,
    /// The bytes of the token being read.
    pub tok: Seq<u8>,
    pub tag: Seq<u8>,
    pub width: usize,
    pub height: usize,
    pub maxval: usize,
    /// Channel values read towards the next pixel.
    pub chan: Seq<u8>,
    pub pixels: Seq<Pixel>,
}

/// The state before any byte.
pub open spec fn start(binary: bool) -> Scan {
    Scan {
        binary,
        err: None,
        field: 0,
        header_done: false,
        comment: false,
        tok: seq![],
        tag: seq![],
        width: 0,
        height: 0,
        maxval: 255,
        chan: seq![],
        pixels: seq![],
    }
}

/// A channel value taken: three of them make a pixel.
pub open spec fn take_channel(s: Scan, v: u8) -> Scan {
    if s.chan.len() == 2 {
        Scan {
            pixels: s.pixels.push(Pixel { r: s.chan[0], g: s.chan[1], b: v }),
            chan: seq![],
            ..s
        }
    } else {
        Scan { chan: s.chan.push(v), ..s }
    }
}

/// A complete token taken, as a header field or as a channel value.
pub open spec fn take_token(s: Scan, t: Seq<u8>) -> Scan {
    if s.err is Some {
        s
    } else if !s.header_done {
        if s.field == 0 {
            Scan { tag: t, field: 1, ..s }
        } else if s.field < 4 {
            match number_of(t, usize::MAX as nat) {
                None => Scan { err: Some(FormatError::InvalidToken), ..s },
                Some(v) => if s.field == 1 {
                    Scan { width: v as usize, field: 2, ..s }
                } else if s.field == 2 {
                    Scan { height: v as usize, field: 3, ..s }
                } else {
                    Scan { maxval: v as usize, field: 4, ..s }
                },
            }
        } else {
            Scan { err: Some(FormatError::InvalidToken), ..s }
        }
    } else {
        match number_of(t, 255) {
            None => Scan { err: Some(FormatError::InvalidToken), ..s },
            Some(v) => take_channel(s, v as u8),
        }
    }
}

/// The token being read, if any, is complete.
pub open spec fn end_token(s: Scan) -> Scan {
    if s.tok.len() == 0 {
        s
    } else {
        take_token(Scan { tok: seq![], ..s }, s.tok)
    }
}

/// A line ends: the header may be complete, and a text line may not end
/// inside a triple.
pub open spec fn end_line(s: Scan) -> Scan {
    let s1 = end_token(s);
    if s1.err is Some {
        s1
    } else if !s1.header_done {
        Scan { header_done: s1.field == 4, comment: false, ..s1 }
    } else if s1.chan.len() > 0 {
        Scan { err: Some(FormatError::InvalidToken), ..s1 }
    } else {
        Scan { comment: false, ..s1 }
    }
}

/// One byte read.
pub open spec fn step(s: Scan, c: u8) -> Scan {
    if s.err is Some {
        s
    } else if s.binary && s.header_done {
        take_channel(s, c)
    } else if c == 10 {
        end_line(s)
    } else if s.comment {
        s
    } else if c == 35 {
        Scan { comment: true, ..end_token(s) }
    } else if is_space(c) {
        end_token(s)
    } else {
        Scan { tok: s.tok.push(c), ..s }
    }
}

/// The state after reading `bytes` from `s`.
pub open spec fn run(s: Scan, bytes: Seq<u8>) -> Scan
    decreases bytes.len(),
{
    if bytes.len() == 0 {
        s
    } else {
        step(run(s, bytes.drop_last()), bytes.last())
    }
}

/// The outcome once the input has ended: leftover raw bytes that make no
/// whole pixel are dropped.
pub open spec fn finish(s: Scan) -> Result<ImageModel, FormatError> {
    let e = if s.binary && s.header_done {
        s
    } else {
        end_line(s)
    };
    if e.err is Some {
        Err(e.err->Some_0)
    } else if e.field < 4 {
        Err(FormatError::Truncated)
    } else if e.pixels.len() != e.width * e.height {
        Err(
            FormatError::DimensionMismatch {
                pixels: e.pixels.len() as usize,
                width: e.width,
                height: e.height,
            },
        )
    } else {
        Ok(
            ImageModel {
                tag: e.tag,
                width: e.width,
                height: e.height,
                nb_colors: e.maxval,
                pixels: e.pixels,
            },
        )
    }
}

/// What decoding `bytes` gives, with text or with raw pixel data.
pub open spec fn decoded(bytes: Seq<u8>, binary: bool) -> Result<ImageModel, FormatError> {
    finish(run(start(binary), bytes))
}

struct Scanner {
    binary: bool,
    err: Option<FormatError>,
    field: u8,
    header_done: bool,
    comment: bool,
    tok: Vec<u8>,
    tag: Vec<u8>,
    width: usize,
    height: usize,
    maxval: usize,
    chan: Vec<u8>,
    pixels: Vec<Pixel>,
}

impl View for Scanner {
    type V = Scan;

    closed spec fn view(&self) -> Scan {
        Scan {
            binary: self.binary,
            err: self.err,
            field: self.field as nat,
            header_done: self.header_done,
            comment: self.comment,
            tok: self.tok@,
            tag: self.tag@,
            width: self.width,
            height: self.height,
            maxval: self.maxval,
            chan: self.chan@,
            pixels: self.pixels@,
        }
    }
}

impl Scanner {
    fn new(binary: bool) -> (s: Scanner)
        ensures
            s@ == start(binary),
    {
        let s = Scanner {
            binary,
            err: None,
            field: 0,
            header_done: false,
            comment: false,
            tok: Vec::new(),
            tag: Vec::new(),
            width: 0,
            height: 0,
            maxval: 255,
            chan: Vec::new(),
            pixels: Vec::new(),
        };
        assert(s@.tok =~= seq![]);
        assert(s@ =~= start(binary));
        s
    }

    fn take_channel(&mut self, v: u8)
        ensures
            final(self)@ == take_channel(old(self)@, v),
    {
        if self.chan.len() == 2 {
            let p = Pixel::new(self.chan[0], self.chan[1], v);
            self.pixels.push(p);
            self.chan = Vec::new();
            assert(self.chan@ =~= seq![]);
        } else {
            self.chan.push(v);
        }
    }

    fn take_token(&mut self, t: Vec<u8>)
        requires
            old(self).field <= 4,
        ensures
            final(self)@ == take_token(old(self)@, t@),
            final(self).field <= 4,
    {
        if self.err.is_some() {
        } else if !self.header_done {
            if self.field == 0 {
                self.tag = t;
                self.field = 1;
            } else if self.field < 4 {
                match parse_number(&t, usize::MAX) {
                    None => {
                        self.err = Some(FormatError::InvalidToken);
                    },
                    Some(v) => {
                        if self.field == 1 {
                            self.width = v;
                        } else if self.field == 2 {
                            self.height = v;
                        } else {
                            self.maxval = v;
                        }
                        self.field = self.field + 1;
                    },
                }
            } else {
                self.err = Some(FormatError::InvalidToken);
            }
        } else {
            match parse_number(&t, 255) {
                None => {
                    self.err = Some(FormatError::InvalidToken);
                },
                Some(v) => {
                    self.take_channel(v as u8);
                },
            }
        }
    }

    fn end_token(&mut self)
        requires
            old(self).field <= 4,
        ensures
            final(self)@ == end_token(old(self)@),
            final(self).field <= 4,
    {
        if self.tok.len() > 0 {
            let mut t: Vec<u8> = Vec::new();
            std::mem::swap(&mut t, &mut self.tok);
            assert(self.tok@ =~= seq![]);
            self.take_token(t);
        }
    }

    fn end_line(&mut self)
        requires
            old(self).field <= 4,
        ensures
            final(self)@ == end_line(old(self)@),
            final(self).field <= 4,
    {
        self.end_token();
        if self.err.is_some() {
        } else if !self.header_done {
            self.header_done = self.field == 4;
            self.comment = false;
        } else if self.chan.len() > 0 {
            self.err = Some(FormatError::InvalidToken);
        } else {
            self.comment = false;
        }
    }

    fn step(&mut self, c: u8)
        requires
            old(self).field <= 4,
        ensures
            final(self)@ == step(old(self)@, c),
            final(self).field <= 4,
    {
        if self.err.is_some() {
        } else if self.binary && self.header_done {
            self.take_channel(c);
        } else if c == 10 {
            self.end_line();
        } else if self.comment {
        } else if c == 35 {
            self.end_token();
            self.comment = true;
        } else if c == 32 || c == 9 || c == 12 || c == 13 {
            self.end_token();
        } else {
            self.tok.push(c);
        }
    }
}

fn finish_scan(s: Scanner) -> (r: Result<Image, FormatError>)
    requires
        s.field <= 4,
    ensures
        match finish(s@) {
            Ok(m) => r is Ok && r->Ok_0@ == m,
            Err(e) => r == Err::<Image, FormatError>(e),
        },
{
    let mut s = s;
    if !(s.binary && s.header_done) {
        s.end_line();
    }
    if let Some(e) = s.err {
        return Err(e);
    }
    if s.field < 4 {
        return Err(FormatError::Truncated);
    }
    let n = s.pixels.len();
    let fits = match s.width.checked_mul(s.height) {
        Some(area) => area == n,
        None => false,
    };
    if !fits {
        return Err(
            FormatError::DimensionMismatch { pixels: n, width: s.width, height: s.height },
        );
    }
    Ok(Image::from_parts(s.tag, s.width, s.height, s.maxval, s.pixels))
}

/// Decodes `bytes`, with text or raw pixel data.
fn decode(bytes: &[u8], binary: bool) -> (r: Result<Image, FormatError>)
    ensures
        match decoded(bytes@, binary) {
            Ok(m) => r is Ok && r->Ok_0@ == m,
            Err(e) => r == Err::<Image, FormatError>(e),
        },
{
    let mut s = Scanner::new(binary);
    let mut i: usize = 0;
    while i < bytes.len()
        invariant
            i <= bytes@.len(),
            s.field <= 4,
            s@ == run(start(binary), bytes@.take(i as int)),
        decreases bytes@.len() - i,
    {
        s.step(bytes[i]);
        assert(bytes@.take(i + 1).drop_last() =~= bytes@.take(i as int));
        i += 1;
    }
    assert(bytes@.take(i as int) =~= bytes@);
    finish_scan(s)
}

/// The header as written: the tag `P` followed by `magic`, then the width and
/// height on one line and the largest value on the next.
pub open spec fn header_bytes(magic: u8, m: ImageModel) -> Seq<u8> {
    seq![80u8, magic, 10u8] + dec_digits(m.width as nat) + seq![32u8] + dec_digits(
        m.height as nat,
    ) + seq![10u8] + dec_digits(m.nb_colors as nat) + seq![10u8]
}

/// One pixel in text: `"R G B  "`.
pub open spec fn text_triple(p: Pixel) -> Seq<u8> {
    dec_digits(p.r as nat) + seq![32u8] + dec_digits(p.g as nat) + seq![32u8] + dec_digits(
        p.b as nat,
    ) + seq![32u8, 32u8]
}

/// Text pixel data. A line break comes before a pixel once `width` pixels
/// stand on the current line (`col` of them so far) or once the line's
/// length in bytes (`len`) is past 70.
pub open spec fn text_rows(px: Seq<Pixel>, width: nat, col: nat, len: nat) -> Seq<u8>
    decreases px.len(),
{
    if px.len() == 0 {
        seq![]
    } else {
        let brk = col == width || len > 70;
        let col0: nat = if brk {
            0
        } else {
            col
        };
        let len0: nat = if brk {
            0
        } else {
            len
        };
        (if brk {
            seq![10u8]
        } else {
            seq![]
        }) + text_triple(px[0]) + text_rows(
            px.drop_first(),
            width,
            col0 + 1,
            len0 + text_triple(px[0]).len(),
        )
    }
}

/// Raw pixel data: three bytes a pixel.
pub open spec fn raw_rows(px: Seq<Pixel>) -> Seq<u8>
    decreases px.len(),
{
    if px.len() == 0 {
        seq![]
    } else {
        seq![px[0].r, px[0].g, px[0].b] + raw_rows(px.drop_first())
    }
}

/// An image written as "P3".
pub open spec fn text_encoded(m: ImageModel) -> Seq<u8> {
    header_bytes(51, m) + text_rows(m.pixels, m.width as nat, 0, 0)
}

/// An image written as "P6".
pub open spec fn binary_encoded(m: ImageModel) -> Seq<u8> {
    header_bytes(54, m) + raw_rows(m.pixels)
}

fn push_header(out: &mut Vec<u8>, magic: u8, img: &Image)
    ensures
        final(out)@ == old(out)@ + header_bytes(magic, img@),
{
    out.push(80);
    out.push(magic);
    out.push(10);
    push_decimal(out, img.width());
    out.push(32);
    push_decimal(out, img.height());
    out.push(10);
    push_decimal(out, img.nb_colors());
    out.push(10);
    assert(final(out)@ =~= old(out)@ + header_bytes(magic, img@));
}

fn push_triple(out: &mut Vec<u8>, p: Pixel)
    ensures
        final(out)@ == old(out)@ + text_triple(p),
{
    push_decimal(out, p.r as usize);
    out.push(32);
    push_decimal(out, p.g as usize);
    out.push(32);
    push_decimal(out, p.b as usize);
    out.push(32);
    out.push(32);
    assert(final(out)@ =~= old(out)@ + text_triple(p));
}

impl Image {
    /// Decodes a "P3" image: text pixel data.
    pub fn decode_text(bytes: &[u8]) -> (r: Result<Image, FormatError>)
        ensures
            match decoded(bytes@, false) {
                Ok(m) => r is Ok && r->Ok_0@ == m,
                Err(e) => r == Err::<Image, FormatError>(e),
            },
            r is Ok ==> r->Ok_0@.pixels.len() == r->Ok_0@.width * r->Ok_0@.height,
    {
        decode(bytes, false)
    }

    /// Decodes a "P6" image: raw pixel data.
    pub fn decode_binary(bytes: &[u8]) -> (r: Result<Image, FormatError>)
        ensures
            match decoded(bytes@, true) {
                Ok(m) => r is Ok && r->Ok_0@ == m,
                Err(e) => r == Err::<Image, FormatError>(e),
            },
            r is Ok ==> r->Ok_0@.pixels.len() == r->Ok_0@.width * r->Ok_0@.height,
    {
        decode(bytes, true)
    }

    /// Encodes the image as "P3".
    pub fn encode_text(&self) -> (out: Vec<u8>)
        ensures
            out@ == text_encoded(self@),
    {
        let mut out: Vec<u8> = Vec::new();
        push_header(&mut out, 51, self);
        let ghost whole = text_encoded(self@);
        let px = self.pixels();
        let width = self.width();
        let mut col: usize = 0;
        let mut len: usize = 0;
        let mut i: usize = 0;
        assert(px@.skip(0) =~= px@);
        while i < px.len()
            invariant
                i <= px@.len(),
                col <= i,
                len <= 83,
                px@ == self@.pixels,
                width == self@.width,
                whole == text_encoded(self@),
                out@ + text_rows(px@.skip(i as int), width as nat, col as nat, len as nat) == whole,
            decreases px@.len() - i,
        {
            let ghost before = out@;
            let ghost rest = px@.skip(i as int);
            assert(rest.drop_first() =~= px@.skip(i + 1));
            assert(rest[0] == px@[i as int]);
            if col == width || len > 70 {
                out.push(10);
                col = 0;
                len = 0;
            }
            let at = out.len();
            push_triple(&mut out, px[i]);
            proof {
                lemma_byte_digits_len(px@[i as int].r as nat);
                lemma_byte_digits_len(px@[i as int].g as nat);
                lemma_byte_digits_len(px@[i as int].b as nat);
            }
            col += 1;
            len += out.len() - at;
            i += 1;
            let ghost tail = text_rows(px@.skip(i as int), width as nat, col as nat, len as nat);
            assert(out@ + tail =~= before + (out@.skip(before.len() as int) + tail));
        }
        assert(px@.skip(i as int) =~= Seq::<Pixel>::empty());
        assert(out@ + Seq::<u8>::empty() =~= out@);
        out
    }

    /// Encodes the image as "P6".
    pub fn encode_binary(&self) -> (out: Vec<u8>)
        ensures
            out@ == binary_encoded(self@),
    {
        let mut out: Vec<u8> = Vec::new();
        push_header(&mut out, 54, self);
        let ghost whole = binary_encoded(self@);
        let px = self.pixels();
        let mut i: usize = 0;
        assert(px@.skip(0) =~= px@);
        while i < px.len()
            invariant
                i <= px@.len(),
                px@ == self@.pixels,
                whole == binary_encoded(self@),
                out@ + raw_rows(px@.skip(i as int)) == whole,
            decreases px@.len() - i,
        {
            let ghost before = out@;
            let ghost rest = px@.skip(i as int);
            assert(rest.drop_first() =~= px@.skip(i + 1));
            assert(rest[0] == px@[i as int]);
            let p = px[i];
            out.push(p.r);
            out.push(p.g);
            out.push(p.b);
            i += 1;
            assert(out@ + raw_rows(px@.skip(i as int)) =~= before + raw_rows(rest));
        }
        assert(px@.skip(i as int) =~= Seq::<Pixel>::empty());
        assert(out@ + Seq::<u8>::empty() =~= out@);
        out
    }
}

} // verus!
