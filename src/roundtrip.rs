//! Decoding what was encoded gives the image back.
use vstd::prelude::*;

use crate::codec::{
    binary_encoded, decoded, header_bytes, raw_rows, run, start, step, text_encoded, text_rows,
    text_triple, Scan,
};
use crate::decimal::dec_digits;
use crate::image::ImageModel;
use crate::number::{all_digits, lemma_digits_value, number_of};
use crate::pixel::Pixel;

verus! {

/// Reading `a` then `b` is reading `a + b`.
pub proof fn lemma_run_concat(s: Scan, a: Seq<u8>, b: Seq<u8>)
    ensures
        run(s, a + b) == run(run(s, a), b),
    decreases b.len(),
{
    if b.len() == 0 {
        assert(a + b =~= a);
    } else {
        assert((a + b).drop_last() =~= a + b.drop_last());
        assert((a + b).last() == b.last());
        lemma_run_concat(s, a, b.drop_last());
    }
}

/// The state is reading a token: no error, no comment, not raw pixel data.
pub open spec fn lexing(s: Scan) -> bool {
    &&& s.err is None
    &&& !s.comment
    &&& !(s.binary && s.header_done)
}

proof fn lemma_run_digits(s: Scan, w: Seq<u8>)
    requires
        lexing(s),
        all_digits(w),
    ensures
        run(s, w) == (Scan { tok: s.tok + w, ..s }),
    decreases w.len(),
{
    if w.len() == 0 {
        assert(s.tok + w =~= s.tok);
    } else {
        lemma_run_digits(s, w.drop_last());
        assert(w.last() == w[w.len() - 1]);
        assert((s.tok + w.drop_last()).push(w.last()) =~= s.tok + w);
    }
}

proof fn lemma_run_one(s: Scan, c: u8)
    ensures
        run(s, seq![c]) == step(s, c),
{
    assert(seq![c].drop_last() =~= Seq::<u8>::empty());
    assert(run(s, Seq::<u8>::empty()) == s);
    assert(seq![c].last() == c);
}

/// A number in decimal followed by a separator: the token is complete.
proof fn lemma_run_number(s: Scan, n: nat, c: u8)
    requires
        lexing(s),
        s.tok.len() == 0,
        c == 10 || c == 32,
    ensures
        run(s, dec_digits(n) + seq![c]) == step(Scan { tok: dec_digits(n), ..s }, c),
        number_of(dec_digits(n), n) == Some(n),
{
    lemma_digits_value(n);
    lemma_run_concat(s, dec_digits(n), seq![c]);
    lemma_run_digits(s, dec_digits(n));
    assert(s.tok + dec_digits(n) =~= dec_digits(n));
    lemma_run_one(Scan { tok: dec_digits(n), ..s }, c);
}

proof fn lemma_number_fits(n: nat, max: nat)
    requires
        n <= max,
    ensures
        number_of(dec_digits(n), max) == Some(n),
{
    lemma_digits_value(n);
}

/// The state after a header that was written for `m`.
pub open spec fn after_header(binary: bool, magic: u8, m: ImageModel) -> Scan {
    Scan {
        binary,
        err: None,
        field: 4,
        header_done: true,
        comment: false,
        tok: seq![],
        tag: seq![80u8, magic],
        width: m.width,
        height: m.height,
        maxval: m.nb_colors,
        chan: seq![],
        pixels: seq![],
    }
}

proof fn lemma_header(binary: bool, magic: u8, m: ImageModel)
    requires
        magic == 51 || magic == 54,
    ensures
        run(start(binary), header_bytes(magic, m)) == after_header(binary, magic, m),
{
    let s0 = start(binary);
    let tag = seq![80u8, magic];
    let seg1 = tag + seq![10u8];
    let seg2 = dec_digits(m.width as nat) + seq![32u8];
    let seg3 = dec_digits(m.height as nat) + seq![10u8];
    let seg4 = dec_digits(m.nb_colors as nat) + seq![10u8];
    assert(header_bytes(magic, m) =~= seg1 + seg2 + seg3 + seg4);
    lemma_run_concat(s0, seg1 + seg2 + seg3, seg4);
    lemma_run_concat(s0, seg1 + seg2, seg3);
    lemma_run_concat(s0, seg1, seg2);

    lemma_run_concat(s0, tag, seq![10u8]);
    assert(tag =~= seq![80u8] + seq![magic]);
    lemma_run_concat(s0, seq![80u8], seq![magic]);
    lemma_run_one(s0, 80u8);
    lemma_run_one(run(s0, seq![80u8]), magic);
    assert(s0.tok.push(80u8).push(magic) =~= tag);
    lemma_run_one(run(s0, tag), 10u8);
    let s1 = run(s0, seg1);
    assert(s1 == (Scan { tag, field: 1, ..s0 }));

    lemma_number_fits(m.width as nat, usize::MAX as nat);
    lemma_run_number(s1, m.width as nat, 32u8);
    let s2 = run(s1, seg2);
    assert(s2 == (Scan { width: m.width, field: 2, ..s1 }));

    lemma_number_fits(m.height as nat, usize::MAX as nat);
    lemma_run_number(s2, m.height as nat, 10u8);
    let s3 = run(s2, seg3);
    assert(s3 == (Scan { height: m.height, field: 3, ..s2 }));

    lemma_number_fits(m.nb_colors as nat, usize::MAX as nat);
    lemma_run_number(s3, m.nb_colors as nat, 10u8);
    let s4 = run(s3, seg4);
    assert(s4 == after_header(binary, magic, m));
}

/// Ready for the next text pixel: between triples, at no token.
pub open spec fn text_ready(s: Scan) -> bool {
    &&& lexing(s)
    &&& s.header_done
    &&& s.tok.len() == 0
    &&& s.chan.len() == 0
}

proof fn lemma_text_triple(s: Scan, p: Pixel)
    requires
        text_ready(s),
    ensures
        run(s, text_triple(p)) == (Scan { pixels: s.pixels.push(p), ..s }),
{
    let a = dec_digits(p.r as nat) + seq![32u8];
    let b = dec_digits(p.g as nat) + seq![32u8];
    let c = dec_digits(p.b as nat) + seq![32u8];
    assert(text_triple(p) =~= a + b + c + seq![32u8]);
    lemma_run_concat(s, a + b + c, seq![32u8]);
    lemma_run_concat(s, a + b, c);
    lemma_run_concat(s, a, b);

    assert(s.chan =~= Seq::<u8>::empty());
    assert(s.tok =~= Seq::<u8>::empty());
    assert(s.chan.push(p.r) =~= seq![p.r]);
    assert(seq![p.r].push(p.g) =~= seq![p.r, p.g]);
    lemma_number_fits(p.r as nat, 255);
    lemma_run_number(s, p.r as nat, 32u8);
    let s1 = run(s, a);
    assert(s1 == (Scan { chan: seq![p.r], ..s }));

    lemma_number_fits(p.g as nat, 255);
    lemma_run_number(s1, p.g as nat, 32u8);
    let s2 = run(s1, b);
    assert(s2 == (Scan { chan: seq![p.r, p.g], ..s }));

    lemma_number_fits(p.b as nat, 255);
    lemma_run_number(s2, p.b as nat, 32u8);
    let s3 = run(s2, c);
    assert(s3 == (Scan { pixels: s.pixels.push(p), ..s }));

    lemma_run_one(s3, 32u8);
}

proof fn lemma_text_rows(s: Scan, px: Seq<Pixel>, width: nat, col: nat, len: nat)
    requires
        text_ready(s),
        !s.binary,
    ensures
        run(s, text_rows(px, width, col, len)) == (Scan { pixels: s.pixels + px, ..s }),
    decreases px.len(),
{
    if px.len() == 0 {
        assert(s.pixels + px =~= s.pixels);
        assert(run(s, Seq::<u8>::empty()) == s);
    } else {
        let brk = col == width || len > 70;
        let col0: nat = if brk {
            0
        } else {
            col
        };
        let len0: nat = if brk {
            0
        } else {
            len
        };
        let nl = if brk {
            seq![10u8]
        } else {
            Seq::<u8>::empty()
        };
        let p = px[0];
        let rest = text_rows(px.drop_first(), width, col0 + 1, len0 + text_triple(p).len());
        assert(text_rows(px, width, col, len) == nl + text_triple(p) + rest);
        lemma_run_concat(s, nl + text_triple(p), rest);
        lemma_run_concat(s, nl, text_triple(p));
        if brk {
            lemma_run_one(s, 10u8);
        }
        assert(run(s, Seq::<u8>::empty()) == s);
        assert(run(s, nl) == s);
        lemma_text_triple(s, p);
        let s1 = Scan { pixels: s.pixels.push(p), ..s };
        lemma_text_rows(s1, px.drop_first(), width, col0 + 1, len0 + text_triple(p).len());
        assert(s1.pixels + px.drop_first() =~= s.pixels + px);
    }
}

proof fn lemma_raw_rows(s: Scan, px: Seq<Pixel>)
    requires
        s.err is None,
        s.binary,
        s.header_done,
        s.chan.len() == 0,
    ensures
        run(s, raw_rows(px)) == (Scan { pixels: s.pixels + px, ..s }),
    decreases px.len(),
{
    if px.len() == 0 {
        assert(s.pixels + px =~= s.pixels);
        assert(run(s, Seq::<u8>::empty()) == s);
    } else {
        let p = px[0];
        let rest = raw_rows(px.drop_first());
        assert(raw_rows(px) == seq![p.r, p.g, p.b] + rest);
        assert(seq![p.r, p.g, p.b] =~= seq![p.r] + seq![p.g] + seq![p.b]);
        lemma_run_concat(s, seq![p.r, p.g, p.b], rest);
        lemma_run_concat(s, seq![p.r] + seq![p.g], seq![p.b]);
        lemma_run_concat(s, seq![p.r], seq![p.g]);
        assert(s.chan =~= Seq::<u8>::empty());
        assert(s.chan.push(p.r) =~= seq![p.r]);
        assert(seq![p.r].push(p.g) =~= seq![p.r, p.g]);
        lemma_run_one(s, p.r);
        let s1 = run(s, seq![p.r]);
        lemma_run_one(s1, p.g);
        let s2 = run(s1, seq![p.g]);
        assert(s2 == (Scan { chan: seq![p.r, p.g], ..s }));
        lemma_run_one(s2, p.b);
        let s3 = Scan { pixels: s.pixels.push(p), ..s };
        assert(run(s2, seq![p.b]) == s3);
        lemma_raw_rows(s3, px.drop_first());
        assert(s3.pixels + px.drop_first() =~= s.pixels + px);
    }
}

/// An image whose pixel count matches its dimensions, written as "P3" and
/// read back, keeps its dimensions, largest value and pixels, with the tag "P3".
pub proof fn lemma_text_round_trip(m: ImageModel)
    requires
        m.pixels.len() == m.width * m.height,
    ensures
        decoded(text_encoded(m), false) == Ok::<ImageModel, crate::codec::FormatError>(
            ImageModel { tag: seq![80u8, 51u8], ..m },
        ),
{
    let h = after_header(false, 51u8, m);
    lemma_run_concat(start(false), header_bytes(51u8, m), text_rows(m.pixels, m.width as nat, 0, 0));
    lemma_header(false, 51u8, m);
    lemma_text_rows(h, m.pixels, m.width as nat, 0, 0);
    assert(h.pixels + m.pixels =~= m.pixels);
}

/// An image whose pixel count matches its dimensions, written as "P6" and
/// read back, keeps its dimensions, largest value and pixels, with the tag "P6".
pub proof fn lemma_binary_round_trip(m: ImageModel)
    requires
        m.pixels.len() == m.width * m.height,
    ensures
        decoded(binary_encoded(m), true) == Ok::<ImageModel, crate::codec::FormatError>(
            ImageModel { tag: seq![80u8, 54u8], ..m },
        ),
{
    let h = after_header(true, 54u8, m);
    lemma_run_concat(start(true), header_bytes(54u8, m), raw_rows(m.pixels));
    lemma_header(true, 54u8, m);
    lemma_raw_rows(h, m.pixels);
    assert(h.pixels + m.pixels =~= m.pixels);
}

} // verus!
