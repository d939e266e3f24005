//! Decoding line by line: a line is cut at its first `#`, what stays is split
//! into words at ASCII whitespace, and the words are taken in order.
use vstd::prelude::*;

use crate::codec::{decoded, end_line, end_token, finish, is_space, run, start, step, take_token, Scan};
use crate::image::ImageModel;
use crate::roundtrip::lemma_run_concat;
use crate::roundtrip::lexing;

verus! {

/// The line holds a `#`.
pub open spec fn has_hash(l: Seq<u8>) -> bool
    decreases l.len(),
{
    if l.len() == 0 {
        false
    } else {
        has_hash(l.drop_last()) || l.last() == 35
    }
}

/// The part of a line before its first `#`.
pub open spec fn before_hash(l: Seq<u8>) -> Seq<u8>
    decreases l.len(),
{
    if l.len() == 0 {
        l
    } else if has_hash(l.drop_last()) {
        before_hash(l.drop_last())
    } else if l.last() == 35 {
        l.drop_last()
    } else {
        l
    }
}

/// The bytes after the last whitespace: the word that `u` ends in, if any.
pub open spec fn last_word(u: Seq<u8>) -> Seq<u8>
    decreases u.len(),
{
    if u.len() == 0 || is_space(u.last()) {
        seq![]
    } else {
        last_word(u.drop_last()).push(u.last())
    }
}

/// The words of `u` that a whitespace byte has ended.
pub open spec fn ended_words(u: Seq<u8>) -> Seq<Seq<u8>>
    decreases u.len(),
{
    if u.len() == 0 {
        seq![]
    } else if is_space(u.last()) && last_word(u.drop_last()).len() > 0 {
        ended_words(u.drop_last()).push(last_word(u.drop_last()))
    } else {
        ended_words(u.drop_last())
    }
}

/// The words of `u`, in order: its longest runs of bytes other than ASCII
/// whitespace.
pub open spec fn words(u: Seq<u8>) -> Seq<Seq<u8>> {
    if last_word(u).len() > 0 {
        ended_words(u).push(last_word(u))
    } else {
        ended_words(u)
    }
}

/// The words taken one after the other, up to the first error.
pub open spec fn take_all(s: Scan, ws: Seq<Seq<u8>>) -> Scan
    decreases ws.len(),
{
    if ws.len() == 0 {
        s
    } else {
        take_token(take_all(s, ws.drop_last()), ws.last())
    }
}

proof fn lemma_take_all_keeps(s: Scan, ws: Seq<Seq<u8>>)
    ensures
        take_all(s, ws).tok == s.tok,
        take_all(s, ws).comment == s.comment,
        take_all(s, ws).binary == s.binary,
        take_all(s, ws).header_done == s.header_done,
        s.err is Some ==> take_all(s, ws) == s,
    decreases ws.len(),
{
    if ws.len() > 0 {
        lemma_take_all_keeps(s, ws.drop_last());
    }
}

proof fn lemma_take_all_push(s: Scan, ws: Seq<Seq<u8>>, w: Seq<u8>)
    ensures
        take_all(s, ws.push(w)) == take_token(take_all(s, ws), w),
{
    assert(ws.push(w).drop_last() =~= ws);
}

/// Where reading a line stands before its end: with a `#` met, every word
/// before it taken; else the ended words taken and the last one being read.
pub open spec fn line_prefix_ok(s: Scan, l: Seq<u8>) -> bool {
    let m = run(s, l);
    let u = before_hash(l);
    if has_hash(l) {
        let w = take_all(s, words(u));
        m.err == w.err && (w.err is None ==> m == (Scan { comment: true, ..w }))
    } else {
        let w = take_all(s, ended_words(u));
        m.err == w.err && (w.err is None ==> m == (Scan { tok: last_word(u), ..w }))
    }
}

proof fn lemma_line_prefix(s: Scan, l: Seq<u8>)
    requires
        lexing(s),
        s.tok.len() == 0,
        forall|i: int| 0 <= i < l.len() ==> l[i] != 10,
    ensures
        line_prefix_ok(s, l),
    decreases l.len(),
{
    if l.len() == 0 {
        assert(s.tok =~= Seq::<u8>::empty());
        assert(run(s, l) == s);
        assert(before_hash(l) == l);
        assert(ended_words(l) == Seq::<Seq<u8>>::empty());
        assert(last_word(l) == Seq::<u8>::empty());
    } else {
        let l0 = l.drop_last();
        let c = l.last();
        assert(c == l[l.len() - 1]);
        assert forall|i: int| 0 <= i < l0.len() implies l0[i] != 10 by {
            assert(l0[i] == l[i]);
        }
        lemma_line_prefix(s, l0);
        let m0 = run(s, l0);
        assert(run(s, l) == step(m0, c));
        assert(s.tok =~= Seq::<u8>::empty());
        if has_hash(l0) {
            let w = take_all(s, words(before_hash(l0)));
            lemma_take_all_keeps(s, words(before_hash(l0)));
            assert(before_hash(l) == before_hash(l0));
        } else {
            assert(before_hash(l0) == l0);
            let w0 = take_all(s, ended_words(l0));
            lemma_take_all_keeps(s, ended_words(l0));
            let p = last_word(l0);
            lemma_take_all_push(s, ended_words(l0), p);
            lemma_take_all_keeps(s, ended_words(l0).push(p));
            if w0.err is None {
                assert(m0 == (Scan { tok: p, ..w0 }));
                assert((Scan { tok: seq![], ..m0 }) == w0);
            }
            if c == 35 {
                assert(before_hash(l) == l0);
            } else {
                assert(before_hash(l) == l);
                if is_space(c) {
                    assert(last_word(l) == Seq::<u8>::empty());
                } else {
                    assert(last_word(l) == p.push(c));
                    assert(ended_words(l) == ended_words(l0));
                }
            }
        }
    }
}

/// Reading a line up to and including its line feed comes to the same as
/// taking, in order, the words of the part of the line before its first `#`,
/// then ending the line: the same error, and with none the same state.
pub proof fn lemma_line(s: Scan, l: Seq<u8>)
    requires
        lexing(s),
        s.tok.len() == 0,
        forall|i: int| 0 <= i < l.len() ==> l[i] != 10,
    ensures
        ({
            let m = run(s, l.push(10));
            let w = end_line(take_all(s, words(before_hash(l))));
            m.err == w.err && (w.err is None ==> m == w)
        }),
{
    lemma_line_prefix(s, l);
    assert(l.push(10).drop_last() =~= l);
    let u = before_hash(l);
    let m0 = run(s, l);
    lemma_take_all_keeps(s, words(u));
    lemma_take_all_keeps(s, ended_words(u));
    assert(s.tok =~= Seq::<u8>::empty());
    if !has_hash(l) {
        let w0 = take_all(s, ended_words(u));
        lemma_take_all_push(s, ended_words(u), last_word(u));
        if w0.err is None {
            assert((Scan { tok: seq![], ..m0 }) == w0);
        }
    }
}

/// One line read: its words before any `#` taken in order, then its end.
pub open spec fn read_line(s: Scan, l: Seq<u8>) -> Scan {
    end_line(take_all(s, words(before_hash(l))))
}

/// Lines read one after the other.
pub open spec fn read_lines(s: Scan, ls: Seq<Seq<u8>>) -> Scan
    decreases ls.len(),
{
    if ls.len() == 0 {
        s
    } else {
        read_line(read_lines(s, ls.drop_last()), ls.last())
    }
}

/// The lines written out, each followed by a line feed.
pub open spec fn joined(ls: Seq<Seq<u8>>) -> Seq<u8>
    decreases ls.len(),
{
    if ls.len() == 0 {
        seq![]
    } else {
        joined(ls.drop_last()) + ls.last().push(10)
    }
}

/// No line holds a line feed.
pub open spec fn single_lines(ls: Seq<Seq<u8>>) -> bool {
    forall|k: int, i: int| 0 <= k < ls.len() && 0 <= i < ls[k].len() ==> #[trigger] ls[k][i] != 10
}

proof fn lemma_run_after_error(s: Scan, b: Seq<u8>)
    requires
        s.err is Some,
    ensures
        run(s, b) == s,
    decreases b.len(),
{
    if b.len() > 0 {
        lemma_run_after_error(s, b.drop_last());
    }
}

proof fn lemma_lines(ls: Seq<Seq<u8>>)
    requires
        single_lines(ls),
    ensures
        ({
            let m = run(start(false), joined(ls));
            let r = read_lines(start(false), ls);
            &&& m.err == r.err
            &&& r.err is None ==> m == r
            &&& r.tok.len() == 0
            &&& !r.binary
            &&& r.err is None ==> !r.comment
        }),
    decreases ls.len(),
{
    let s0 = start(false);
    if ls.len() == 0 {
        assert(run(s0, Seq::<u8>::empty()) == s0);
    } else {
        let ls0 = ls.drop_last();
        let l = ls.last();
        assert forall|k: int, i: int| 0 <= k < ls0.len() && 0 <= i < ls0[k].len() implies #[trigger] ls0[k][i] != 10 by {
            assert(ls0[k] == ls[k]);
        }
        assert forall|i: int| 0 <= i < l.len() implies l[i] != 10 by {
            assert(l == ls[ls.len() - 1]);
        }
        lemma_lines(ls0);
        lemma_run_concat(s0, joined(ls0), l.push(10));
        let m0 = run(s0, joined(ls0));
        let r0 = read_lines(s0, ls0);
        let u = before_hash(l);
        lemma_take_all_keeps(r0, words(u));
        if r0.err is Some {
            lemma_run_after_error(m0, l.push(10));
        } else {
            assert(r0.tok =~= Seq::<u8>::empty());
            lemma_line(r0, l);
        }
    }
}

/// Decoding a text image written as lines, each ended by a line feed, comes
/// to reading its lines one by one: each cut at its first `#`, split into
/// words, the words taken in order (the first four as the header, the others
/// in triples that no line may cut), then the pixel count checked.
pub proof fn lemma_text_by_lines(ls: Seq<Seq<u8>>)
    requires
        single_lines(ls),
    ensures
        decoded(joined(ls), false) == finish(read_lines(start(false), ls)),
{
    lemma_lines(ls);
}

} // verus!
