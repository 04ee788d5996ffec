//! Line folding for the calendar format: a content line longer than 75
//! bytes is split into chunks, the first of up to 75 bytes, the rest of up
//! to 74, each continuation prefixed by CR, LF and one space; chunk
//! boundaries never split a character.

use vstd::prelude::*;

use crate::text::{join_with, replace_all, starts_with};

verus! {

/// UTF-8 byte width of one character.
pub open spec fn char_width(c: char) -> int {
    if (c as u32) < 0x80 {
        1
    } else if (c as u32) < 0x800 {
        2
    } else if (c as u32) < 0x10000 {
        3
    } else {
        4
    }
}

/// UTF-8 byte length of a character sequence.
pub open spec fn width_of(s: Seq<char>) -> int
    decreases s.len(),
{
    if s.len() == 0 {
        0
    } else {
        char_width(s[0]) + width_of(s.skip(1))
    }
}

/// The folding continuation marker: CR, LF, one space.
pub open spec fn fold_sep() -> Seq<char> {
    seq!['\r', '\n', ' ']
}

/// How many characters of `s` fit in `budget` bytes.
pub open spec fn chunk_len(s: Seq<char>, budget: int) -> int
    decreases s.len(),
{
    if s.len() == 0 {
        0
    } else if char_width(s[0]) > budget {
        0
    } else {
        1 + chunk_len(s.skip(1), budget - char_width(s[0]))
    }
}

pub proof fn lemma_chunk_len_bounds(s: Seq<char>, budget: int)
    ensures
        0 <= chunk_len(s, budget) <= s.len(),
        s.len() > 0 && budget >= 4 ==> chunk_len(s, budget) >= 1,
    decreases s.len(),
{
    if s.len() > 0 && char_width(s[0]) <= budget {
        lemma_chunk_len_bounds(s.skip(1), budget - char_width(s[0]));
    }
}

/// Byte width of the chunk that `chunk_len` selects stays within the budget.
pub proof fn lemma_chunk_width(s: Seq<char>, budget: int)
    requires
        budget >= 0,
    ensures
        width_of(s.take(chunk_len(s, budget))) <= budget,
    decreases s.len(),
{
    lemma_chunk_len_bounds(s, budget);
    if s.len() == 0 || char_width(s[0]) > budget {
        assert(s.take(0) =~= Seq::<char>::empty());
    } else {
        let k = chunk_len(s, budget);
        lemma_chunk_len_bounds(s.skip(1), budget - char_width(s[0]));
        lemma_chunk_width(s.skip(1), budget - char_width(s[0]));
        let t = s.take(k);
        assert(t.skip(1) =~= s.skip(1).take(k - 1));
        assert(width_of(t) == char_width(s[0]) + width_of(s.skip(1).take(k - 1)));
    }
}

/// The continuation chunks of a folded line, each preceded by the marker.
pub open spec fn fold_tail(s: Seq<char>) -> Seq<char>
    decreases s.len()
        via fold_tail_decreases
{
    if s.len() == 0 {
        Seq::empty()
    } else {
        let k = chunk_len(s, 74);
        fold_sep() + s.take(k) + fold_tail(s.skip(k))
    }
}

#[via_fn]
proof fn fold_tail_decreases(s: Seq<char>) {
    lemma_chunk_len_bounds(s, 74);
}

/// The folded form of a content line: unchanged when it fits 75 bytes,
/// otherwise split into budgeted chunks joined by the continuation marker.
pub open spec fn fold_spec(s: Seq<char>) -> Seq<char> {
    if s.len() == 0 {
        s
    } else {
        s.take(chunk_len(s, 75)) + fold_tail(s.skip(chunk_len(s, 75)))
    }
}

/// Byte width of one character.
fn char_width_exec(c: char) -> (w: usize)
    ensures
        w == char_width(c),
{
    let u = c as u32;
    if u < 0x80 {
        1
    } else if u < 0x800 {
        2
    } else if u < 0x10000 {
        3
    } else {
        4
    }
}

/// Counts how many characters of `s` from `pos` fit in `budget` bytes.
fn take_chunk(s: &str, pos: usize, budget: usize) -> (k: usize)
    requires
        pos <= s@.len(),
    ensures
        k == chunk_len(s@.skip(pos as int), budget as int),
        pos + k <= s@.len(),
{
    let n = s.unicode_len();
    let mut j: usize = pos;
    let mut w: usize = 0;
    let mut stop = false;
    while !stop && j < n
        invariant
            pos <= j <= n,
            n == s@.len(),
            0 <= w <= budget,
            chunk_len(s@.skip(pos as int), budget as int) == (j - pos) + if stop {
                0int
            } else {
                chunk_len(s@.skip(j as int), budget - w)
            },
            stop ==> chunk_len(s@.skip(j as int), budget - w) == 0 || j == n,
        decreases (n - j) + if stop {
            0int
        } else {
            1int
        },
    {
        let c = s.get_char(j);
        let cw = char_width_exec(c);
        let ghost tail = s@.skip(j as int);
        proof {
            assert(tail.len() == n - j);
            assert(tail[0] == s@[j as int]);
            assert(tail.skip(1) =~= s@.skip(j + 1));
        }
        if cw > budget - w {
            stop = true;
            proof {
                assert(chunk_len(tail, budget - w) == 0);
            }
        } else {
            w += cw;
            j += 1;
        }
    }
    proof {
        if !stop {
            assert(s@.skip(n as int) =~= Seq::<char>::empty());
        }
        lemma_chunk_len_bounds(s@.skip(pos as int), budget as int);
    }
    j - pos
}

/// Folds an assembled content line, per the calendar format's 75-byte rule.
pub fn fold_line(line: &str) -> (r: String)
    ensures
        r@ == fold_spec(line@),
{
    let n = line.unicode_len();
    if n == 0 {
        return String::new();
    }
    let k = take_chunk(line, 0, 75);
    proof {
        assert(line@.skip(0) =~= line@);
    }
    let mut out = line.substring_char(0, k).to_owned();
    let mut pos = k;
    while pos < n
        invariant
            0 <= pos <= n,
            n == line@.len(),
            out@ + fold_tail(line@.skip(pos as int)) == fold_spec(line@),
        decreases n - pos,
    {
        let ghost tail = line@.skip(pos as int);
        let k2 = take_chunk(line, pos, 74);
        proof {
            lemma_chunk_len_bounds(tail, 74);
        }
        out.append("\r\n ");
        let piece = line.substring_char(pos, pos + k2);
        out.append(piece);
        proof {
            reveal_strlit("\r\n ");
            assert("\r\n "@ =~= fold_sep());
            assert(tail.take(k2 as int) =~= line@.subrange(pos as int, pos + k2));
            assert(tail.skip(k2 as int) =~= line@.skip(pos + k2));
            assert(out@ + fold_tail(line@.skip(pos + k2)) =~= fold_spec(line@));
        }
        pos += k2;
    }
    proof {
        assert(line@.skip(n as int) =~= Seq::<char>::empty());
        assert(out@ =~= fold_spec(line@));
    }
    out
}

/// True when `s` holds no carriage return.
pub open spec fn no_cr(s: Seq<char>) -> bool {
    forall|i: int| 0 <= i < s.len() ==> s[i] != '\r'
}

proof fn lemma_replace_crfree_prefix(a: Seq<char>, t: Seq<char>, pat: Seq<char>)
    requires
        pat.len() >= 1,
        pat[0] == '\r',
        no_cr(a),
    ensures
        replace_all(a + t, pat, Seq::empty()) == a + replace_all(t, pat, Seq::empty()),
    decreases a.len(),
{
    if a.len() == 0 {
        assert(a + t =~= t);
        assert(a + replace_all(t, pat, Seq::empty()) =~= replace_all(t, pat, Seq::empty()));
    } else {
        let s = a + t;
        assert(s[0] == a[0]);
        assert(a[0] != '\r');
        assert(!starts_with(s, pat)) by {
            if starts_with(s, pat) {
                assert(s.subrange(0, pat.len() as int)[0] == pat[0]);
            }
        }
        assert(no_cr(a.skip(1))) by {
            assert(forall|i: int| 0 <= i < a.skip(1).len() ==> a.skip(1)[i] == a[i + 1]);
        }
        assert(s.skip(1) =~= a.skip(1) + t);
        lemma_replace_crfree_prefix(a.skip(1), t, pat);
        assert(seq![s[0]] + (a.skip(1) + replace_all(t, pat, Seq::empty())) =~= a + replace_all(
            t,
            pat,
            Seq::empty(),
        ));
    }
}

proof fn lemma_replace_sep_head(t: Seq<char>)
    ensures
        replace_all(fold_sep() + t, fold_sep(), Seq::empty()) == replace_all(
            t,
            fold_sep(),
            Seq::empty(),
        ),
{
    let s = fold_sep() + t;
    assert(starts_with(s, fold_sep())) by {
        assert(s.subrange(0, 3) =~= fold_sep());
    }
    assert(s.skip(3) =~= t);
    assert(Seq::<char>::empty() + replace_all(t, fold_sep(), Seq::empty()) =~= replace_all(
        t,
        fold_sep(),
        Seq::empty(),
    ));
}

proof fn lemma_no_cr_parts(s: Seq<char>, k: int)
    requires
        no_cr(s),
        0 <= k <= s.len(),
    ensures
        no_cr(s.take(k)),
        no_cr(s.skip(k)),
{
    assert(forall|i: int| 0 <= i < k ==> s.take(k)[i] == s[i]);
    assert(forall|i: int| 0 <= i < s.len() - k ==> s.skip(k)[i] == s[i + k]);
}

proof fn lemma_unfold_fold_tail(x: Seq<char>)
    requires
        no_cr(x),
    ensures
        replace_all(fold_tail(x), fold_sep(), Seq::empty()) == x,
    decreases x.len(),
{
    if x.len() == 0 {
        assert(fold_tail(x) == Seq::<char>::empty());
        assert(replace_all(fold_tail(x), fold_sep(), Seq::empty()) =~= x);
    } else {
        let k = chunk_len(x, 74);
        lemma_chunk_len_bounds(x, 74);
        let c = x.take(k);
        let rest = x.skip(k);
        lemma_no_cr_parts(x, k);
        lemma_unfold_fold_tail(rest);
        assert(fold_tail(x) =~= fold_sep() + (c + fold_tail(rest)));
        lemma_replace_sep_head(c + fold_tail(rest));
        lemma_replace_crfree_prefix(c, fold_tail(rest), fold_sep());
        assert(c + rest =~= x);
    }
}

/// Folding is reversible: for a content line without carriage returns,
/// removing every folding marker from the folded form, leftmost first,
/// recovers the line exactly.
pub proof fn lemma_unfold_fold(line: Seq<char>)
    requires
        no_cr(line),
    ensures
        replace_all(fold_spec(line), fold_sep(), Seq::empty()) == line,
{
    if line.len() == 0 {
        assert(replace_all(fold_spec(line), fold_sep(), Seq::empty()) =~= line);
    } else {
        let k = chunk_len(line, 75);
        lemma_chunk_len_bounds(line, 75);
        let c = line.take(k);
        let rest = line.skip(k);
        lemma_no_cr_parts(line, k);
        lemma_unfold_fold_tail(rest);
        lemma_replace_crfree_prefix(c, fold_tail(rest), fold_sep());
        assert(c + rest =~= line);
    }
}

/// The continuation chunks of a folded line.
pub open spec fn tail_chunks(s: Seq<char>) -> Seq<Seq<char>>
    decreases s.len()
        via tail_chunks_decreases
{
    if s.len() == 0 {
        Seq::empty()
    } else {
        seq![s.take(chunk_len(s, 74))] + tail_chunks(s.skip(chunk_len(s, 74)))
    }
}

#[via_fn]
proof fn tail_chunks_decreases(s: Seq<char>) {
    lemma_chunk_len_bounds(s, 74);
}

/// The chunks of a folded line: the folded form is their join by the
/// marker, so the physical lines of the folded output are the first chunk
/// and, for each later chunk, a single space followed by that chunk.
pub open spec fn fold_chunks(s: Seq<char>) -> Seq<Seq<char>> {
    if s.len() == 0 {
        seq![s]
    } else {
        seq![s.take(chunk_len(s, 75))] + tail_chunks(s.skip(chunk_len(s, 75)))
    }
}

proof fn lemma_fold_tail_join(x: Seq<char>)
    ensures
        tail_chunks(x).len() == 0 ==> fold_tail(x) == Seq::<char>::empty(),
        tail_chunks(x).len() > 0 ==> fold_tail(x) == fold_sep() + join_with(
            tail_chunks(x),
            fold_sep(),
        ),
    decreases x.len(),
{
    if x.len() != 0 {
        let k = chunk_len(x, 74);
        lemma_chunk_len_bounds(x, 74);
        let c = x.take(k);
        let rest = x.skip(k);
        lemma_fold_tail_join(rest);
        let tcs = tail_chunks(x);
        assert(tcs[0] == c);
        assert(tcs.skip(1) =~= tail_chunks(rest));
        if tail_chunks(rest).len() == 0 {
            assert(tcs.len() == 1);
            assert(fold_tail(x) =~= fold_sep() + join_with(tcs, fold_sep()));
        } else {
            assert(join_with(tcs, fold_sep()) == c + fold_sep() + join_with(
                tail_chunks(rest),
                fold_sep(),
            ));
            assert(fold_tail(x) =~= fold_sep() + join_with(tcs, fold_sep()));
        }
    }
}

proof fn lemma_tail_chunks_width(x: Seq<char>)
    ensures
        forall|i: int|
            0 <= i < tail_chunks(x).len() ==> width_of(#[trigger] tail_chunks(x)[i]) <= 74,
    decreases x.len(),
{
    if x.len() != 0 {
        let k = chunk_len(x, 74);
        lemma_chunk_len_bounds(x, 74);
        lemma_chunk_width(x, 74);
        lemma_tail_chunks_width(x.skip(k));
        assert(forall|i: int|
            1 <= i < tail_chunks(x).len() ==> tail_chunks(x)[i] == tail_chunks(x.skip(k))[i - 1]);
    }
}

/// Every physical line of a folded line fits 75 bytes: the folded form is
/// the join of its chunks by the marker, the first chunk takes at most 75
/// bytes, and every later chunk at most 74, which leaves room for the
/// continuation line's leading space.
pub proof fn lemma_fold_widths(s: Seq<char>)
    ensures
        fold_spec(s) == join_with(fold_chunks(s), fold_sep()),
        fold_chunks(s).len() >= 1,
        width_of(fold_chunks(s)[0]) <= 75,
        forall|i: int| 1 <= i < fold_chunks(s).len() ==> width_of(#[trigger] fold_chunks(s)[i]) + 1
            <= 75,
{
    if s.len() == 0 {
        assert(fold_chunks(s) == seq![s]);
        assert(join_with(seq![s], fold_sep()) == s);
    } else {
        let k = chunk_len(s, 75);
        lemma_chunk_len_bounds(s, 75);
        lemma_chunk_width(s, 75);
        let c = s.take(k);
        let rest = s.skip(k);
        lemma_fold_tail_join(rest);
        lemma_tail_chunks_width(rest);
        let cs = fold_chunks(s);
        assert(cs[0] == c);
        assert(cs.skip(1) =~= tail_chunks(rest));
        assert(forall|i: int| 1 <= i < cs.len() ==> cs[i] == tail_chunks(rest)[i - 1]);
        if tail_chunks(rest).len() == 0 {
            assert(cs.len() == 1);
            assert(fold_tail(rest) == Seq::<char>::empty());
            assert(fold_spec(s) =~= join_with(cs, fold_sep()));
        } else {
            assert(join_with(cs, fold_sep()) == c + fold_sep() + join_with(
                tail_chunks(rest),
                fold_sep(),
            ));
            assert(fold_spec(s) =~= join_with(cs, fold_sep()));
        }
    }
}

proof fn lemma_width_nonneg(s: Seq<char>)
    ensures
        width_of(s) >= s.len(),
    decreases s.len(),
{
    if s.len() > 0 {
        lemma_width_nonneg(s.skip(1));
    }
}

proof fn lemma_chunk_len_all(s: Seq<char>, budget: int)
    requires
        width_of(s) <= budget,
    ensures
        chunk_len(s, budget) == s.len(),
    decreases s.len(),
{
    if s.len() > 0 {
        lemma_width_nonneg(s.skip(1));
        lemma_chunk_len_all(s.skip(1), budget - char_width(s[0]));
    }
}

/// A content line of at most 75 bytes folds to itself.
pub proof fn lemma_fold_short_identity(s: Seq<char>)
    requires
        width_of(s) <= 75,
    ensures
        fold_spec(s) == s,
{
    if s.len() > 0 {
        lemma_chunk_len_all(s, 75);
        assert(s.take(s.len() as int) =~= s);
        assert(s.skip(s.len() as int) =~= Seq::<char>::empty());
        assert(s.take(s.len() as int) + fold_tail(s.skip(s.len() as int)) =~= s);
    }
}

/// The byte width folding counts is the UTF-8 byte length.
pub proof fn lemma_width_is_utf8_len(s: Seq<char>)
    ensures
        width_of(s) == vstd::utf8::encode_utf8(s).len(),
    decreases s.len(),
{
    if s.len() > 0 {
        lemma_width_is_utf8_len(s.skip(1));
        assert(s.drop_first() =~= s.skip(1));
        vstd::utf8::char_is_scalar(s[0]);
        assert(vstd::utf8::encode_scalar(s[0] as u32).len() == char_width(s[0]));
    }
}

} // verus!
