//! Character-sequence utilities: substring search, replacement, splitting,
//! trimming, joining, and decimal rendering, each with an exact contract.

use vstd::prelude::*;

verus! {

/// True when `p` is a prefix of `s`.
pub open spec fn starts_with(s: Seq<char>, p: Seq<char>) -> bool {
    p.len() <= s.len() && s.subrange(0, p.len() as int) == p
}

/// True when `p` occurs as a contiguous subsequence of `s`.
pub open spec fn contains_seq(s: Seq<char>, p: Seq<char>) -> bool {
    exists|i: int| 0 <= i && i + p.len() <= s.len() && #[trigger] s.subrange(i, i + p.len()) == p
}

/// Leftmost, non-overlapping replacement of `pat` by `rep`, as `str::replace`
/// performs it.
pub open spec fn replace_all(s: Seq<char>, pat: Seq<char>, rep: Seq<char>) -> Seq<char>
    decreases s.len(),
        when pat.len() >= 1
{
    if s.len() == 0 {
        Seq::empty()
    } else if starts_with(s, pat) {
        rep + replace_all(s.skip(pat.len() as int), pat, rep)
    } else {
        seq![s[0]] + replace_all(s.skip(1), pat, rep)
    }
}

/// Whether `pat` matches `s` at character position `i`.
fn matches_at(s: &str, pat: &str, i: usize) -> (r: bool)
    requires
        i <= s@.len(),
    ensures
        r == (i + pat@.len() <= s@.len() && s@.subrange(
            i as int,
            i + pat@.len(),
        ) == pat@),
{
    let n = s.unicode_len();
    let plen = pat.unicode_len();
    if plen > n - i {
        return false;
    }
    let mut j: usize = 0;
    while j < plen
        invariant
            0 <= j <= plen,
            i + plen <= s@.len(),
            plen == pat@.len(),
            n == s@.len(),
            forall|k: int| 0 <= k < j ==> s@[i + k] == pat@[k],
        decreases plen - j,
    {
        if s.get_char(i + j) != pat.get_char(j) {
            assert(s@.subrange(i as int, i + pat@.len())[j as int] != pat@[j as int]);
            return false;
        }
        j += 1;
    }
    assert(s@.subrange(i as int, i + pat@.len()) =~= pat@);
    true
}

/// Replaces every occurrence of `pat` in `s` by `rep`, leftmost first,
/// non-overlapping.
pub fn replace_str(s: &str, pat: &str, rep: &str) -> (r: String)
    requires
        pat@.len() >= 1,
    ensures
        r@ == replace_all(s@, pat@, rep@),
{
    let n = s.unicode_len();
    let plen = pat.unicode_len();
    let mut out = String::new();
    let mut i: usize = 0;
    assert(s@.skip(0) =~= s@);
    assert(out@ + replace_all(s@, pat@, rep@) =~= replace_all(s@, pat@, rep@));
    while i < n
        invariant
            0 <= i <= n,
            n == s@.len(),
            plen == pat@.len(),
            plen >= 1,
            replace_all(s@, pat@, rep@) == out@ + replace_all(s@.skip(i as int), pat@, rep@),
        decreases n - i,
    {
        let tail = Ghost(s@.skip(i as int));
        if matches_at(s, pat, i) {
            assert(starts_with(tail@, pat@)) by {
                assert(tail@.subrange(0, pat@.len() as int) =~= s@.subrange(
                    i as int,
                    i + pat@.len(),
                ));
            }
            out.append(rep);
            assert(tail@.skip(plen as int) =~= s@.skip(i + plen));
            i += plen;
        } else {
            assert(!starts_with(tail@, pat@)) by {
                if starts_with(tail@, pat@) {
                    assert(tail@.subrange(0, pat@.len() as int) =~= s@.subrange(
                        i as int,
                        i + pat@.len(),
                    ));
                }
            }
            let piece = s.substring_char(i, i + 1);
            out.append(piece);
            assert(seq![tail@[0]] =~= s@.subrange(i as int, i + 1));
            assert(tail@.skip(1) =~= s@.skip(i + 1));
            i += 1;
        }
    }
    assert(s@.skip(n as int) =~= Seq::<char>::empty());
    assert(out@ =~= out@ + replace_all(s@.skip(n as int), pat@, rep@));
    out
}

/// Whether `s` contains `pat` as a contiguous subsequence.
pub fn contains_str(s: &str, pat: &str) -> (r: bool)
    ensures
        r == contains_seq(s@, pat@),
{
    let n = s.unicode_len();
    let plen = pat.unicode_len();
    if plen == 0 {
        assert(contains_seq(s@, pat@)) by {
            assert(s@.subrange(0, 0 + pat@.len() as int) =~= pat@);
        }
        return true;
    }
    if plen > n {
        return false;
    }
    let mut i: usize = 0;
    while i <= n - plen
        invariant
            0 <= i <= n,
            plen <= n,
            n == s@.len(),
            plen == pat@.len(),
            plen >= 1,
            forall|k: int| 0 <= k < i ==> #[trigger] s@.subrange(k, k + pat@.len()) != pat@,
        decreases n - i,
    {
        if matches_at(s, pat, i) {
            return true;
        }
        i += 1;
    }
    false
}

/// Index of the first occurrence of `c` in `s`, or -1 when there is none.
pub open spec fn find_char(s: Seq<char>, c: char) -> int
    decreases s.len(),
{
    if s.len() == 0 {
        -1
    } else if s[0] == c {
        0
    } else {
        let r = find_char(s.skip(1), c);
        if r < 0 {
            -1
        } else {
            1 + r
        }
    }
}

pub proof fn lemma_find_char(s: Seq<char>, c: char)
    ensures
        -1 <= find_char(s, c) < s.len(),
        find_char(s, c) >= 0 ==> s[find_char(s, c)] == c,
        forall|j: int| 0 <= j < find_char(s, c) ==> s[j] != c,
        find_char(s, c) == -1 ==> forall|j: int| 0 <= j < s.len() ==> s[j] != c,
    decreases s.len(),
{
    if s.len() != 0 && s[0] != c {
        lemma_find_char(s.skip(1), c);
        assert(forall|j: int| 1 <= j < s.len() ==> s[j] == s.skip(1)[j - 1]);
    }
}

/// The pieces of `s` between occurrences of `c`; always at least one piece.
pub open spec fn split_char(s: Seq<char>, c: char) -> Seq<Seq<char>>
    decreases s.len()
        via split_char_decreases
{
    let i = find_char(s, c);
    if i < 0 {
        seq![s]
    } else {
        seq![s.take(i)] + split_char(s.skip(i + 1), c)
    }
}

#[via_fn]
proof fn split_char_decreases(s: Seq<char>, c: char) {
    lemma_find_char(s, c);
}

/// The Unicode white-space characters, as `char::is_whitespace` reports them.
pub open spec fn is_space_char(c: char) -> bool {
    c == ' ' || c == '\t' || c == '\n' || c == '\u{b}' || c == '\u{c}' || c == '\r' || c
        == '\u{85}' || c == '\u{a0}' || c == '\u{1680}' || ('\u{2000}' <= c && c <= '\u{200a}') || c
        == '\u{2028}' || c == '\u{2029}' || c == '\u{202f}' || c == '\u{205f}' || c == '\u{3000}'
}

/// Whether `c` is Unicode white space.
pub fn is_space(c: char) -> (r: bool)
    ensures
        r == is_space_char(c),
{
    c == ' ' || c == '\t' || c == '\n' || c == '\u{b}' || c == '\u{c}' || c == '\r' || c == '\u{85}'
        || c == '\u{a0}' || c == '\u{1680}' || ('\u{2000}' <= c && c <= '\u{200a}') || c
        == '\u{2028}' || c == '\u{2029}' || c == '\u{202f}' || c == '\u{205f}' || c == '\u{3000}'
}

/// `s` without leading white space.
pub open spec fn trim_start(s: Seq<char>) -> Seq<char>
    decreases s.len(),
{
    if s.len() > 0 && is_space_char(s[0]) {
        trim_start(s.skip(1))
    } else {
        s
    }
}

/// `s` without trailing white space.
pub open spec fn trim_end(s: Seq<char>) -> Seq<char>
    decreases s.len(),
{
    if s.len() > 0 && is_space_char(s[s.len() - 1]) {
        trim_end(s.take(s.len() - 1))
    } else {
        s
    }
}

/// `s` without leading and trailing white space, as `str::trim` gives it.
pub open spec fn trim_spec(s: Seq<char>) -> Seq<char> {
    trim_end(trim_start(s))
}

proof fn lemma_trim_start_skip(s: Seq<char>, a: int)
    requires
        0 <= a <= s.len(),
        forall|j: int| 0 <= j < a ==> is_space_char(s[j]),
        a == s.len() || !is_space_char(s[a]),
    ensures
        trim_start(s) == s.skip(a),
    decreases a,
{
    if a == 0 {
        assert(s.skip(0) =~= s);
    } else {
        lemma_trim_start_skip(s.skip(1), a - 1);
        assert(forall|j: int| 0 <= j < s.skip(1).len() ==> s.skip(1)[j] == s[j + 1]);
        assert(s.skip(1).skip(a - 1) =~= s.skip(a));
    }
}

proof fn lemma_trim_end_take(s: Seq<char>, b: int)
    requires
        0 <= b <= s.len(),
        forall|j: int| b <= j < s.len() ==> is_space_char(s[j]),
        b == 0 || !is_space_char(s[b - 1]),
    ensures
        trim_end(s) == s.take(b),
    decreases s.len() - b,
{
    if b == s.len() {
        assert(s.take(b) =~= s);
    } else {
        lemma_trim_end_take(s.take(s.len() - 1), b);
        assert(s.take(s.len() - 1).take(b) =~= s.take(b));
    }
}

/// Copies `s` without its leading and trailing white space.
pub fn trim_str(s: &str) -> (r: String)
    ensures
        r@ == trim_spec(s@),
{
    let n = s.unicode_len();
    let mut a: usize = 0;
    while a < n && is_space(s.get_char(a))
        invariant
            0 <= a <= n,
            n == s@.len(),
            forall|j: int| 0 <= j < a ==> is_space_char(s@[j]),
        decreases n - a,
    {
        a += 1;
    }
    proof {
        lemma_trim_start_skip(s@, a as int);
    }
    let mut b: usize = n;
    while b > a && is_space(s.get_char(b - 1))
        invariant
            a <= b <= n,
            n == s@.len(),
            forall|j: int| b <= j < n ==> is_space_char(s@[j]),
        decreases b,
    {
        b -= 1;
    }
    proof {
        let tail = s@.skip(a as int);
        assert(forall|j: int| 0 <= j < tail.len() ==> tail[j] == s@[j + a]);
        lemma_trim_end_take(tail, b - a);
        assert(tail.take(b - a) =~= s@.subrange(a as int, b as int));
    }
    s.substring_char(a, b).to_owned()
}

/// Trims each piece, drops the pieces that become empty, and joins the rest
/// with a single line break.
pub open spec fn tidy_join(lines: Seq<Seq<char>>) -> Seq<char>
    decreases lines.len(),
{
    if lines.len() == 0 {
        Seq::empty()
    } else {
        let t = trim_spec(lines[0]);
        let rest = tidy_join(lines.skip(1));
        if t.len() == 0 {
            rest
        } else if rest.len() == 0 {
            t
        } else {
            t + seq!['\n'] + rest
        }
    }
}

/// Joins two already-tidied texts with a line break, unless one is empty.
pub open spec fn glue(a: Seq<char>, b: Seq<char>) -> Seq<char> {
    if a.len() == 0 {
        b
    } else if b.len() == 0 {
        a
    } else {
        a + seq!['\n'] + b
    }
}

proof fn lemma_glue_assoc(a: Seq<char>, b: Seq<char>, c: Seq<char>)
    ensures
        glue(glue(a, b), c) == glue(a, glue(b, c)),
{
    assert(glue(glue(a, b), c) =~= glue(a, glue(b, c)));
}

proof fn lemma_tidy_join_unfold(lines: Seq<Seq<char>>)
    requires
        lines.len() > 0,
    ensures
        tidy_join(lines) == glue(trim_spec(lines[0]), tidy_join(lines.skip(1))),
{
}

proof fn lemma_tidy_join_empty(s: Seq<char>)
    requires
        s.len() == 0,
    ensures
        tidy_join(split_char(s, '\n')) == Seq::<char>::empty(),
{
    let parts = split_char(s, '\n');
    assert(parts == seq![s]);
    assert(parts.skip(1) =~= Seq::<Seq<char>>::empty());
    assert(tidy_join(parts.skip(1)) == Seq::<char>::empty());
    assert(trim_spec(s) == s);
    assert(tidy_join(parts) == Seq::<char>::empty());
}

/// Splits `s` on line breaks, trims every line, drops the lines that become
/// empty, and joins the rest with a single line break.
pub fn tidy_lines(s: &str) -> (r: String)
    ensures
        r@ == tidy_join(split_char(s@, '\n')),
{
    let n = s.unicode_len();
    let mut out = String::new();
    let mut i: usize = 0;
    assert(s@.skip(0) =~= s@);
    while i < n
        invariant
            0 <= i <= n,
            n == s@.len(),
            glue(out@, tidy_join(split_char(s@.skip(i as int), '\n'))) == tidy_join(
                split_char(s@, '\n'),
            ),
        decreases n - i,
    {
        let ghost out0 = out@;
        let mut j: usize = i;
        while j < n && s.get_char(j) != '\n'
            invariant
                i <= j <= n,
                n == s@.len(),
                forall|k: int| i <= k < j ==> s@[k] != '\n',
            decreases n - j,
        {
            j += 1;
        }
        let piece = s.substring_char(i, j);
        let t = trim_str(piece);
        let ghost rest_join = if j < n {
            tidy_join(split_char(s@.skip(j + 1), '\n'))
        } else {
            Seq::<char>::empty()
        };
        proof {
            let tail = s@.skip(i as int);
            assert(forall|k: int| 0 <= k < tail.len() ==> tail[k] == s@[k + i]);
            lemma_find_char(tail, '\n');
            if j < n {
                assert(tail[j - i] == '\n');
                assert(find_char(tail, '\n') == j - i) by {
                    if find_char(tail, '\n') < j - i {
                        assert(tail[find_char(tail, '\n')] != '\n');
                    }
                }
                let parts = seq![piece@] + split_char(s@.skip(j + 1), '\n');
                assert(tail.take(j - i) =~= s@.subrange(i as int, j as int));
                assert(tail.skip(j - i + 1) =~= s@.skip(j + 1));
                assert(split_char(tail, '\n') == parts);
                assert(parts[0] == piece@);
                assert(parts.skip(1) =~= split_char(s@.skip(j + 1), '\n'));
                lemma_tidy_join_unfold(parts);
                assert(tidy_join(split_char(tail, '\n')) == glue(t@, rest_join));
            } else {
                assert(find_char(tail, '\n') == -1);
                assert(tail =~= s@.subrange(i as int, j as int));
                assert(split_char(tail, '\n') == seq![piece@]);
                assert(seq![piece@][0] == piece@);
                assert(seq![piece@].skip(1) =~= Seq::<Seq<char>>::empty());
                lemma_tidy_join_unfold(seq![piece@]);
                assert(tidy_join(split_char(tail, '\n')) == glue(t@, rest_join));
            }
        }
        if t.as_str().unicode_len() > 0 {
            if out.as_str().unicode_len() > 0 {
                out.append("\n");
            }
            out.append(t.as_str());
        }
        proof {
            reveal_strlit("\n");
            assert(out@ == glue(out0, t@));
            lemma_glue_assoc(out0, t@, rest_join);
            assert(glue(out@, rest_join) == tidy_join(split_char(s@, '\n')));
        }
        if j == n {
            i = n;
            proof {
                lemma_tidy_join_empty(s@.skip(n as int));
            }
        } else {
            i = j + 1;
        }
    }
    proof {
        lemma_tidy_join_empty(s@.skip(n as int));
    }
    out
}

/// The decimal digit for a value below ten.
pub open spec fn digit_char(d: int) -> char {
    if d == 0 {
        '0'
    } else if d == 1 {
        '1'
    } else if d == 2 {
        '2'
    } else if d == 3 {
        '3'
    } else if d == 4 {
        '4'
    } else if d == 5 {
        '5'
    } else if d == 6 {
        '6'
    } else if d == 7 {
        '7'
    } else if d == 8 {
        '8'
    } else {
        '9'
    }
}

/// The decimal rendering of a non-negative integer, no sign, no leading zero.
pub open spec fn dec_str(n: int) -> Seq<char>
    decreases n,
{
    if n < 10 {
        seq![digit_char(n)]
    } else {
        dec_str(n / 10) + seq![digit_char(n % 10)]
    }
}

fn digit_str(d: usize) -> (r: &'static str)
    requires
        d < 10,
    ensures
        r@ == seq![digit_char(d as int)],
{
    let r: &'static str = if d == 0 {
        "0"
    } else if d == 1 {
        "1"
    } else if d == 2 {
        "2"
    } else if d == 3 {
        "3"
    } else if d == 4 {
        "4"
    } else if d == 5 {
        "5"
    } else if d == 6 {
        "6"
    } else if d == 7 {
        "7"
    } else if d == 8 {
        "8"
    } else {
        "9"
    };
    proof {
        reveal_strlit("0");
        reveal_strlit("1");
        reveal_strlit("2");
        reveal_strlit("3");
        reveal_strlit("4");
        reveal_strlit("5");
        reveal_strlit("6");
        reveal_strlit("7");
        reveal_strlit("8");
        reveal_strlit("9");
    }
    assert(r@ =~= seq![digit_char(d as int)]);
    r
}

/// The pieces joined with `sep` between consecutive pieces.
pub open spec fn join_with(parts: Seq<Seq<char>>, sep: Seq<char>) -> Seq<char>
    decreases parts.len(),
{
    if parts.len() == 0 {
        Seq::empty()
    } else if parts.len() == 1 {
        parts[0]
    } else {
        parts[0] + sep + join_with(parts.skip(1), sep)
    }
}

pub proof fn lemma_join_with_snoc(parts: Seq<Seq<char>>, sep: Seq<char>, i: int)
    requires
        0 <= i < parts.len(),
    ensures
        join_with(parts.take(i + 1), sep) == if i == 0 {
            parts[0]
        } else {
            join_with(parts.take(i), sep) + sep + parts[i]
        },
    decreases i,
{
    if i == 0 {
        assert(parts.take(1) =~= seq![parts[0]]);
        assert(join_with(seq![parts[0]], sep) == parts[0]);
    } else {
        lemma_join_with_snoc(parts.skip(1), sep, i - 1);
        assert(parts.take(i + 1).skip(1) =~= parts.skip(1).take(i));
        assert(parts.take(i).skip(1) =~= parts.skip(1).take(i - 1));
        assert(parts.take(i + 1)[0] == parts[0]);
        assert(parts.take(i)[0] == parts[0]);
        assert(parts.skip(1)[i - 1] == parts[i]);
        if i == 1 {
            assert(join_with(parts.take(2), sep) == parts[0] + sep + join_with(
                parts.skip(1).take(1),
                sep,
            ));
            assert(parts.take(1) =~= seq![parts[0]]);
        } else {
            assert(join_with(parts.take(i + 1), sep) =~= join_with(parts.take(i), sep) + sep
                + parts[i]);
        }
    }
}

/// Whether two strings hold the same characters.
pub fn str_eq(a: &str, b: &str) -> (r: bool)
    ensures
        r == (a@ == b@),
{
    let n = a.unicode_len();
    if n != b.unicode_len() {
        return false;
    }
    let mut i: usize = 0;
    while i < n
        invariant
            0 <= i <= n,
            n == a@.len(),
            n == b@.len(),
            forall|k: int| 0 <= k < i ==> a@[k] == b@[k],
        decreases n - i,
    {
        if a.get_char(i) != b.get_char(i) {
            return false;
        }
        i += 1;
    }
    assert(a@ =~= b@);
    true
}

/// The Unicode uppercase mapping of a character sequence.
pub uninterp spec fn upper_of(s: Seq<char>) -> Seq<char>;

/// Relies on `str::to_uppercase`: the Unicode uppercase mapping, a function
/// of the characters alone.
#[verifier::external_body]
pub(crate) fn to_upper(s: &str) -> (r: String)
    ensures
        r@ == upper_of(s@),
{
    s.to_uppercase()
}

/// Renders an index in decimal.
pub fn usize_to_dec(n: usize) -> (r: String)
    ensures
        r@ == dec_str(n as int),
    decreases n,
{
    if n < 10 {
        digit_str(n).to_owned()
    } else {
        let mut r = usize_to_dec(n / 10);
        r.append(digit_str(n % 10));
        r
    }
}

} // verus!
