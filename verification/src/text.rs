//! Character- and line-level utilities over plain `Vec<char>` text.
//!
//! The document engine works on a text modelled as a `Seq<char>` and on its
//! line decomposition (split at `'\n'`). Everything here is executable code
//! proved against the spec functions, except `push_char`, the one trusted
//! call into `String::push`.

use vstd::prelude::*;

verus! {

// ---------------------------------------------------------------------------
// Characters
// ---------------------------------------------------------------------------

/// The whitespace characters this library trims: the ASCII ones.
pub open spec fn is_ws(c: char) -> bool {
    c == ' ' || c == '\t' || c == '\r' || c == '\n' || c == '\u{b}' || c == '\u{c}'
}

/// Executable counterpart of `is_ws`.
pub fn is_ws_exec(c: char) -> (r: bool)
    ensures
        r == is_ws(c),
{
    c == ' ' || c == '\t' || c == '\r' || c == '\n' || c == '\u{b}' || c == '\u{c}'
}

/// Lower-cases one ASCII letter; every other character is kept.
pub open spec fn lower_char(c: char) -> char {
    if 'A' <= c && c <= 'Z' {
        (((c as u8) + 32) as char)
    } else {
        c
    }
}

/// Executable counterpart of `lower_char`.
pub fn lower_char_exec(c: char) -> (r: char)
    ensures
        r == lower_char(c),
{
    if 'A' <= c && c <= 'Z' {
        (((c as u8) + 32) as char)
    } else {
        c
    }
}

/// ASCII lower-casing of a whole sequence, character by character.
pub open spec fn lower_seq(t: Seq<char>) -> Seq<char> {
    t.map_values(|c: char| lower_char(c))
}

/// Lower-cases a text.
pub fn lower_vec(v: &Vec<char>) -> (r: Vec<char>)
    ensures
        r@ == lower_seq(v@),
{
    let mut out: Vec<char> = Vec::new();
    let mut i: usize = 0;
    while i < v.len()
        invariant
            0 <= i <= v.len(),
            out@ == lower_seq(v@.take(i as int)),
        decreases v.len() - i,
    {
        out.push(lower_char_exec(v[i]));
        proof {
            assert(lower_seq(v@.take(i + 1)) =~= lower_seq(v@.take(i as int)).push(
                lower_char(v@[i as int]),
            ));
        }
        i = i + 1;
    }
    proof {
        assert(v@.take(v@.len() as int) =~= v@);
    }
    out
}

// ---------------------------------------------------------------------------
// Conversions between String and Vec<char>
// ---------------------------------------------------------------------------

/// Relies on `String::push`: appends the given character to the end of the
/// string.
#[verifier::external_body]
pub(crate) fn push_char(s: &mut String, c: char)
    ensures
        final(s)@ == old(s)@.push(c),
{
    s.push(c);
}

/// Relies on `String::pop`: removes the last character of the string, if
/// there is one.
#[verifier::external_body]
pub(crate) fn pop_char(s: &mut String)
    ensures
        old(s)@.len() == 0 ==> final(s)@ == old(s)@,
        old(s)@.len() > 0 ==> final(s)@ == old(s)@.drop_last(),
{
    let _ = s.pop();
}

/// The characters of a string slice, as a vector.
pub fn chars_of(s: &str) -> (r: Vec<char>)
    ensures
        r@ == s@,
{
    let n = s.unicode_len();
    let mut out: Vec<char> = Vec::new();
    let mut i: usize = 0;
    while i < n
        invariant
            0 <= i <= n,
            n == s@.len(),
            out@ == s@.take(i as int),
        decreases n - i,
    {
        out.push(s.get_char(i));
        proof {
            assert(s@.take(i + 1) =~= s@.take(i as int).push(s@[i as int]));
        }
        i = i + 1;
    }
    proof {
        assert(s@.take(n as int) =~= s@);
    }
    out
}

/// A `String` holding exactly the given characters.
pub fn string_of(v: &Vec<char>) -> (r: String)
    ensures
        r@ == v@,
{
    let mut out = String::new();
    let mut i: usize = 0;
    while i < v.len()
        invariant
            0 <= i <= v.len(),
            out@ == v@.take(i as int),
        decreases v.len() - i,
    {
        push_char(&mut out, v[i]);
        proof {
            assert(v@.take(i + 1) =~= v@.take(i as int).push(v@[i as int]));
        }
        i = i + 1;
    }
    proof {
        assert(v@.take(v@.len() as int) =~= v@);
    }
    out
}

// ---------------------------------------------------------------------------
// Small vector helpers
// ---------------------------------------------------------------------------

/// Appends a copy of `src` to `dst`.
pub fn extend_chars(dst: &mut Vec<char>, src: &Vec<char>)
    ensures
        final(dst)@ == old(dst)@ + src@,
{
    let mut i: usize = 0;
    while i < src.len()
        invariant
            0 <= i <= src.len(),
            dst@ == old(dst)@ + src@.take(i as int),
        decreases src.len() - i,
    {
        dst.push(src[i]);
        proof {
            assert(old(dst)@ + src@.take(i + 1) =~= (old(dst)@ + src@.take(i as int)).push(
                src@[i as int],
            ));
        }
        i = i + 1;
    }
    proof {
        assert(old(dst)@ + src@.take(src@.len() as int) =~= old(dst)@ + src@);
    }
}

/// A copy of `v`.
pub fn copy_chars(v: &Vec<char>) -> (r: Vec<char>)
    ensures
        r@ == v@,
{
    let mut out: Vec<char> = Vec::new();
    extend_chars(&mut out, v);
    proof {
        assert(Seq::<char>::empty() + v@ =~= v@);
    }
    out
}

/// The characters of `v` from `a` (inclusive) to `b` (exclusive).
pub fn subvec(v: &Vec<char>, a: usize, b: usize) -> (r: Vec<char>)
    requires
        a <= b <= v@.len(),
    ensures
        r@ == v@.subrange(a as int, b as int),
{
    let mut out: Vec<char> = Vec::new();
    let mut i: usize = a;
    while i < b
        invariant
            a <= i <= b <= v@.len(),
            out@ == v@.subrange(a as int, i as int),
        decreases b - i,
    {
        out.push(v[i]);
        proof {
            assert(v@.subrange(a as int, i + 1) =~= v@.subrange(a as int, i as int).push(
                v@[i as int],
            ));
        }
        i = i + 1;
    }
    out
}

/// Whether two character vectors hold the same characters.
pub fn eq_chars(a: &Vec<char>, b: &Vec<char>) -> (r: bool)
    ensures
        r == (a@ == b@),
{
    if a.len() != b.len() {
        return false;
    }
    let mut i: usize = 0;
    while i < a.len()
        invariant
            0 <= i <= a.len(),
            a@.len() == b@.len(),
            forall|j: int| 0 <= j < i ==> a@[j] == b@[j],
        decreases a.len() - i,
    {
        if a[i] != b[i] {
            return false;
        }
        i = i + 1;
    }
    proof {
        assert(a@ =~= b@);
    }
    true
}

// ---------------------------------------------------------------------------
// Lines
// ---------------------------------------------------------------------------

/// Index of the first `'\n'` in `t`, or `t.len()` if there is none.
pub open spec fn first_nl(t: Seq<char>) -> int
    decreases t.len(),
{
    if t.len() == 0 {
        0
    } else if t[0] == '\n' {
        0
    } else {
        1 + first_nl(t.drop_first())
    }
}

/// `first_nl` always lies between 0 and the length of the text.
pub proof fn lemma_first_nl_bounds(t: Seq<char>)
    ensures
        0 <= first_nl(t) <= t.len(),
    decreases t.len(),
{
    if t.len() > 0 && t[0] != '\n' {
        lemma_first_nl_bounds(t.drop_first());
    }
}

/// Pins `first_nl` down from the characters themselves.
pub proof fn lemma_first_nl_at(t: Seq<char>, k: int)
    requires
        0 <= k <= t.len(),
        forall|j: int| 0 <= j < k ==> t[j] != '\n',
        k == t.len() || t[k] == '\n',
    ensures
        first_nl(t) == k,
    decreases k,
{
    if t.len() == 0 {
    } else if t[0] == '\n' {
        assert(k == 0);
    } else {
        lemma_first_nl_at(t.drop_first(), k - 1);
    }
}

/// Splits a text into lines at `'\n'`; a trailing newline yields no empty
/// final line, so `""` and `"a\n"` give zero and one line respectively.
pub open spec fn spec_lines(t: Seq<char>) -> Seq<Seq<char>>
    decreases t.len(),
    via spec_lines_decreases
{
    if t.len() == 0 {
        Seq::empty()
    } else {
        let i = first_nl(t);
        if i == t.len() {
            seq![t]
        } else {
            seq![t.take(i)] + spec_lines(t.skip(i + 1))
        }
    }
}

#[via_fn]
proof fn spec_lines_decreases(t: Seq<char>) {
    if t.len() > 0 {
        lemma_first_nl_bounds(t);
    }
}

/// Joins lines back into a text, ending every line with `'\n'`.
pub open spec fn spec_unlines(ls: Seq<Seq<char>>) -> Seq<char>
    decreases ls.len(),
{
    if ls.len() == 0 {
        Seq::empty()
    } else {
        ls[0] + seq!['\n'] + spec_unlines(ls.drop_first())
    }
}

/// Joining distributes over appending one line at the end.
pub proof fn lemma_unlines_push(ls: Seq<Seq<char>>, l: Seq<char>)
    ensures
        spec_unlines(ls.push(l)) == spec_unlines(ls) + l + seq!['\n'],
    decreases ls.len(),
{
    if ls.len() == 0 {
        assert(ls.push(l).drop_first() =~= Seq::<Seq<char>>::empty());
        assert(ls.push(l)[0] == l);
        assert(spec_unlines(ls.push(l)) == l + seq!['\n'] + spec_unlines(
            Seq::<Seq<char>>::empty(),
        ));
        assert(spec_unlines(ls.push(l)) =~= spec_unlines(ls) + l + seq!['\n']);
    } else {
        assert(ls.push(l).drop_first() =~= ls.drop_first().push(l));
        assert(ls.push(l)[0] == ls[0]);
        lemma_unlines_push(ls.drop_first(), l);
        assert(spec_unlines(ls.push(l)) == ls[0] + seq!['\n'] + (spec_unlines(ls.drop_first())
            + l + seq!['\n']));
        assert(spec_unlines(ls.push(l)) =~= spec_unlines(ls) + l + seq!['\n']);
    }
}

/// No line produced by `spec_lines` contains a `'\n'`.
pub proof fn lemma_lines_no_nl(t: Seq<char>)
    ensures
        forall|i: int|
            0 <= i < spec_lines(t).len() ==> !(#[trigger] spec_lines(t)[i]).contains('\n'),
    decreases t.len(),
{
    if t.len() > 0 {
        lemma_first_nl_bounds(t);
        lemma_first_nl_char(t);
        let k = first_nl(t);
        if k == t.len() {
            assert(!t.contains('\n')) by {
                if t.contains('\n') {
                    let j = choose|j: int| 0 <= j < t.len() && t[j] == '\n';
                    assert(t[j] != '\n');
                }
            }
            assert(spec_lines(t) == seq![t]);
            assert forall|i: int|
                0 <= i < spec_lines(t).len() implies !(#[trigger] spec_lines(t)[i]).contains(
                '\n',
            ) by {
                assert(spec_lines(t)[i] == t);
            }
        } else {
            lemma_lines_no_nl(t.skip(k + 1));
            assert(!t.take(k).contains('\n')) by {
                if t.take(k).contains('\n') {
                    let j = choose|j: int| 0 <= j < k && t.take(k)[j] == '\n';
                    assert(t.take(k)[j] == t[j]);
                    assert(t[j] != '\n');
                }
            }
            assert(spec_lines(t) == seq![t.take(k)] + spec_lines(t.skip(k + 1)));
            assert forall|i: int|
                0 <= i < spec_lines(t).len() implies !(#[trigger] spec_lines(t)[i]).contains(
                '\n',
            ) by {
                if i == 0 {
                    assert(spec_lines(t)[0] == t.take(k));
                } else {
                    assert(spec_lines(t)[i] == spec_lines(t.skip(k + 1))[i - 1]);
                }
            }
        }
    }
}

/// Every character before `first_nl` differs from `'\n'`, and the one at it
/// (if inside the text) is `'\n'`.
pub proof fn lemma_first_nl_char(t: Seq<char>)
    ensures
        forall|j: int| 0 <= j < first_nl(t) ==> t[j] != '\n',
        first_nl(t) < t.len() ==> t[first_nl(t)] == '\n',
    decreases t.len(),
{
    if t.len() > 0 && t[0] != '\n' {
        lemma_first_nl_char(t.drop_first());
        lemma_first_nl_bounds(t.drop_first());
        assert forall|j: int| 0 <= j < first_nl(t) implies t[j] != '\n' by {
            if j > 0 {
                assert(t.drop_first()[j - 1] == t[j]);
            }
        }
        if first_nl(t) < t.len() {
            assert(t.drop_first()[first_nl(t.drop_first())] == t[first_nl(t)]);
        }
    }
}

/// Splitting undoes joining, provided no line contains `'\n'`.
pub proof fn lemma_lines_of_unlines(ls: Seq<Seq<char>>)
    requires
        forall|i: int| 0 <= i < ls.len() ==> !(#[trigger] ls[i]).contains('\n'),
    ensures
        spec_lines(spec_unlines(ls)) == ls,
    decreases ls.len(),
{
    if ls.len() == 0 {
    } else {
        let t = spec_unlines(ls);
        let head = ls[0];
        let rest = spec_unlines(ls.drop_first());
        assert(t =~= head + seq!['\n'] + rest);
        assert forall|j: int| 0 <= j < head.len() implies t[j] != '\n' by {
            assert(t[j] == head[j]);
            assert(!head.contains('\n'));
        }
        assert(t[head.len() as int] == '\n');
        lemma_first_nl_at(t, head.len() as int);
        assert(t.take(head.len() as int) =~= head);
        assert(t.skip(head.len() as int + 1) =~= rest);
        lemma_lines_of_unlines(ls.drop_first());
        assert(spec_lines(t) =~= ls);
    }
}

/// The lines behind a vector of line buffers.
pub open spec fn lines_view(ls: Seq<Vec<char>>) -> Seq<Seq<char>> {
    ls.map_values(|l: Vec<char>| l@)
}

/// Splits a text into its lines.
pub fn split_lines(t: &Vec<char>) -> (r: Vec<Vec<char>>)
    ensures
        lines_view(r@) == spec_lines(t@),
{
    let mut out: Vec<Vec<char>> = Vec::new();
    let mut cur: Vec<char> = Vec::new();
    let ghost mut start: int = 0;
    let mut i: usize = 0;
    proof {
        assert(cur@ =~= t@.subrange(0, 0));
        assert(t@.skip(0) =~= t@);
        assert(lines_view(out@) + spec_lines(t@) =~= spec_lines(t@));
    }
    while i < t.len()
        invariant
            0 <= start <= i <= t@.len(),
            cur@ == t@.subrange(start, i as int),
            forall|j: int| start <= j < i ==> t@[j] != '\n',
            spec_lines(t@) == lines_view(out@) + spec_lines(t@.skip(start)),
        decreases t.len() - i,
    {
        let c = t[i];
        if c == '\n' {
            proof {
                let rem = t@.skip(start);
                assert forall|j: int| 0 <= j < i - start implies rem[j] != '\n' by {
                    assert(rem[j] == t@[start + j]);
                }
                assert(rem[i - start] == '\n');
                lemma_first_nl_at(rem, i - start);
                assert(rem.take(i - start) =~= t@.subrange(start, i as int));
                assert(rem.skip(i - start + 1) =~= t@.skip(i + 1));
                assert(lines_view(out@.push(cur)) =~= lines_view(out@).push(cur@));
                assert(lines_view(out@) + (seq![cur@] + spec_lines(t@.skip(i + 1)))
                    =~= lines_view(out@.push(cur)) + spec_lines(t@.skip(i + 1)));
            }
            out.push(cur);
            cur = Vec::new();
            proof {
                start = i + 1;
                assert(cur@ =~= t@.subrange(start, i + 1));
            }
        } else {
            cur.push(c);
            proof {
                assert(t@.subrange(start, i + 1) =~= t@.subrange(start, i as int).push(
                    t@[i as int],
                ));
            }
        }
        i = i + 1;
    }
    proof {
        let rem = t@.skip(start);
        if start < t@.len() {
            assert forall|j: int| 0 <= j < rem.len() implies rem[j] != '\n' by {
                assert(rem[j] == t@[start + j]);
            }
            lemma_first_nl_at(rem, rem.len() as int);
            assert(rem =~= t@.subrange(start, t@.len() as int));
            assert(lines_view(out@.push(cur)) =~= lines_view(out@).push(cur@));
            assert(lines_view(out@) + seq![rem] =~= lines_view(out@.push(cur)));
        } else {
            assert(rem =~= Seq::<char>::empty());
            assert(lines_view(out@) + spec_lines(rem) =~= lines_view(out@));
        }
    }
    if cur.len() > 0 {
        out.push(cur);
    } else {
        proof {
            if start < t@.len() {
                assert(t@.subrange(start, t@.len() as int).len() > 0);
            }
        }
    }
    out
}

/// Joins lines into a single text, each line followed by `'\n'`.
pub fn join_lines(ls: &Vec<Vec<char>>) -> (r: Vec<char>)
    ensures
        r@ == spec_unlines(lines_view(ls@)),
{
    let mut out: Vec<char> = Vec::new();
    let mut i: usize = 0;
    while i < ls.len()
        invariant
            0 <= i <= ls.len(),
            out@ == spec_unlines(lines_view(ls@).take(i as int)),
        decreases ls.len() - i,
    {
        extend_chars(&mut out, &ls[i]);
        out.push('\n');
        proof {
            let lv = lines_view(ls@);
            assert(lv.take(i + 1) =~= lv.take(i as int).push(lv[i as int]));
            lemma_unlines_push(lv.take(i as int), lv[i as int]);
            assert(out@ =~= spec_unlines(lv.take(i as int)) + lv[i as int] + seq!['\n']);
        }
        i = i + 1;
    }
    proof {
        assert(lines_view(ls@).take(ls@.len() as int) =~= lines_view(ls@));
    }
    out
}

// ---------------------------------------------------------------------------
// Trimming
// ---------------------------------------------------------------------------

/// Index of the first non-whitespace character, or `t.len()`.
pub open spec fn first_non_ws(t: Seq<char>) -> int
    decreases t.len(),
{
    if t.len() == 0 {
        0
    } else if !is_ws(t[0]) {
        0
    } else {
        1 + first_non_ws(t.drop_first())
    }
}

/// Pins `first_non_ws` down from the characters themselves.
pub proof fn lemma_first_non_ws_at(t: Seq<char>, k: int)
    requires
        0 <= k <= t.len(),
        forall|j: int| 0 <= j < k ==> is_ws(t[j]),
        k == t.len() || !is_ws(t[k]),
    ensures
        first_non_ws(t) == k,
    decreases k,
{
    if t.len() == 0 {
    } else if !is_ws(t[0]) {
        assert(k == 0);
    } else {
        lemma_first_non_ws_at(t.drop_first(), k - 1);
    }
}

/// One past the last non-whitespace character, or 0 if all are whitespace.
pub open spec fn end_non_ws(t: Seq<char>) -> int
    decreases t.len(),
{
    if t.len() == 0 {
        0
    } else if !is_ws(t.last()) {
        t.len() as int
    } else {
        end_non_ws(t.drop_last())
    }
}

/// Pins `end_non_ws` down from the characters themselves.
pub proof fn lemma_end_non_ws_at(t: Seq<char>, k: int)
    requires
        0 <= k <= t.len(),
        forall|j: int| k <= j < t.len() ==> is_ws(t[j]),
        k == 0 || !is_ws(t[k - 1]),
    ensures
        end_non_ws(t) == k,
    decreases t.len(),
{
    if t.len() == 0 {
    } else if !is_ws(t.last()) {
        assert(k == t.len());
    } else {
        lemma_end_non_ws_at(t.drop_last(), k);
    }
}

/// The text with leading whitespace removed.
pub open spec fn spec_trim_start(t: Seq<char>) -> Seq<char> {
    t.skip(first_non_ws(t))
}

/// The text with trailing whitespace removed.
pub open spec fn spec_trim_end(t: Seq<char>) -> Seq<char> {
    t.take(end_non_ws(t))
}

/// The text with leading and trailing whitespace removed.
pub open spec fn spec_trim(t: Seq<char>) -> Seq<char> {
    spec_trim_end(spec_trim_start(t))
}

/// Index of the first non-whitespace character of `v`, or its length.
pub fn ws_prefix(v: &Vec<char>) -> (k: usize)
    ensures
        k == first_non_ws(v@),
        0 <= k <= v@.len(),
        forall|j: int| 0 <= j < k ==> is_ws(v@[j]),
        k < v@.len() ==> !is_ws(v@[k as int]),
{
    let mut i: usize = 0;
    while i < v.len()
        invariant
            0 <= i <= v@.len(),
            forall|j: int| 0 <= j < i ==> is_ws(v@[j]),
        decreases v.len() - i,
    {
        if !is_ws_exec(v[i]) {
            proof {
                lemma_first_non_ws_at(v@, i as int);
            }
            return i;
        }
        i = i + 1;
    }
    proof {
        lemma_first_non_ws_at(v@, v@.len() as int);
    }
    i
}

/// A copy of `v` with leading and trailing whitespace removed.
pub fn trim_vec(v: &Vec<char>) -> (r: Vec<char>)
    ensures
        r@ == spec_trim(v@),
{
    let a = ws_prefix(v);
    let mut b: usize = v.len();
    while b > a && is_ws_exec(v[b - 1])
        invariant
            a <= b <= v@.len(),
            a == first_non_ws(v@),
            forall|j: int| b <= j < v@.len() ==> is_ws(v@[j]),
        decreases b,
    {
        b = b - 1;
    }
    let r = subvec(v, a, b);
    proof {
        let s = spec_trim_start(v@);
        assert(s =~= v@.subrange(a as int, v@.len() as int));
        if b > a {
            assert(!is_ws(v@[b - 1]));
            assert forall|j: int| b - a <= j < s.len() implies is_ws(s[j]) by {
                assert(s[j] == v@[a + j]);
            }
            assert(!is_ws(s[b - a - 1]));
            lemma_end_non_ws_at(s, b - a);
        } else {
            assert(b == a);
            assert forall|j: int| 0 <= j < s.len() implies is_ws(s[j]) by {
                assert(s[j] == v@[a + j]);
            }
            lemma_end_non_ws_at(s, 0);
        }
        assert(s.take(b - a) =~= v@.subrange(a as int, b as int));
    }
    r
}

/// A copy of `v` with leading whitespace removed.
pub fn trim_start_vec(v: &Vec<char>) -> (r: Vec<char>)
    ensures
        r@ == spec_trim_start(v@),
{
    let a = ws_prefix(v);
    let r = subvec(v, a, v.len());
    proof {
        assert(spec_trim_start(v@) =~= v@.subrange(a as int, v@.len() as int));
    }
    r
}

/// Index of the first whitespace character, or `t.len()`.
pub open spec fn first_ws(t: Seq<char>) -> int
    decreases t.len(),
{
    if t.len() == 0 {
        0
    } else if is_ws(t[0]) {
        0
    } else {
        1 + first_ws(t.drop_first())
    }
}

/// `first_ws` always lies between 0 and the length of the text.
pub proof fn lemma_first_ws_bounds(t: Seq<char>)
    ensures
        0 <= first_ws(t) <= t.len(),
    decreases t.len(),
{
    if t.len() > 0 && !is_ws(t[0]) {
        lemma_first_ws_bounds(t.drop_first());
    }
}

/// Pins `first_ws` down from the characters themselves.
pub proof fn lemma_first_ws_at(t: Seq<char>, k: int)
    requires
        0 <= k <= t.len(),
        forall|j: int| 0 <= j < k ==> !is_ws(t[j]),
        k == t.len() || is_ws(t[k]),
    ensures
        first_ws(t) == k,
    decreases k,
{
    if t.len() == 0 {
    } else if is_ws(t[0]) {
        assert(k == 0);
    } else {
        lemma_first_ws_at(t.drop_first(), k - 1);
    }
}

/// `first_ws` is at most any index holding whitespace.
pub proof fn lemma_first_ws_le(t: Seq<char>, i: int)
    requires
        0 <= i < t.len(),
        is_ws(t[i]),
    ensures
        first_ws(t) <= i,
    decreases i,
{
    if t.len() > 0 && !is_ws(t[0]) {
        assert(t.drop_first()[i - 1] == t[i]);
        lemma_first_ws_le(t.drop_first(), i - 1);
    }
}

/// Index of the first whitespace character of `v`, or its length.
pub fn ws_split_idx(v: &Vec<char>) -> (k: usize)
    ensures
        k == first_ws(v@),
        0 <= k <= v@.len(),
{
    let mut i: usize = 0;
    while i < v.len()
        invariant
            0 <= i <= v@.len(),
            forall|j: int| 0 <= j < i ==> !is_ws(v@[j]),
        decreases v.len() - i,
    {
        if is_ws_exec(v[i]) {
            proof {
                lemma_first_ws_at(v@, i as int);
            }
            return i;
        }
        i = i + 1;
    }
    proof {
        lemma_first_ws_at(v@, v@.len() as int);
    }
    i
}

// ---------------------------------------------------------------------------
// Substring search
// ---------------------------------------------------------------------------

/// `n` occurs in `h` as a contiguous substring.
pub open spec fn spec_contains_sub(h: Seq<char>, n: Seq<char>) -> bool {
    exists|k: int|
        0 <= k && k + n.len() <= h.len() && #[trigger] h.subrange(k, k + n.len() as int) == n
}

/// Whether `n` occurs in `h` as a contiguous substring; the empty needle
/// always matches.
pub fn contains_sub(h: &Vec<char>, n: &Vec<char>) -> (r: bool)
    ensures
        r == spec_contains_sub(h@, n@),
{
    if n.len() > h.len() {
        proof {
            assert(!spec_contains_sub(h@, n@));
        }
        return false;
    }
    if n.len() == 0 {
        proof {
            assert(h@.subrange(0, 0 + n@.len() as int) =~= n@);
        }
        return true;
    }
    let bound: usize = h.len() - n.len();
    let mut k: usize = 0;
    while k <= bound
        invariant
            0 < n@.len() <= h@.len(),
            h@.len() <= usize::MAX,
            bound == h@.len() - n@.len(),
            0 <= k <= bound + 1,
            forall|k0: int|
                0 <= k0 < k ==> #[trigger] h@.subrange(k0, k0 + n@.len() as int) != n@,
        decreases bound + 1 - k,
    {
        let mut j: usize = 0;
        let mut matched: bool = true;
        while matched && j < n.len()
            invariant
                0 <= j <= n@.len(),
                k + n@.len() <= h@.len(),
                h@.len() <= usize::MAX,
                matched ==> forall|j0: int| 0 <= j0 < j ==> h@[k + j0] == n@[j0],
                !matched ==> j < n@.len() && h@[k + j] != n@[j as int],
            decreases n.len() - j + (if matched {
                1int
            } else {
                0int
            }),
        {
            if h[k + j] != n[j] {
                matched = false;
            } else {
                proof {
                    assert(h@[k + j] == n@[j as int]);
                }
                j = j + 1;
            }
        }
        if matched {
            proof {
                assert(h@.subrange(k as int, k + n@.len() as int) =~= n@);
            }
            return true;
        }
        proof {
            let sub = h@.subrange(k as int, k + n@.len() as int);
            assert(h@[k + j] != n@[j as int]);
            if sub == n@ {
                assert(sub[j as int] == h@[k + j]);
                assert(false);
            }
        }
        k = k + 1;
    }
    proof {
        assert(!spec_contains_sub(h@, n@));
    }
    false
}

// ---------------------------------------------------------------------------
// Decimal numbers
// ---------------------------------------------------------------------------

/// An ASCII decimal digit.
pub open spec fn is_digit(c: char) -> bool {
    '0' <= c && c <= '9'
}

/// The value of one decimal digit.
pub open spec fn digit_val(c: char) -> int {
    c as int - '0' as int
}

/// Every character of `s` is a decimal digit.
pub open spec fn all_digits(s: Seq<char>) -> bool {
    forall|i: int| 0 <= i < s.len() ==> is_digit(s[i])
}

/// The numeric value of a digit string, most significant digit first.
pub open spec fn dec_val(s: Seq<char>) -> int
    decreases s.len(),
{
    if s.len() == 0 {
        0
    } else {
        dec_val(s.drop_last()) * 10 + digit_val(s.last())
    }
}

/// The decimal digit string of `n`, without leading zeros.
pub open spec fn spec_dec_str(n: int) -> Seq<char>
    decreases n,
{
    if n < 10 {
        seq![(((n + 48) as u8) as char)]
    } else {
        spec_dec_str(n / 10).push((((n % 10 + 48) as u8) as char))
    }
}

/// Appends the decimal digits of `n` to `out`.
pub fn render_u16(n: u16, out: &mut Vec<char>)
    ensures
        final(out)@ == old(out)@ + spec_dec_str(n as int),
    decreases n,
{
    if n < 10 {
        out.push((((n + 48) as u8) as char));
        proof {
            assert(old(out)@ + spec_dec_str(n as int) =~= old(out)@.push(
                (((n + 48) as u8) as char),
            ));
        }
    } else {
        render_u16(n / 10, out);
        out.push((((n % 10 + 48) as u8) as char));
        proof {
            assert(old(out)@ + spec_dec_str(n as int) =~= (old(out)@ + spec_dec_str(
                n as int / 10,
            )).push((((n as int % 10 + 48) as u8) as char)));
        }
    }
}

/// The digit part of a number text: everything after an optional leading
/// `'+'`.
pub open spec fn u16_body(s: Seq<char>) -> Seq<char> {
    if s.len() > 0 && s[0] == '+' {
        s.drop_first()
    } else {
        s
    }
}

/// Parses an optionally `'+'`-signed decimal number that fits in `u16`,
/// as `u16::from_str` accepts it.
pub open spec fn spec_parse_u16(s: Seq<char>) -> Option<u16> {
    let body = u16_body(s);
    if body.len() > 0 && all_digits(body) && dec_val(body) <= 65535 {
        Some(dec_val(body) as u16)
    } else {
        None
    }
}

/// Parses the characters of `v` as a `u16`.
pub fn parse_u16_chars(v: &Vec<char>) -> (r: Option<u16>)
    ensures
        r == spec_parse_u16(v@),
{
    let start: usize = if v.len() > 0 && v[0] == '+' {
        1
    } else {
        0
    };
    let ghost body = u16_body(v@);
    proof {
        assert(body =~= v@.subrange(start as int, v@.len() as int));
    }
    if v.len() == start {
        return None;
    }
    let mut acc: u32 = 0;
    let mut over: bool = false;
    let mut i: usize = start;
    while i < v.len()
        invariant
            start <= i <= v@.len(),
            start + body.len() == v@.len(),
            body == u16_body(v@),
            body =~= v@.subrange(start as int, v@.len() as int),
            all_digits(body.take(i - start)),
            !over ==> acc == dec_val(body.take(i - start)) && acc <= 65535,
            over ==> dec_val(body.take(i - start)) > 65535,
        decreases v.len() - i,
    {
        let c = v[i];
        if c < '0' || c > '9' {
            proof {
                assert(body[i - start] == c);
                assert(!is_digit(body[i - start]));
            }
            return None;
        }
        proof {
            assert(body.take(i - start + 1) =~= body.take(i - start).push(body[i - start]));
            assert(body.take(i - start + 1).drop_last() =~= body.take(i - start));
        }
        let d: u32 = (c as u32) - 48;
        proof {
            assert(digit_val(body[i - start]) == d);
        }
        if over {
            proof {
                assert(dec_val(body.take(i - start + 1)) == dec_val(body.take(i - start)) * 10
                    + d);
            }
        } else {
            let next: u32 = acc * 10 + d;
            if next > 65535 {
                over = true;
            } else {
                acc = next;
            }
        }
        i = i + 1;
    }
    proof {
        assert(body.take(v@.len() - start) =~= body);
    }
    if over {
        None
    } else {
        Some(acc as u16)
    }
}

} // verus!
