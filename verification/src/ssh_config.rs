//! The configuration document engine: a host-oriented configuration text,
//! its projection into structured host entries, and block-scoped
//! insert/replace/delete mutations that leave every unrelated line intact.
//!
//! A *declaration* is a line whose first word, compared case-insensitively,
//! is the keyword `Host` followed by one space; the *pattern* is the
//! trimmed remainder of that line. A *block* runs from a declaration line
//! to the next declaration line or the end of the file. The same rule is
//! used for listing, upsert and delete, so the three always agree on block
//! boundaries.

use vstd::prelude::*;

use crate::text::{
    all_digits, chars_of, contains_sub, copy_chars, eq_chars, extend_chars, first_ws, is_digit,
    is_ws, join_lines, lemma_first_non_ws_at, lemma_lines_no_nl, lemma_lines_of_unlines,
    lines_view, lower_char, lower_char_exec, lower_seq, lower_vec, parse_u16_chars, render_u16,
    spec_contains_sub, spec_dec_str, spec_lines, spec_parse_u16, spec_trim, spec_trim_start,
    spec_unlines, split_lines, string_of, subvec, trim_start_vec, trim_vec, ws_prefix,
    ws_split_idx,
};

verus! {

// ---------------------------------------------------------------------------
// The host entry model
// ---------------------------------------------------------------------------

/// One configuration block: the block's match key and its recognized and
/// unrecognized directives.
#[derive(Debug, Clone, PartialEq, Eq)]
pub struct SshHostEntry {
    /// The block's match key; the lookup key for upsert and delete.
    pub pattern: String,
    /// Value of the `HostName` directive, if present.
    pub hostname: Option<String>,
    /// Value of the `User` directive, if present.
    pub user: Option<String>,
    /// Value of the `Port` directive, if present; valid range 1 to 65535.
    pub port: Option<u16>,
    /// Every other directive, as `(key, value)` pairs in original order and
    /// original key casing.
    pub other: Vec<(String, String)>,
}

/// The mathematical model of a host entry.
pub ghost struct EntryView {
    pub pattern: Seq<char>,
    pub hostname: Option<Seq<char>>,
    pub user: Option<Seq<char>>,
    pub port: Option<u16>,
    pub other: Seq<(Seq<char>, Seq<char>)>,
}

impl View for SshHostEntry {
    type V = EntryView;

    open spec fn view(&self) -> EntryView {
        EntryView {
            pattern: self.pattern@,
            hostname: match self.hostname {
                Some(h) => Some(h@),
                None => None,
            },
            user: match self.user {
                Some(u) => Some(u@),
                None => None,
            },
            port: self.port,
            other: self.other@.map_values(|p: (String, String)| (p.0@, p.1@)),
        }
    }
}

/// The models of a list of host entries.
pub open spec fn entries_view(s: Seq<SshHostEntry>) -> Seq<EntryView> {
    s.map_values(|e: SshHostEntry| e@)
}

/// The keyword of a declaration line, lower-cased.
pub open spec fn kw_host() -> Seq<char> {
    seq!['h', 'o', 's', 't']
}

/// The `HostName` directive keyword, lower-cased.
pub open spec fn kw_hostname() -> Seq<char> {
    seq!['h', 'o', 's', 't', 'n', 'a', 'm', 'e']
}

/// The `User` directive keyword, lower-cased.
pub open spec fn kw_user() -> Seq<char> {
    seq!['u', 's', 'e', 'r']
}

/// The `Port` directive keyword, lower-cased.
pub open spec fn kw_port() -> Seq<char> {
    seq!['p', 'o', 'r', 't']
}

/// A well-formed entry: one whose rendered block keeps the file's block
/// structure intact. The pattern is non-empty, trimmed and single-line;
/// directive values are single-line; unrecognized keys are single words
/// other than the declaration keyword; a present port is at least 1.
pub open spec fn entry_wf(e: EntryView) -> bool {
    &&& e.pattern.len() > 0
    &&& spec_trim(e.pattern) == e.pattern
    &&& !e.pattern.contains('\n')
    &&& (e.hostname matches Some(h) ==> !h.contains('\n'))
    &&& (e.user matches Some(u) ==> !u.contains('\n'))
    &&& (e.port matches Some(p) ==> p >= 1)
    &&& forall|i: int|
        0 <= i < e.other.len() ==> {
            let kv = #[trigger] e.other[i];
            &&& kv.0.len() > 0
            &&& first_ws(kv.0) == kv.0.len()
            &&& !kv.0.contains('\n')
            &&& lower_seq(kv.0) != kw_host()
            &&& !kv.1.contains('\n')
        }
}

// ---------------------------------------------------------------------------
// Declaration lines
// ---------------------------------------------------------------------------

/// Whether a line declares a host block: its first word, case-insensitively,
/// is the keyword followed by one space.
pub open spec fn is_host_decl(l: Seq<char>) -> bool {
    let s = spec_trim_start(l);
    &&& s.len() >= 5
    &&& lower_char(s[0]) == 'h'
    &&& lower_char(s[1]) == 'o'
    &&& lower_char(s[2]) == 's'
    &&& lower_char(s[3]) == 't'
    &&& s[4] == ' '
}

/// The pattern declared by a declaration line: the trimmed remainder after
/// the keyword.
pub open spec fn spec_decl_pattern(l: Seq<char>) -> Seq<char> {
    spec_trim(spec_trim_start(l).skip(5))
}

/// A declaration line for exactly this pattern.
pub open spec fn is_decl_for(l: Seq<char>, pat: Seq<char>) -> bool {
    is_host_decl(l) && spec_decl_pattern(l) == pat
}

/// Recognizes a declaration line and extracts its pattern.
fn decl_pattern_of(l: &Vec<char>) -> (r: Option<Vec<char>>)
    ensures
        r is Some <==> is_host_decl(l@),
        r matches Some(p) ==> p@ == spec_decl_pattern(l@),
{
    let a = ws_prefix(l);
    proof {
        assert(spec_trim_start(l@) =~= l@.subrange(a as int, l@.len() as int));
    }
    if l.len() - a < 5 {
        return None;
    }
    proof {
        assert(spec_trim_start(l@)[0] == l@[a as int]);
        assert(spec_trim_start(l@)[1] == l@[a + 1]);
        assert(spec_trim_start(l@)[2] == l@[a + 2]);
        assert(spec_trim_start(l@)[3] == l@[a + 3]);
        assert(spec_trim_start(l@)[4] == l@[a + 4]);
    }
    if lower_char_exec(l[a]) == 'h' && lower_char_exec(l[a + 1]) == 'o' && lower_char_exec(
        l[a + 2],
    ) == 's' && lower_char_exec(l[a + 3]) == 't' && l[a + 4] == ' ' {
        let rest = subvec(l, a + 5, l.len());
        let pat = trim_vec(&rest);
        proof {
            assert(spec_trim_start(l@).skip(5) =~= l@.subrange(a + 5, l@.len() as int));
        }
        Some(pat)
    } else {
        None
    }
}

// ---------------------------------------------------------------------------
// Rendering a block
// ---------------------------------------------------------------------------

/// The indentation put before every directive line.
pub open spec fn indent() -> Seq<char> {
    seq![' ', ' ', ' ', ' ']
}

/// The declaration line written for a pattern.
pub open spec fn decl_line(p: Seq<char>) -> Seq<char> {
    seq!['H', 'o', 's', 't', ' '] + p
}

/// The rendered `HostName` directive line.
pub open spec fn hostname_line(v: Seq<char>) -> Seq<char> {
    indent() + seq!['H', 'o', 's', 't', 'N', 'a', 'm', 'e', ' '] + v
}

/// The rendered `User` directive line.
pub open spec fn user_line(v: Seq<char>) -> Seq<char> {
    indent() + seq!['U', 's', 'e', 'r', ' '] + v
}

/// The rendered `Port` directive line.
pub open spec fn port_line(p: u16) -> Seq<char> {
    indent() + seq!['P', 'o', 'r', 't', ' '] + spec_dec_str(p as int)
}

/// The rendered line of an unrecognized directive.
pub open spec fn other_line(k: Seq<char>, v: Seq<char>) -> Seq<char> {
    indent() + k + seq![' '] + v
}

/// The rendered lines of the unrecognized directives, in original order.
pub open spec fn other_lines(os: Seq<(Seq<char>, Seq<char>)>) -> Seq<Seq<char>> {
    os.map_values(|kv: (Seq<char>, Seq<char>)| other_line(kv.0, kv.1))
}

/// The lines of a freshly rendered block: the declaration, then each
/// present recognized field in fixed order, then the unrecognized
/// directives in original order, then one blank separator line.
pub open spec fn spec_render_lines(e: EntryView) -> Seq<Seq<char>> {
    let a = seq![decl_line(e.pattern)];
    let b = match e.hostname {
        Some(v) => a.push(hostname_line(v)),
        None => a,
    };
    let c = match e.user {
        Some(v) => b.push(user_line(v)),
        None => b,
    };
    let d = match e.port {
        Some(p) => c.push(port_line(p)),
        None => c,
    };
    let f = d + other_lines(e.other);
    f.push(Seq::<char>::empty())
}

/// Appends the rendered lines of `entry` to `out`.
fn render_into(out: &mut Vec<Vec<char>>, entry: &SshHostEntry)
    ensures
        lines_view(final(out)@) == lines_view(old(out)@) + spec_render_lines(entry@),
{
    let ghost base = lines_view(old(out)@);
    let ghost ev = entry@;
    let ghost a = seq![decl_line(ev.pattern)];

    let mut l: Vec<char> = Vec::new();
    l.push('H');
    l.push('o');
    l.push('s');
    l.push('t');
    l.push(' ');
    let pc = chars_of(entry.pattern.as_str());
    extend_chars(&mut l, &pc);
    proof {
        assert(l@ =~= decl_line(ev.pattern));
    }
    out.push(l);
    proof {
        assert(lines_view(out@) =~= base + a);
    }

    let ghost b = match ev.hostname {
        Some(v) => a.push(hostname_line(v)),
        None => a,
    };
    match &entry.hostname {
        Some(h) => {
            let mut l: Vec<char> = Vec::new();
            l.push(' ');
            l.push(' ');
            l.push(' ');
            l.push(' ');
            l.push('H');
            l.push('o');
            l.push('s');
            l.push('t');
            l.push('N');
            l.push('a');
            l.push('m');
            l.push('e');
            l.push(' ');
            let vc = chars_of(h.as_str());
            extend_chars(&mut l, &vc);
            proof {
                assert(l@ =~= hostname_line(h@));
            }
            out.push(l);
            proof {
                assert(lines_view(out@) =~= base + b);
            }
        },
        None => {},
    }

    let ghost c = match ev.user {
        Some(v) => b.push(user_line(v)),
        None => b,
    };
    match &entry.user {
        Some(u) => {
            let mut l: Vec<char> = Vec::new();
            l.push(' ');
            l.push(' ');
            l.push(' ');
            l.push(' ');
            l.push('U');
            l.push('s');
            l.push('e');
            l.push('r');
            l.push(' ');
            let vc = chars_of(u.as_str());
            extend_chars(&mut l, &vc);
            proof {
                assert(l@ =~= user_line(u@));
            }
            out.push(l);
            proof {
                assert(lines_view(out@) =~= base + c);
            }
        },
        None => {},
    }

    let ghost d = match ev.port {
        Some(p) => c.push(port_line(p)),
        None => c,
    };
    match entry.port {
        Some(p) => {
            let mut l: Vec<char> = Vec::new();
            l.push(' ');
            l.push(' ');
            l.push(' ');
            l.push(' ');
            l.push('P');
            l.push('o');
            l.push('r');
            l.push('t');
            l.push(' ');
            render_u16(p, &mut l);
            proof {
                assert(l@ =~= port_line(p));
            }
            out.push(l);
            proof {
                assert(lines_view(out@) =~= base + d);
            }
        },
        None => {},
    }

    let ghost others = other_lines(ev.other);
    let mut i: usize = 0;
    while i < entry.other.len()
        invariant
            0 <= i <= entry.other.len(),
            ev == entry@,
            others == other_lines(ev.other),
            lines_view(out@) == base + d + others.take(i as int),
        decreases entry.other.len() - i,
    {
        let mut l: Vec<char> = Vec::new();
        l.push(' ');
        l.push(' ');
        l.push(' ');
        l.push(' ');
        let kc = chars_of(entry.other[i].0.as_str());
        extend_chars(&mut l, &kc);
        l.push(' ');
        let vc = chars_of(entry.other[i].1.as_str());
        extend_chars(&mut l, &vc);
        proof {
            assert(ev.other[i as int] == (entry.other@[i as int].0@, entry.other@[i as int].1@));
            assert(l@ =~= other_line(ev.other[i as int].0, ev.other[i as int].1));
            assert(others[i as int] == other_line(ev.other[i as int].0, ev.other[i as int].1));
        }
        let ghost prev = out@;
        out.push(l);
        proof {
            assert(out@ == prev.push(l));
            assert(lines_view(out@) =~= lines_view(prev).push(l@));
            assert(others.take(i + 1) =~= others.take(i as int).push(others[i as int]));
            assert(lines_view(prev).push(l@) =~= base + d + others.take(i + 1));
            assert(lines_view(out@) =~= base + d + others.take(i + 1));
        }
        i = i + 1;
    }
    proof {
        assert(others.take(ev.other.len() as int) =~= others);
    }

    let empty_line: Vec<char> = Vec::new();
    let ghost prev = out@;
    out.push(empty_line);
    proof {
        assert(lines_view(out@) =~= lines_view(prev).push(Seq::<char>::empty()));
        assert(spec_render_lines(ev) == (d + others).push(Seq::<char>::empty()));
        assert(lines_view(out@) =~= base + spec_render_lines(ev));
    }
}

// ---------------------------------------------------------------------------
// Locating a block
// ---------------------------------------------------------------------------

/// Index of the first declaration line for `pat`, if any.
pub open spec fn spec_find_host(ls: Seq<Seq<char>>, pat: Seq<char>) -> Option<int>
    decreases ls.len(),
{
    if ls.len() == 0 {
        None
    } else if is_decl_for(ls[0], pat) {
        Some(0)
    } else {
        match spec_find_host(ls.drop_first(), pat) {
            Some(i) => Some(i + 1),
            None => None,
        }
    }
}

/// What `spec_find_host` returns: the first declaration for the pattern.
pub proof fn lemma_find_host_props(ls: Seq<Seq<char>>, pat: Seq<char>)
    ensures
        match spec_find_host(ls, pat) {
            Some(i) => 0 <= i < ls.len() && is_decl_for(ls[i], pat) && forall|j: int|
                0 <= j < i ==> !is_decl_for(#[trigger] ls[j], pat),
            None => forall|j: int| 0 <= j < ls.len() ==> !is_decl_for(#[trigger] ls[j], pat),
        },
    decreases ls.len(),
{
    if ls.len() == 0 {
    } else if is_decl_for(ls[0], pat) {
    } else {
        lemma_find_host_props(ls.drop_first(), pat);
        match spec_find_host(ls.drop_first(), pat) {
            Some(i) => {
                assert(ls.drop_first()[i] == ls[i + 1]);
                assert forall|j: int| 0 <= j < i + 1 implies !is_decl_for(
                    #[trigger] ls[j],
                    pat,
                ) by {
                    if j > 0 {
                        assert(ls.drop_first()[j - 1] == ls[j]);
                    }
                }
            },
            None => {
                assert forall|j: int| 0 <= j < ls.len() implies !is_decl_for(
                    #[trigger] ls[j],
                    pat,
                ) by {
                    if j > 0 {
                        assert(ls.drop_first()[j - 1] == ls[j]);
                    }
                }
            },
        }
    }
}

/// Pins `spec_find_host` down to a known first match.
pub proof fn lemma_find_host_at(ls: Seq<Seq<char>>, pat: Seq<char>, i: int)
    requires
        0 <= i < ls.len(),
        is_decl_for(ls[i], pat),
        forall|j: int| 0 <= j < i ==> !is_decl_for(#[trigger] ls[j], pat),
    ensures
        spec_find_host(ls, pat) == Some(i),
    decreases i,
{
    if i == 0 {
    } else {
        assert forall|j: int| 0 <= j < i - 1 implies !is_decl_for(
            #[trigger] ls.drop_first()[j],
            pat,
        ) by {
            assert(ls.drop_first()[j] == ls[j + 1]);
        }
        assert(ls.drop_first()[i - 1] == ls[i]);
        lemma_find_host_at(ls.drop_first(), pat, i - 1);
    }
}

/// Pins `spec_find_host` down when no line matches.
pub proof fn lemma_find_host_none(ls: Seq<Seq<char>>, pat: Seq<char>)
    requires
        forall|j: int| 0 <= j < ls.len() ==> !is_decl_for(#[trigger] ls[j], pat),
    ensures
        spec_find_host(ls, pat) is None,
    decreases ls.len(),
{
    if ls.len() > 0 {
        assert forall|j: int| 0 <= j < ls.drop_first().len() implies !is_decl_for(
            #[trigger] ls.drop_first()[j],
            pat,
        ) by {
            assert(ls.drop_first()[j] == ls[j + 1]);
        }
        lemma_find_host_none(ls.drop_first(), pat);
    }
}

/// One past the last line of the block that starts at line `i`: the next
/// declaration line, or the end of the file.
pub open spec fn spec_block_end(ls: Seq<Seq<char>>, i: int) -> int
    decreases ls.len() - i,
    when 0 <= i <= ls.len()
{
    if i + 1 >= ls.len() {
        ls.len() as int
    } else if is_host_decl(ls[i + 1]) {
        i + 1
    } else {
        spec_block_end(ls, i + 1)
    }
}

/// The block end lies after its declaration and not past the file's end,
/// no line strictly inside the block is a declaration, and the line at the
/// end (if inside the file) is one.
pub proof fn lemma_block_end_props(ls: Seq<Seq<char>>, i: int)
    requires
        0 <= i < ls.len(),
    ensures
        i < spec_block_end(ls, i) <= ls.len(),
        forall|k: int| i < k < spec_block_end(ls, i) ==> !is_host_decl(#[trigger] ls[k]),
        spec_block_end(ls, i) < ls.len() ==> is_host_decl(ls[spec_block_end(ls, i)]),
    decreases ls.len() - i,
{
    if i + 1 >= ls.len() {
    } else if is_host_decl(ls[i + 1]) {
    } else {
        lemma_block_end_props(ls, i + 1);
    }
}

/// Finds the first declaration line for `pat` among the lines.
fn find_host(ls: &Vec<Vec<char>>, pat: &Vec<char>) -> (r: Option<usize>)
    ensures
        match r {
            Some(i) => spec_find_host(lines_view(ls@), pat@) == Some(i as int),
            None => spec_find_host(lines_view(ls@), pat@) is None,
        },
{
    let mut i: usize = 0;
    while i < ls.len()
        invariant
            0 <= i <= ls@.len(),
            forall|j: int| 0 <= j < i ==> !is_decl_for(#[trigger] lines_view(ls@)[j], pat@),
        decreases ls.len() - i,
    {
        match decl_pattern_of(&ls[i]) {
            Some(p) => {
                if eq_chars(&p, pat) {
                    proof {
                        assert(lines_view(ls@)[i as int] == ls@[i as int]@);
                        lemma_find_host_at(lines_view(ls@), pat@, i as int);
                    }
                    return Some(i);
                }
                proof {
                    assert(lines_view(ls@)[i as int] == ls@[i as int]@);
                }
            },
            None => {
                proof {
                    assert(lines_view(ls@)[i as int] == ls@[i as int]@);
                }
            },
        }
        i = i + 1;
    }
    proof {
        lemma_find_host_none(lines_view(ls@), pat@);
    }
    None
}

/// Finds the end of the block that starts at line `i`.
fn block_end(ls: &Vec<Vec<char>>, i: usize) -> (r: usize)
    requires
        i < ls@.len(),
    ensures
        r == spec_block_end(lines_view(ls@), i as int),
        i < r <= ls@.len(),
{
    let n = ls.len();
    let mut j: usize = i + 1;
    while j < n
        invariant
            n == ls@.len(),
            i + 1 <= j <= ls@.len(),
            forall|k: int| i < k < j ==> !is_host_decl(#[trigger] lines_view(ls@)[k]),
        decreases n - j,
    {
        let is_decl = match decl_pattern_of(&ls[j]) {
            Some(_) => true,
            None => false,
        };
        proof {
            assert(lines_view(ls@)[j as int] == ls@[j as int]@);
        }
        if is_decl {
            proof {
                lemma_block_end_at(lines_view(ls@), i as int, j as int);
            }
            return j;
        }
        j = j + 1;
    }
    proof {
        lemma_block_end_at(lines_view(ls@), i as int, j as int);
    }
    j
}

/// Pins `spec_block_end` down from the lines themselves.
proof fn lemma_block_end_at(ls: Seq<Seq<char>>, i: int, j: int)
    requires
        0 <= i < j <= ls.len(),
        forall|k: int| i < k < j ==> !is_host_decl(#[trigger] ls[k]),
        j == ls.len() || is_host_decl(ls[j]),
    ensures
        spec_block_end(ls, i) == j,
    decreases j - i,
{
    if i + 1 >= ls.len() {
    } else if is_host_decl(ls[i + 1]) {
        assert(j == i + 1);
    } else {
        lemma_block_end_at(ls, i + 1, j);
    }
}

/// Renders one block as text: the declaration line, the directive lines,
/// and a trailing blank line, each ended with a newline.
pub fn render_host_block(entry: &SshHostEntry) -> (r: String)
    ensures
        r@ == spec_unlines(spec_render_lines(entry@)),
{
    let mut lines: Vec<Vec<char>> = Vec::new();
    render_into(&mut lines, entry);
    proof {
        assert(lines_view(Seq::<Vec<char>>::empty()) + spec_render_lines(entry@)
            =~= spec_render_lines(entry@));
    }
    let joined = join_lines(&lines);
    string_of(&joined)
}

// ---------------------------------------------------------------------------
// The document and its mutations
// ---------------------------------------------------------------------------

/// The lines after an upsert: if a block for the entry's pattern exists,
/// its lines are replaced by the freshly rendered block; otherwise the
/// rendered block is appended at the end.
pub open spec fn spec_upsert_lines(ls: Seq<Seq<char>>, e: EntryView) -> Seq<Seq<char>> {
    match spec_find_host(ls, e.pattern) {
        Some(i) => ls.take(i) + spec_render_lines(e) + ls.skip(spec_block_end(ls, i)),
        None => ls + spec_render_lines(e),
    }
}

/// The text after an upsert: the new lines, each ended with a newline. A
/// text not ending in a newline gains one before the appended block.
pub open spec fn spec_upsert_text(t: Seq<char>, e: EntryView) -> Seq<char> {
    spec_unlines(spec_upsert_lines(spec_lines(t), e))
}

/// The lines after a delete: the first matching block's lines are removed;
/// with no match the lines are unchanged.
pub open spec fn spec_delete_lines(ls: Seq<Seq<char>>, pat: Seq<char>) -> Seq<Seq<char>> {
    match spec_find_host(ls, pat) {
        Some(i) => ls.take(i) + ls.skip(spec_block_end(ls, i)),
        None => ls,
    }
}

/// The text after a delete. Deleting an absent pattern leaves the text
/// untouched, byte for byte.
pub open spec fn spec_delete_text(t: Seq<char>, pat: Seq<char>) -> Seq<char> {
    if spec_find_host(spec_lines(t), pat) is Some {
        spec_unlines(spec_delete_lines(spec_lines(t), pat))
    } else {
        t
    }
}

/// Appends copies of the lines `src[a..b]` to `dst`.
fn copy_lines_range(dst: &mut Vec<Vec<char>>, src: &Vec<Vec<char>>, a: usize, b: usize)
    requires
        a <= b <= src@.len(),
    ensures
        lines_view(final(dst)@) == lines_view(old(dst)@) + lines_view(src@).subrange(
            a as int,
            b as int,
        ),
{
    let mut k: usize = a;
    proof {
        assert(lines_view(dst@) =~= lines_view(dst@) + lines_view(src@).subrange(
            a as int,
            a as int,
        ));
    }
    while k < b
        invariant
            a <= k <= b <= src@.len(),
            lines_view(dst@) == lines_view(old(dst)@) + lines_view(src@).subrange(
                a as int,
                k as int,
            ),
        decreases b - k,
    {
        let c = copy_chars(&src[k]);
        let ghost prev = dst@;
        dst.push(c);
        proof {
            assert(lines_view(dst@) =~= lines_view(prev).push(c@));
            assert(c@ == lines_view(src@)[k as int]);
            assert(lines_view(src@).subrange(a as int, k + 1) =~= lines_view(src@).subrange(
                a as int,
                k as int,
            ).push(lines_view(src@)[k as int]));
            assert(lines_view(dst@) =~= lines_view(old(dst)@) + lines_view(src@).subrange(
                a as int,
                k + 1,
            ));
        }
        k = k + 1;
    }
}

/// A configuration document: the file's raw text and its filesystem path.
/// The structured host list is always recomputed from the text, and every
/// mutation is a pure text transformation; reading the file and writing it
/// back are its caller's business.
pub struct SshConfigFile {
    /// Where the text came from and where it should be written back.
    pub path: String,
    /// The raw text, the source of truth.
    pub text: String,
}

impl SshConfigFile {
    /// A document holding exactly the given text: loading alters nothing,
    /// so an immediate write-back is byte-identical to the source.
    pub fn new(path: String, text: String) -> (r: Self)
        ensures
            r.path@ == path@,
            r.text@ == text@,
    {
        SshConfigFile { path, text }
    }

    /// Inserts or replaces the block for `entry.pattern`: an existing
    /// block (located by the first matching declaration line) is replaced
    /// by the freshly rendered block, everything before and after it kept
    /// verbatim; otherwise the rendered block is appended at the end.
    pub fn upsert_host(&mut self, entry: &SshHostEntry)
        ensures
            final(self).path@ == old(self).path@,
            final(self).text@ == spec_upsert_text(old(self).text@, entry@),
    {
        let tc = chars_of(self.text.as_str());
        let lines = split_lines(&tc);
        let patc = chars_of(entry.pattern.as_str());
        let ghost lv = lines_view(lines@);
        let mut out: Vec<Vec<char>> = Vec::new();
        match find_host(&lines, &patc) {
            Some(i) => {
                proof {
                    lemma_find_host_props(lv, patc@);
                }
                let j = block_end(&lines, i);
                copy_lines_range(&mut out, &lines, 0, i);
                render_into(&mut out, entry);
                copy_lines_range(&mut out, &lines, j, lines.len());
                proof {
                    assert(lv.subrange(0, i as int) =~= lv.take(i as int));
                    assert(lv.subrange(j as int, lv.len() as int) =~= lv.skip(j as int));
                    assert(lines_view(Seq::<Vec<char>>::empty()).len() == 0);
                    assert(lines_view(out@) =~= lv.take(i as int) + spec_render_lines(entry@)
                        + lv.skip(j as int));
                }
            },
            None => {
                copy_lines_range(&mut out, &lines, 0, lines.len());
                render_into(&mut out, entry);
                proof {
                    assert(lv.subrange(0, lv.len() as int) =~= lv);
                    assert(lines_view(out@) =~= lv + spec_render_lines(entry@));
                }
            },
        }
        let joined = join_lines(&out);
        self.text = string_of(&joined);
    }

    /// Removes the first block for `pattern`, if any, keeping every other
    /// line verbatim; with no such block the text is left untouched.
    pub fn delete_host(&mut self, pattern: &str)
        ensures
            final(self).path@ == old(self).path@,
            final(self).text@ == spec_delete_text(old(self).text@, pattern@),
    {
        let tc = chars_of(self.text.as_str());
        let lines = split_lines(&tc);
        let patc = chars_of(pattern);
        let ghost lv = lines_view(lines@);
        match find_host(&lines, &patc) {
            Some(i) => {
                proof {
                    lemma_find_host_props(lv, patc@);
                }
                let j = block_end(&lines, i);
                let mut out: Vec<Vec<char>> = Vec::new();
                copy_lines_range(&mut out, &lines, 0, i);
                copy_lines_range(&mut out, &lines, j, lines.len());
                proof {
                    assert(lv.subrange(0, i as int) =~= lv.take(i as int));
                    assert(lv.subrange(j as int, lv.len() as int) =~= lv.skip(j as int));
                    assert(lines_view(out@) =~= lv.take(i as int) + lv.skip(j as int));
                }
                let joined = join_lines(&out);
                self.text = string_of(&joined);
            },
            None => {},
        }
    }
}

// ---------------------------------------------------------------------------
// Listing: projecting the text into host entries
// ---------------------------------------------------------------------------

/// A just-started entry: only the pattern is known.
pub open spec fn empty_entry(pat: Seq<char>) -> EntryView {
    EntryView { pattern: pat, hostname: None, user: None, port: None, other: Seq::empty() }
}

/// The port field read from a directive value: a number in the valid
/// range 1 to 65535; anything else leaves the field absent.
pub open spec fn spec_port_field(v: Seq<char>) -> Option<u16> {
    match spec_parse_u16(v) {
        Some(p) => if p >= 1 {
            Some(p)
        } else {
            None
        },
        None => None,
    }
}

/// One directive line applied to the entry under construction: `s` is the
/// trimmed line; its first word is the key, the trimmed remainder the
/// value. Recognized keys (case-insensitively) set the matching field;
/// every other pair is kept verbatim.
pub open spec fn apply_directive(e: EntryView, s: Seq<char>) -> EntryView {
    let k = first_ws(s);
    let key = s.take(k);
    let value = spec_trim_start(s.skip(k));
    let kl = lower_seq(key);
    if kl == kw_hostname() {
        EntryView { hostname: Some(value), ..e }
    } else if kl == kw_user() {
        EntryView { user: Some(value), ..e }
    } else if kl == kw_port() {
        EntryView { port: spec_port_field(value), ..e }
    } else {
        EntryView { other: e.other.push((key, value)), ..e }
    }
}

/// The listing, line by line: blank and comment lines are dropped, a
/// declaration line finishes the entry under construction and starts a
/// new one, a directive line extends the entry under construction and is
/// ignored outside any block.
pub open spec fn spec_parse_rec(
    ls: Seq<Seq<char>>,
    cur: Option<EntryView>,
    acc: Seq<EntryView>,
) -> Seq<EntryView>
    decreases ls.len(),
{
    if ls.len() == 0 {
        match cur {
            Some(e) => acc.push(e),
            None => acc,
        }
    } else {
        let s = spec_trim(ls[0]);
        let rest = ls.drop_first();
        if s.len() == 0 || s[0] == '#' {
            spec_parse_rec(rest, cur, acc)
        } else if is_host_decl(ls[0]) {
            let started = empty_entry(spec_decl_pattern(ls[0]));
            match cur {
                Some(e) => spec_parse_rec(rest, Some(started), acc.push(e)),
                None => spec_parse_rec(rest, Some(started), acc),
            }
        } else {
            match cur {
                Some(e) => spec_parse_rec(rest, Some(apply_directive(e, s)), acc),
                None => spec_parse_rec(rest, None, acc),
            }
        }
    }
}

/// The ordered host entries projected from the lines.
pub open spec fn spec_parse(ls: Seq<Seq<char>>) -> Seq<EntryView> {
    spec_parse_rec(ls, None, Seq::empty())
}

/// The ordered host entries projected from a raw text.
pub open spec fn spec_list_hosts(t: Seq<char>) -> Seq<EntryView> {
    spec_parse(spec_lines(t))
}

/// The model of an optional entry.
pub open spec fn opt_entry_view(o: Option<SshHostEntry>) -> Option<EntryView> {
    match o {
        Some(e) => Some(e@),
        None => None,
    }
}

/// The `HostName` keyword as characters.
fn kw_hostname_vec() -> (r: Vec<char>)
    ensures
        r@ == kw_hostname(),
{
    let mut v: Vec<char> = Vec::new();
    v.push('h');
    v.push('o');
    v.push('s');
    v.push('t');
    v.push('n');
    v.push('a');
    v.push('m');
    v.push('e');
    proof {
        assert(v@ =~= kw_hostname());
    }
    v
}

/// The `User` keyword as characters.
fn kw_user_vec() -> (r: Vec<char>)
    ensures
        r@ == kw_user(),
{
    let mut v: Vec<char> = Vec::new();
    v.push('u');
    v.push('s');
    v.push('e');
    v.push('r');
    proof {
        assert(v@ =~= kw_user());
    }
    v
}

/// The `Port` keyword as characters.
fn kw_port_vec() -> (r: Vec<char>)
    ensures
        r@ == kw_port(),
{
    let mut v: Vec<char> = Vec::new();
    v.push('p');
    v.push('o');
    v.push('r');
    v.push('t');
    proof {
        assert(v@ =~= kw_port());
    }
    v
}

/// Applies one trimmed directive line to the entry under construction.
fn apply_dir_exec(e: SshHostEntry, s: &Vec<char>) -> (r: SshHostEntry)
    ensures
        r@ == apply_directive(e@, s@),
{
    let ghost ev = e@;
    let k = ws_split_idx(s);
    let key = subvec(s, 0, k);
    let restv = subvec(s, k, s.len());
    let value = trim_start_vec(&restv);
    proof {
        assert(key@ =~= s@.take(first_ws(s@)));
        assert(restv@ =~= s@.skip(first_ws(s@)));
    }
    let kl = lower_vec(&key);
    let vs = string_of(&value);
    let hn = kw_hostname_vec();
    let us = kw_user_vec();
    let po = kw_port_vec();
    if eq_chars(&kl, &hn) {
        let r = SshHostEntry {
            pattern: e.pattern,
            hostname: Some(vs),
            user: e.user,
            port: e.port,
            other: e.other,
        };
        proof {
            assert(r@.other =~= ev.other);
        }
        r
    } else if eq_chars(&kl, &us) {
        let r = SshHostEntry {
            pattern: e.pattern,
            hostname: e.hostname,
            user: Some(vs),
            port: e.port,
            other: e.other,
        };
        proof {
            assert(r@.other =~= ev.other);
        }
        r
    } else if eq_chars(&kl, &po) {
        let pn = parse_u16_chars(&value);
        let pf: Option<u16> = match pn {
            Some(p) => if p >= 1 {
                Some(p)
            } else {
                None
            },
            None => None,
        };
        let r = SshHostEntry {
            pattern: e.pattern,
            hostname: e.hostname,
            user: e.user,
            port: pf,
            other: e.other,
        };
        proof {
            assert(r@.other =~= ev.other);
        }
        r
    } else {
        let ks = string_of(&key);
        let mut other = e.other;
        other.push((ks, vs));
        let r = SshHostEntry {
            pattern: e.pattern,
            hostname: e.hostname,
            user: e.user,
            port: e.port,
            other,
        };
        proof {
            assert(r@.other =~= ev.other.push((key@, value@)));
        }
        r
    }
}

/// Projects a raw text into its ordered host entries. Blank lines and
/// comment lines are dropped: the listing is a lossy view used for
/// display and filtering, while mutations work on the raw text.
pub fn parse_hosts_from_text(text: &str) -> (r: Vec<SshHostEntry>)
    ensures
        entries_view(r@) == spec_list_hosts(text@),
{
    let tc = chars_of(text);
    let lines = split_lines(&tc);
    let ghost lv = lines_view(lines@);
    let mut hosts: Vec<SshHostEntry> = Vec::new();
    let mut current: Option<SshHostEntry> = None;
    let mut i: usize = 0;
    proof {
        assert(lv.skip(0) =~= lv);
        assert(entries_view(hosts@) =~= Seq::<EntryView>::empty());
    }
    while i < lines.len()
        invariant
            0 <= i <= lines@.len(),
            lv == lines_view(lines@),
            spec_parse(lv) == spec_parse_rec(
                lv.skip(i as int),
                opt_entry_view(current),
                entries_view(hosts@),
            ),
        decreases lines.len() - i,
    {
        proof {
            assert(lv.skip(i as int)[0] == lv[i as int]);
            assert(lv.skip(i as int).drop_first() =~= lv.skip(i + 1));
            assert(lv[i as int] == lines@[i as int]@);
        }
        let line = &lines[i];
        let s = trim_vec(line);
        if s.len() == 0 || s[0] == '#' {
        } else {
            match decl_pattern_of(line) {
                Some(p) => {
                    let prev = current;
                    let started = SshHostEntry {
                        pattern: string_of(&p),
                        hostname: None,
                        user: None,
                        port: None,
                        other: Vec::new(),
                    };
                    proof {
                        assert(started@.other =~= Seq::<(Seq<char>, Seq<char>)>::empty());
                        assert(started@ == empty_entry(spec_decl_pattern(lv[i as int])));
                    }
                    current = Some(started);
                    match prev {
                        Some(e) => {
                            let ghost hp = hosts@;
                            hosts.push(e);
                            proof {
                                assert(entries_view(hosts@) =~= entries_view(hp).push(e@));
                            }
                        },
                        None => {},
                    }
                },
                None => {
                    let prev = current;
                    match prev {
                        Some(e) => {
                            let e2 = apply_dir_exec(e, &s);
                            current = Some(e2);
                        },
                        None => {
                            current = None;
                        },
                    }
                },
            }
        }
        i = i + 1;
    }
    proof {
        assert(lv.skip(lv.len() as int) =~= Seq::<Seq<char>>::empty());
    }
    match current {
        Some(e) => {
            let ghost hp = hosts@;
            hosts.push(e);
            proof {
                assert(entries_view(hosts@) =~= entries_view(hp).push(e@));
            }
        },
        None => {},
    }
    hosts
}

impl SshConfigFile {
    /// The host entries currently in the document, re-projected from the
    /// raw text on every call so listing and text never diverge.
    pub fn list_hosts(&self) -> (r: Vec<SshHostEntry>)
        ensures
            entries_view(r@) == spec_list_hosts(self.text@),
    {
        parse_hosts_from_text(self.text.as_str())
    }
}

// ---------------------------------------------------------------------------
// Filtering
// ---------------------------------------------------------------------------

/// The lower-cased haystack an entry is matched against: pattern,
/// hostname and user (where present), joined by single spaces.
pub open spec fn spec_hay(e: EntryView) -> Seq<char> {
    lower_seq(e.pattern) + (match e.hostname {
        Some(h) => seq![' '] + lower_seq(h),
        None => Seq::<char>::empty(),
    }) + (match e.user {
        Some(u) => seq![' '] + lower_seq(u),
        None => Seq::<char>::empty(),
    })
}

/// An entry matches a query iff the query occurs in its haystack.
pub open spec fn spec_matches(e: EntryView, q: Seq<char>) -> bool {
    spec_contains_sub(spec_hay(e), q)
}

impl SshHostEntry {
    /// Whether this entry matches a query already lower-cased by the
    /// caller: a substring match over pattern, hostname and user.
    pub fn matches(&self, q: &str) -> (r: bool)
        ensures
            r == spec_matches(self@, q@),
    {
        let ghost ev = self@;
        let pc = chars_of(self.pattern.as_str());
        let mut hay = lower_vec(&pc);
        let ghost h1 = lower_seq(ev.pattern);
        match &self.hostname {
            Some(h) => {
                hay.push(' ');
                let hc = chars_of(h.as_str());
                let hl = lower_vec(&hc);
                extend_chars(&mut hay, &hl);
                proof {
                    assert(hay@ =~= h1 + (seq![' '] + lower_seq(h@)));
                }
            },
            None => {},
        }
        let ghost h2 = h1 + (match ev.hostname {
            Some(h) => seq![' '] + lower_seq(h),
            None => Seq::<char>::empty(),
        });
        proof {
            assert(hay@ =~= h2);
        }
        match &self.user {
            Some(u) => {
                hay.push(' ');
                let uc = chars_of(u.as_str());
                let ul = lower_vec(&uc);
                extend_chars(&mut hay, &ul);
                proof {
                    assert(hay@ =~= h2 + (seq![' '] + lower_seq(u@)));
                }
            },
            None => {},
        }
        proof {
            assert(hay@ =~= spec_hay(ev));
        }
        let qc = chars_of(q);
        contains_sub(&hay, &qc)
    }
}

// ---------------------------------------------------------------------------
// Laws of the document engine
// ---------------------------------------------------------------------------

/// How many declaration lines (and so how many blocks) the lines hold.
pub open spec fn count_decls(ls: Seq<Seq<char>>) -> int
    decreases ls.len(),
{
    if ls.len() == 0 {
        0
    } else {
        (if is_host_decl(ls[0]) {
            1int
        } else {
            0int
        }) + count_decls(ls.drop_first())
    }
}

/// Counting declarations distributes over concatenation.
pub proof fn lemma_count_decls_concat(a: Seq<Seq<char>>, b: Seq<Seq<char>>)
    ensures
        count_decls(a + b) == count_decls(a) + count_decls(b),
    decreases a.len(),
{
    if a.len() == 0 {
        assert(a + b =~= b);
    } else {
        assert((a + b)[0] == a[0]);
        assert((a + b).drop_first() =~= a.drop_first() + b);
        lemma_count_decls_concat(a.drop_first(), b);
    }
}

/// Lines without any declaration count zero blocks.
pub proof fn lemma_count_decls_none(ls: Seq<Seq<char>>)
    requires
        forall|i: int| 0 <= i < ls.len() ==> !is_host_decl(#[trigger] ls[i]),
    ensures
        count_decls(ls) == 0,
    decreases ls.len(),
{
    if ls.len() > 0 {
        assert forall|i: int| 0 <= i < ls.drop_first().len() implies !is_host_decl(
            #[trigger] ls.drop_first()[i],
        ) by {
            assert(ls.drop_first()[i] == ls[i + 1]);
        }
        lemma_count_decls_none(ls.drop_first());
    }
}

/// A sequence with no `'\n'` at any index contains none.
proof fn lemma_no_nl(s: Seq<char>)
    requires
        forall|i: int| 0 <= i < s.len() ==> s[i] != '\n',
    ensures
        !s.contains('\n'),
{
    if s.contains('\n') {
        let i = choose|i: int| 0 <= i < s.len() && s[i] == '\n';
    }
}

/// The declaration line of a trimmed single-line pattern declares exactly
/// that pattern.
proof fn lemma_decl_line_props(p: Seq<char>)
    requires
        spec_trim(p) == p,
        !p.contains('\n'),
    ensures
        is_decl_for(decl_line(p), p),
        !decl_line(p).contains('\n'),
{
    let l = decl_line(p);
    assert(!is_ws(l[0]));
    lemma_first_non_ws_at(l, 0);
    assert(spec_trim_start(l) =~= l);
    assert(lower_char(l[0]) == 'h' && lower_char(l[1]) == 'o' && lower_char(l[2]) == 's'
        && lower_char(l[3]) == 't' && l[4] == ' ');
    assert(spec_trim_start(l).skip(5) =~= p);
    assert forall|i: int| 0 <= i < l.len() implies l[i] != '\n' by {
        if i >= 5 {
            assert(l[i] == p[i - 5]);
        }
    }
    lemma_no_nl(l);
}

/// A directive line rendered with a four-space indent starts, after the
/// indent, at its key; it is a declaration only if the key is the keyword.
proof fn lemma_indented_trim_start(tail: Seq<char>)
    requires
        tail.len() > 0,
        !is_ws(tail[0]),
    ensures
        spec_trim_start(indent() + tail) == tail,
{
    let l = indent() + tail;
    assert(is_ws(l[0]) && is_ws(l[1]) && is_ws(l[2]) && is_ws(l[3]));
    assert(!is_ws(l[4]));
    lemma_first_non_ws_at(l, 4);
    assert(l.skip(4) =~= tail);
}

/// The rendered `HostName` line is no declaration and stays on one line.
proof fn lemma_hostname_line_props(v: Seq<char>)
    requires
        !v.contains('\n'),
    ensures
        !is_host_decl(hostname_line(v)),
        !hostname_line(v).contains('\n'),
{
    let tail = seq!['H', 'o', 's', 't', 'N', 'a', 'm', 'e', ' '] + v;
    let l = hostname_line(v);
    assert(l =~= indent() + tail);
    lemma_indented_trim_start(tail);
    assert(tail[4] == 'N');
    assert forall|i: int| 0 <= i < l.len() implies l[i] != '\n' by {
        if i >= 13 {
            assert(l[i] == v[i - 13]);
        }
    }
    lemma_no_nl(l);
}

/// The rendered `User` line is no declaration and stays on one line.
proof fn lemma_user_line_props(v: Seq<char>)
    requires
        !v.contains('\n'),
    ensures
        !is_host_decl(user_line(v)),
        !user_line(v).contains('\n'),
{
    let tail = seq!['U', 's', 'e', 'r', ' '] + v;
    let l = user_line(v);
    assert(l =~= indent() + tail);
    lemma_indented_trim_start(tail);
    assert(lower_char(tail[0]) == 'u');
    assert forall|i: int| 0 <= i < l.len() implies l[i] != '\n' by {
        if i >= 9 {
            assert(l[i] == v[i - 9]);
        }
    }
    lemma_no_nl(l);
}

/// Every character of a rendered decimal number is a digit.
proof fn lemma_dec_str_digits(n: int)
    requires
        n >= 0,
    ensures
        all_digits(spec_dec_str(n)),
    decreases n,
{
    if n < 10 {
    } else {
        lemma_dec_str_digits(n / 10);
        let d = spec_dec_str(n);
        assert forall|i: int| 0 <= i < d.len() implies is_digit(d[i]) by {
            if i < d.len() - 1 {
                assert(d[i] == spec_dec_str(n / 10)[i]);
            }
        }
    }
}

/// The rendered `Port` line is no declaration and stays on one line.
proof fn lemma_port_line_props(p: u16)
    ensures
        !is_host_decl(port_line(p)),
        !port_line(p).contains('\n'),
{
    let tail = seq!['P', 'o', 'r', 't', ' '] + spec_dec_str(p as int);
    let l = port_line(p);
    assert(l =~= indent() + tail);
    lemma_indented_trim_start(tail);
    assert(lower_char(tail[0]) == 'p');
    lemma_dec_str_digits(p as int);
    assert forall|i: int| 0 <= i < l.len() implies l[i] != '\n' by {
        if i >= 9 {
            assert(l[i] == spec_dec_str(p as int)[i - 9]);
            assert(is_digit(spec_dec_str(p as int)[i - 9]));
        }
    }
    lemma_no_nl(l);
}

/// An unrecognized directive line is no declaration, provided its key is
/// a non-empty single word other than the declaration keyword.
proof fn lemma_other_line_props(k: Seq<char>, v: Seq<char>)
    requires
        k.len() > 0,
        first_ws(k) == k.len(),
        lower_seq(k) != kw_host(),
        !k.contains('\n'),
        !v.contains('\n'),
    ensures
        !is_host_decl(other_line(k, v)),
        !other_line(k, v).contains('\n'),
{
    crate::text::lemma_first_ws_bounds(k);
    assert forall|i: int| 0 <= i < k.len() implies !is_ws(#[trigger] k[i]) by {
        if is_ws(k[i]) {
            crate::text::lemma_first_ws_le(k, i);
        }
    }
    let tail = k + seq![' '] + v;
    assert(other_line(k, v) =~= indent() + tail);
    assert(tail[0] == k[0]);
    lemma_indented_trim_start(tail);
    let m = k.len() as int;
    if is_host_decl(other_line(k, v)) {
        if m >= 5 {
            assert(tail[4] == k[4]);
            assert(!is_ws(k[4]));
            assert(false);
        } else if m == 4 {
            assert(lower_char(k[0]) == 'h' && lower_char(k[1]) == 'o' && lower_char(k[2]) == 's'
                && lower_char(k[3]) == 't');
            assert(lower_seq(k) =~= kw_host());
            assert(false);
        } else {
            assert(tail[m] == ' ');
            assert(lower_char(tail[m]) == ' ');
            assert(false);
        }
    }
    let l = other_line(k, v);
    assert forall|i: int| 0 <= i < l.len() implies l[i] != '\n' by {
        if i < 4 {
        } else if i < 4 + m {
            assert(l[i] == k[i - 4]);
        } else if i == 4 + m {
            assert(l[i] == ' ');
        } else {
            assert(l[i] == v[i - 5 - m]);
        }
    }
    lemma_no_nl(l);
}

/// The shape of a rendered block: its first line declares the entry's
/// pattern, no later line is a declaration, and no line spans more than
/// one line of text.
pub proof fn lemma_render_lines_shape(e: EntryView)
    requires
        entry_wf(e),
    ensures
        spec_render_lines(e).len() >= 2,
        is_decl_for(spec_render_lines(e)[0], e.pattern),
        forall|i: int|
            1 <= i < spec_render_lines(e).len() ==> !is_host_decl(
                #[trigger] spec_render_lines(e)[i],
            ),
        forall|i: int|
            0 <= i < spec_render_lines(e).len() ==> !(#[trigger] spec_render_lines(e)[i]).contains(
                '\n',
            ),
        count_decls(spec_render_lines(e)) == 1,
{
    let a = seq![decl_line(e.pattern)];
    let b = match e.hostname {
        Some(v) => a.push(hostname_line(v)),
        None => a,
    };
    let c = match e.user {
        Some(v) => b.push(user_line(v)),
        None => b,
    };
    let d = match e.port {
        Some(p) => c.push(port_line(p)),
        None => c,
    };
    let others = other_lines(e.other);
    let r = (d + others).push(Seq::<char>::empty());
    assert(spec_render_lines(e) == r);

    lemma_decl_line_props(e.pattern);
    match e.hostname {
        Some(v) => lemma_hostname_line_props(v),
        None => {},
    }
    match e.user {
        Some(v) => lemma_user_line_props(v),
        None => {},
    }
    match e.port {
        Some(p) => lemma_port_line_props(p),
        None => {},
    }

    assert(r[0] == decl_line(e.pattern));
    assert forall|i: int| 1 <= i < r.len() implies !is_host_decl(#[trigger] r[i])
        && !r[i].contains('\n') by {
        if i < d.len() {
        } else if i < d.len() + others.len() {
            let m = i - d.len();
            assert(r[i] == others[m]);
            assert(others[m] == other_line(e.other[m].0, e.other[m].1));
            lemma_other_line_props(e.other[m].0, e.other[m].1);
        } else {
            assert(r[i] =~= Seq::<char>::empty());
            lemma_no_nl(r[i]);
        }
    }
    assert(!r[0].contains('\n'));

    assert(count_decls(r) == 1) by {
        assert(r =~= seq![r[0]] + r.drop_first());
        lemma_count_decls_concat(seq![r[0]], r.drop_first());
        assert(count_decls(seq![r[0]]) == 1) by {
            assert(seq![r[0]].drop_first() =~= Seq::<Seq<char>>::empty());
        }
        assert forall|i: int| 0 <= i < r.drop_first().len() implies !is_host_decl(
            #[trigger] r.drop_first()[i],
        ) by {
            assert(r.drop_first()[i] == r[i + 1]);
        }
        lemma_count_decls_none(r.drop_first());
    }
}

/// Upsert of a pattern absent from the document appends exactly one new
/// block: every pre-existing line is unchanged and in place, and the
/// file's block count grows by exactly one.
pub proof fn lemma_upsert_absent(t: Seq<char>, e: EntryView)
    requires
        entry_wf(e),
        spec_find_host(spec_lines(t), e.pattern) is None,
    ensures
        ({
            let ls = spec_lines(t);
            let ls2 = spec_lines(spec_upsert_text(t, e));
            &&& ls2 == ls + spec_render_lines(e)
            &&& forall|k: int| 0 <= k < ls.len() ==> ls2[k] == ls[k]
            &&& count_decls(ls2) == count_decls(ls) + 1
        }),
{
    let ls = spec_lines(t);
    let block = spec_render_lines(e);
    lemma_render_lines_shape(e);
    lemma_lines_no_nl(t);
    let merged = ls + block;
    assert forall|i: int| 0 <= i < merged.len() implies !(#[trigger] merged[i]).contains(
        '\n',
    ) by {
        if i < ls.len() {
            assert(merged[i] == ls[i]);
        } else {
            assert(merged[i] == block[i - ls.len()]);
        }
    }
    lemma_lines_of_unlines(merged);
    lemma_count_decls_concat(ls, block);
}

/// Upsert of a pattern present in the document replaces exactly the lines
/// of that block -- from its declaration line up to the next declaration
/// or the end of the file -- with the freshly rendered block, and leaves
/// every line outside that range unchanged.
pub proof fn lemma_upsert_present(t: Seq<char>, e: EntryView)
    requires
        entry_wf(e),
        spec_find_host(spec_lines(t), e.pattern) is Some,
    ensures
        ({
            let ls = spec_lines(t);
            let i = spec_find_host(ls, e.pattern)->0;
            let j = spec_block_end(ls, i);
            let block = spec_render_lines(e);
            let ls2 = spec_lines(spec_upsert_text(t, e));
            &&& 0 <= i < j <= ls.len()
            &&& is_decl_for(ls[i], e.pattern)
            &&& forall|k: int| 0 <= k < i ==> !is_decl_for(#[trigger] ls[k], e.pattern)
            &&& forall|k: int| i < k < j ==> !is_host_decl(#[trigger] ls[k])
            &&& j < ls.len() ==> is_host_decl(ls[j])
            &&& ls2 == ls.take(i) + block + ls.skip(j)
            &&& forall|k: int| 0 <= k < i ==> ls2[k] == ls[k]
            &&& forall|k: int| j <= k < ls.len() ==> ls2[k - j + i + block.len()] == ls[k]
        }),
{
    let ls = spec_lines(t);
    let i = spec_find_host(ls, e.pattern)->0;
    lemma_find_host_props(ls, e.pattern);
    lemma_block_end_props(ls, i);
    let j = spec_block_end(ls, i);
    let block = spec_render_lines(e);
    lemma_render_lines_shape(e);
    lemma_lines_no_nl(t);
    let merged = ls.take(i) + block + ls.skip(j);
    assert forall|k: int| 0 <= k < merged.len() implies !(#[trigger] merged[k]).contains(
        '\n',
    ) by {
        if k < i {
            assert(merged[k] == ls[k]);
        } else if k < i + block.len() {
            assert(merged[k] == block[k - i]);
        } else {
            assert(merged[k] == ls[k - i - block.len() + j]);
        }
    }
    lemma_lines_of_unlines(merged);
    assert forall|k: int| 0 <= k < i implies merged[k] == ls[k] by {
        assert(merged[k] == ls.take(i)[k]);
    }
    assert forall|k: int| j <= k < ls.len() implies merged[k - j + i + block.len()] == ls[k] by {
        assert(merged[k - j + i + block.len()] == ls.skip(j)[k - j]);
    }
}

/// Delete of a present pattern removes exactly that block's lines and
/// leaves the rest of the file unchanged; delete of an absent pattern
/// leaves the text untouched, byte for byte.
pub proof fn lemma_delete(t: Seq<char>, pat: Seq<char>)
    ensures
        spec_find_host(spec_lines(t), pat) is None ==> spec_delete_text(t, pat) == t,
        spec_find_host(spec_lines(t), pat) is Some ==> ({
            let ls = spec_lines(t);
            let i = spec_find_host(ls, pat)->0;
            let j = spec_block_end(ls, i);
            let ls2 = spec_lines(spec_delete_text(t, pat));
            &&& 0 <= i < j <= ls.len()
            &&& is_decl_for(ls[i], pat)
            &&& forall|k: int| 0 <= k < i ==> !is_decl_for(#[trigger] ls[k], pat)
            &&& forall|k: int| i < k < j ==> !is_host_decl(#[trigger] ls[k])
            &&& ls2 == ls.take(i) + ls.skip(j)
            &&& forall|k: int| 0 <= k < i ==> ls2[k] == ls[k]
            &&& forall|k: int| j <= k < ls.len() ==> ls2[k - j + i] == ls[k]
        }),
{
    if spec_find_host(spec_lines(t), pat) is Some {
        let ls = spec_lines(t);
        let i = spec_find_host(ls, pat)->0;
        lemma_find_host_props(ls, pat);
        lemma_block_end_props(ls, i);
        let j = spec_block_end(ls, i);
        lemma_lines_no_nl(t);
        let merged = ls.take(i) + ls.skip(j);
        assert forall|k: int| 0 <= k < merged.len() implies !(#[trigger] merged[k]).contains(
            '\n',
        ) by {
            if k < i {
                assert(merged[k] == ls[k]);
            } else {
                assert(merged[k] == ls[k - i + j]);
            }
        }
        lemma_lines_of_unlines(merged);
        assert forall|k: int| 0 <= k < i implies merged[k] == ls[k] by {
            assert(merged[k] == ls.take(i)[k]);
        }
        assert forall|k: int| j <= k < ls.len() implies merged[k - j + i] == ls[k] by {
            assert(merged[k - j + i] == ls.skip(j)[k - j]);
        }
    }
}

} // verus!
