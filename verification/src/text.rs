//! Character and string helpers shared by the crawl engine: whitespace
//! normalization, character-level truncation, markdown escaping, and the
//! case-insensitive tag-block stripper used before HTML parsing.

use vstd::prelude::*;
use vstd::string::StrSliceExecFns;

verus! {

/// The Unicode `White_Space` code points, as `str::split_whitespace`
/// and `str::trim` group characters.
pub open spec fn is_space_char(c: char) -> bool {
    (0x09 <= c as u32 && c as u32 <= 0x0d) || c as u32 == 0x20 || c as u32 == 0x85
        || c as u32 == 0xa0 || c as u32 == 0x1680
        || (0x2000 <= c as u32 && c as u32 <= 0x200a) || c as u32 == 0x2028
        || c as u32 == 0x2029 || c as u32 == 0x202f || c as u32 == 0x205f
        || c as u32 == 0x3000
}

pub fn is_space(c: char) -> (r: bool)
    ensures
        r == is_space_char(c),
{
    let n = c as u32;
    (0x09 <= n && n <= 0x0d) || n == 0x20 || n == 0x85 || n == 0xa0 || n == 0x1680 || (0x2000 <= n
        && n <= 0x200a) || n == 0x2028 || n == 0x2029 || n == 0x202f || n == 0x205f || n == 0x3000
}

/// ASCII lowercasing of one character; other characters are untouched.
pub open spec fn lower_char(c: char) -> char {
    if 0x41 <= c as u32 && c as u32 <= 0x5a {
        (((c as u32) + 0x20) as u8) as char
    } else {
        c
    }
}

pub fn ascii_lower(c: char) -> (r: char)
    ensures
        r == lower_char(c),
{
    let n = c as u32;
    if 0x41 <= n && n <= 0x5a {
        ((n + 0x20) as u8) as char
    } else {
        c
    }
}

pub open spec fn lower_seq(s: Seq<char>) -> Seq<char> {
    Seq::new(s.len(), |i: int| lower_char(s[i]))
}

/// The characters of `s`, in order.
pub fn chars_of(s: &str) -> (r: Vec<char>)
    ensures
        r@ == s@,
{
    let n: usize = s.unicode_len();
    let mut out: Vec<char> = Vec::new();
    let mut i: usize = 0;
    while i < n
        invariant
            n == s@.len(),
            i <= n,
            out@ == s@.take(i as int),
        decreases n - i,
    {
        let c = s.get_char(i);
        out.push(c);
        proof {
            assert(s@.take(i + 1) =~= s@.take(i as int).push(s@[i as int]));
        }
        i = i + 1;
    }
    proof {
        assert(s@.take(n as int) =~= s@);
    }
    out
}

/// Relies on std's `FromIterator for String`: collecting an iterator of
/// characters yields the string of exactly those characters in order.
#[verifier::external_body]
pub fn string_from_chars(v: &Vec<char>) -> (r: String)
    ensures
        r@ == v@,
{
    v.iter().collect()
}

pub fn lower_chars(v: &Vec<char>) -> (r: Vec<char>)
    ensures
        r@ == lower_seq(v@),
{
    let n: usize = v.len();
    let mut out: Vec<char> = Vec::new();
    let mut i: usize = 0;
    while i < n
        invariant
            n == v@.len(),
            i <= n,
            out@.len() == i,
            forall|j: int| 0 <= j < i ==> out@[j] == lower_char(v@[j]),
        decreases n - i,
    {
        out.push(ascii_lower(v[i]));
        i = i + 1;
    }
    proof {
        assert(out@ =~= lower_seq(v@));
    }
    out
}

/// Appends `src[from..to]` to `out`.
pub fn push_range(out: &mut Vec<char>, src: &Vec<char>, from: usize, to: usize)
    requires
        from <= to <= src@.len(),
    ensures
        final(out)@ == old(out)@ + src@.subrange(from as int, to as int),
{
    let mut i: usize = from;
    while i < to
        invariant
            from <= i <= to <= src@.len(),
            out@ == old(out)@ + src@.subrange(from as int, i as int),
        decreases to - i,
    {
        out.push(src[i]);
        proof {
            assert(src@.subrange(from as int, i + 1) =~= src@.subrange(from as int, i as int).push(
                src@[i as int],
            ));
        }
        i = i + 1;
    }
}

/// Whether the character sequences of two string slices are equal.
pub fn str_eq(a: &str, b: &str) -> (r: bool)
    ensures
        r == (a@ == b@),
{
    let na: usize = a.unicode_len();
    let nb: usize = b.unicode_len();
    if na != nb {
        proof {
            assert(a@ != b@);
        }
        return false;
    }
    let mut i: usize = 0;
    while i < na
        invariant
            na == a@.len(),
            na == b@.len(),
            i <= na,
            forall|j: int| 0 <= j < i ==> a@[j] == b@[j],
        decreases na - i,
    {
        if a.get_char(i) != b.get_char(i) {
            return false;
        }
        i = i + 1;
    }
    proof {
        assert(a@ =~= b@);
    }
    true
}

/// The sequence with leading white space dropped.
pub open spec fn trim_start_spec(s: Seq<char>) -> Seq<char>
    decreases s.len(),
{
    if s.len() > 0 && is_space_char(s[0]) {
        trim_start_spec(s.skip(1))
    } else {
        s
    }
}

/// The sequence with trailing white space dropped.
pub open spec fn trim_end_spec(s: Seq<char>) -> Seq<char>
    decreases s.len(),
{
    if s.len() > 0 && is_space_char(s.last()) {
        trim_end_spec(s.drop_last())
    } else {
        s
    }
}

/// What `str::trim` returns: the sequence with white space dropped at both ends.
pub open spec fn trim_spec(s: Seq<char>) -> Seq<char> {
    trim_end_spec(trim_start_spec(s))
}

proof fn lemma_trim_start_at(s: Seq<char>, lo: int)
    requires
        0 <= lo <= s.len(),
        forall|j: int| 0 <= j < lo ==> is_space_char(s[j]),
        lo < s.len() ==> !is_space_char(s[lo]),
    ensures
        trim_start_spec(s) == s.skip(lo),
    decreases lo,
{
    if lo == 0 {
        assert(s.skip(0) =~= s);
    } else {
        lemma_trim_start_at(s.skip(1), lo - 1);
        assert(s.skip(1).skip(lo - 1) =~= s.skip(lo));
    }
}

proof fn lemma_trim_end_at(s: Seq<char>, hi: int)
    requires
        0 <= hi <= s.len(),
        forall|j: int| hi <= j < s.len() ==> is_space_char(s[j]),
        hi > 0 ==> !is_space_char(s[hi - 1]),
    ensures
        trim_end_spec(s) == s.take(hi),
    decreases s.len() - hi,
{
    if hi == s.len() {
        assert(s.take(hi) =~= s);
    } else {
        lemma_trim_end_at(s.drop_last(), hi);
        assert(s.drop_last().take(hi) =~= s.take(hi));
    }
}

/// The characters of `v` with white space dropped at both ends.
pub fn trim_chars(v: &Vec<char>) -> (r: Vec<char>)
    ensures
        r@ == trim_spec(v@),
{
    let n: usize = v.len();
    let mut lo: usize = 0;
    while lo < n && is_space(v[lo])
        invariant
            n == v@.len(),
            lo <= n,
            forall|j: int| 0 <= j < lo ==> is_space_char(v@[j]),
        decreases n - lo,
    {
        lo = lo + 1;
    }
    let mut hi: usize = n;
    while hi > lo && is_space(v[hi - 1])
        invariant
            n == v@.len(),
            lo <= hi <= n,
            forall|j: int| hi <= j < n ==> is_space_char(v@[j]),
        decreases hi,
    {
        hi = hi - 1;
    }
    let mut out: Vec<char> = Vec::new();
    push_range(&mut out, v, lo, hi);
    proof {
        lemma_trim_start_at(v@, lo as int);
        let t = v@.skip(lo as int);
        lemma_trim_end_at(t, hi - lo);
        assert(t.take(hi - lo) =~= v@.subrange(lo as int, hi as int));
        assert(out@ =~= v@.subrange(lo as int, hi as int));
    }
    out
}

/// One step of the whitespace-collapsing pass: `pend` records whether a space
/// run was seen since the last word character.
pub open spec fn norm_run(out: Seq<char>, pend: bool, rest: Seq<char>) -> Seq<char>
    decreases rest.len(),
{
    if rest.len() == 0 {
        out
    } else if is_space_char(rest[0]) {
        norm_run(out, true, rest.skip(1))
    } else if out.len() > 0 && pend {
        norm_run(out.push(' ').push(rest[0]), false, rest.skip(1))
    } else {
        norm_run(out.push(rest[0]), false, rest.skip(1))
    }
}

/// What joining `split_whitespace` tokens with single spaces yields: runs of
/// white space collapse to one space, and both ends are trimmed.
pub open spec fn normalize_text_spec(s: Seq<char>) -> Seq<char> {
    norm_run(Seq::empty(), false, s)
}

/// Collapses every run of white space to a single space and trims the ends.
pub fn normalize_text(text: &str) -> (r: String)
    ensures
        r@ == normalize_text_spec(text@),
{
    let cs = chars_of(text);
    let n: usize = cs.len();
    let mut out: Vec<char> = Vec::new();
    let mut pend: bool = false;
    let mut i: usize = 0;
    proof {
        assert(cs@.skip(0) =~= cs@);
    }
    while i < n
        invariant
            n == cs@.len(),
            i <= n,
            normalize_text_spec(cs@) == norm_run(out@, pend, cs@.skip(i as int)),
        decreases n - i,
    {
        proof {
            assert(cs@.skip(i as int)[0] == cs@[i as int]);
            assert(cs@.skip(i as int).skip(1) =~= cs@.skip(i + 1));
        }
        let c = cs[i];
        if is_space(c) {
            pend = true;
        } else {
            if out.len() > 0 && pend {
                out.push(' ');
            }
            out.push(c);
            pend = false;
        }
        i = i + 1;
    }
    proof {
        assert(cs@.skip(n as int) =~= Seq::<char>::empty());
    }
    string_from_chars(&out)
}

/// The first `n` characters of `s`, or all of `s` if it is shorter.
pub open spec fn take_chars(s: Seq<char>, n: int) -> Seq<char> {
    if s.len() <= n {
        s
    } else {
        s.take(n)
    }
}

/// The first `max_chars` characters of `text`.
pub fn truncate_chars(text: &str, max_chars: usize) -> (r: String)
    ensures
        r@ == take_chars(text@, max_chars as int),
{
    let cs = chars_of(text);
    let n: usize = cs.len();
    let stop: usize = if n <= max_chars {
        n
    } else {
        max_chars
    };
    let mut out: Vec<char> = Vec::new();
    push_range(&mut out, &cs, 0, stop);
    proof {
        if n <= max_chars {
            assert(cs@.subrange(0, stop as int) =~= cs@);
        } else {
            assert(cs@.subrange(0, stop as int) =~= cs@.take(max_chars as int));
        }
        assert(out@ =~= Seq::<char>::empty() + out@);
    }
    string_from_chars(&out)
}

/// What the final report truncation yields: empty at a zero budget, otherwise
/// the first `n` characters.
pub open spec fn clip_chars(s: Seq<char>, n: int) -> Seq<char> {
    if n == 0 {
        Seq::empty()
    } else {
        take_chars(s, n)
    }
}

/// Hard-truncates `text` to `max_chars` characters; a zero budget yields the
/// empty string.
pub fn truncate_to_char_limit(text: String, max_chars: usize) -> (r: String)
    ensures
        r@ == clip_chars(text@, max_chars as int),
{
    if max_chars == 0 {
        return String::new();
    }
    truncate_chars(text.as_str(), max_chars)
}

/// The expansion of one character under markdown escaping.
pub open spec fn escape_char_seq(c: char) -> Seq<char> {
    if c == '\\' || c == '[' || c == ']' || c == '`' {
        seq!['\\', c]
    } else {
        seq![c]
    }
}

/// `s` with every backslash, square bracket and backtick preceded by a
/// backslash.
pub open spec fn escape_md_spec(s: Seq<char>) -> Seq<char>
    decreases s.len(),
{
    if s.len() == 0 {
        Seq::empty()
    } else {
        escape_md_spec(s.drop_last()) + escape_char_seq(s.last())
    }
}

/// Escapes the characters that would break a markdown inline context.
pub fn escape_md_inline(text: &str) -> (r: String)
    ensures
        r@ == escape_md_spec(text@),
{
    let cs = chars_of(text);
    let n: usize = cs.len();
    let mut out: Vec<char> = Vec::new();
    let mut i: usize = 0;
    while i < n
        invariant
            n == cs@.len(),
            i <= n,
            out@ == escape_md_spec(cs@.take(i as int)),
        decreases n - i,
    {
        proof {
            assert(cs@.take(i + 1).drop_last() =~= cs@.take(i as int));
            assert(cs@.take(i + 1).last() == cs@[i as int]);
        }
        let c = cs[i];
        if c == '\\' || c == '[' || c == ']' || c == '`' {
            out.push('\\');
            out.push(c);
        } else {
            out.push(c);
        }
        i = i + 1;
    }
    proof {
        assert(cs@.take(n as int) =~= cs@);
    }
    string_from_chars(&out)
}

/// The least index at or after `from` where `pat` occurs in `s`.
pub open spec fn first_occur(s: Seq<char>, pat: Seq<char>, from: int) -> Option<int>
    decreases s.len() - from + 1,
{
    if from < 0 || from + pat.len() > s.len() {
        None
    } else if s.subrange(from, from + pat.len()) == pat {
        Some(from)
    } else {
        first_occur(s, pat, from + 1)
    }
}

proof fn lemma_first_occur_bounds(s: Seq<char>, pat: Seq<char>, from: int)
    ensures
        first_occur(s, pat, from) matches Some(i) ==> from <= i && i + pat.len() <= s.len(),
    decreases s.len() - from + 1,
{
    if !(from < 0 || from + pat.len() > s.len()) && s.subrange(from, from + pat.len()) != pat {
        lemma_first_occur_bounds(s, pat, from + 1);
    }
}

/// Whether `a[i .. i + pat.len()]` equals `pat`.
pub fn chars_window_eq(a: &Vec<char>, i: usize, pat: &Vec<char>) -> (r: bool)
    requires
        i + pat@.len() <= a@.len(),
    ensures
        r == (a@.subrange(i as int, i as int + pat@.len() as int) == pat@),
{
    let n: usize = a.len();
    let m: usize = pat.len();
    let mut k: usize = 0;
    while k < m
        invariant
            n == a@.len(),
            m == pat@.len(),
            i + m <= n,
            k <= m,
            forall|j: int| 0 <= j < k ==> a@[i + j] == pat@[j],
        decreases m - k,
    {
        if a[i + k] != pat[k] {
            proof {
                assert(a@.subrange(i as int, i as int + m as int)[k as int] != pat@[k as int]);
            }
            return false;
        }
        k = k + 1;
    }
    proof {
        assert(a@.subrange(i as int, i as int + m as int) =~= pat@);
    }
    true
}

/// Whether two character vectors hold the same characters.
pub fn chars_eq(a: &Vec<char>, b: &Vec<char>) -> (r: bool)
    ensures
        r == (a@ == b@),
{
    if a.len() != b.len() {
        proof {
            assert(a@ != b@);
        }
        return false;
    }
    let r = chars_window_eq(a, 0, b);
    proof {
        assert(a@.subrange(0, b@.len() as int) =~= a@);
    }
    r
}

/// The least index at or after `from` where `pat` occurs in `a`.
pub fn find_from(a: &Vec<char>, pat: &Vec<char>, from: usize) -> (r: Option<usize>)
    ensures
        match r {
            Some(i) => first_occur(a@, pat@, from as int) == Some(i as int),
            None => first_occur(a@, pat@, from as int) is None,
        },
{
    let n: usize = a.len();
    let m: usize = pat.len();
    if from > n || m > n - from {
        return None;
    }
    if m == 0 {
        proof {
            assert(a@.subrange(from as int, from as int) =~= pat@);
        }
        return Some(from);
    }
    let mut j: usize = from;
    while j <= n - m
        invariant
            n == a@.len(),
            m == pat@.len(),
            1 <= m <= n,
            from <= j,
            j <= n - m + 1,
            first_occur(a@, pat@, from as int) == first_occur(a@, pat@, j as int),
        decreases n - j,
    {
        if chars_window_eq(a, j, pat) {
            return Some(j);
        }
        j = j + 1;
    }
    None
}

/// Whether `s` begins with `p`.
pub open spec fn starts_with_spec(s: Seq<char>, p: Seq<char>) -> bool {
    s.len() >= p.len() && s.take(p.len() as int) == p
}

pub fn chars_start_with(a: &Vec<char>, p: &Vec<char>) -> (r: bool)
    ensures
        r == starts_with_spec(a@, p@),
{
    if p.len() > a.len() {
        return false;
    }
    let r = chars_window_eq(a, 0, p);
    proof {
        assert(a@.subrange(0, p@.len() as int) =~= a@.take(p@.len() as int));
    }
    r
}

/// Whether `s` ends with `p`.
pub open spec fn ends_with_spec(s: Seq<char>, p: Seq<char>) -> bool {
    s.len() >= p.len() && s.skip(s.len() - p.len()) == p
}

pub fn chars_end_with(a: &Vec<char>, p: &Vec<char>) -> (r: bool)
    ensures
        r == ends_with_spec(a@, p@),
{
    if p.len() > a.len() {
        return false;
    }
    let start: usize = a.len() - p.len();
    let r = chars_window_eq(a, start, p);
    proof {
        assert(a@.subrange(start as int, start as int + p@.len() as int) =~= a@.skip(
            a@.len() - p@.len(),
        ));
    }
    r
}

/// Whether `pat` occurs anywhere in `s`.
pub open spec fn contains_spec(s: Seq<char>, pat: Seq<char>) -> bool {
    first_occur(s, pat, 0) is Some
}

pub fn chars_contain(a: &Vec<char>, pat: &Vec<char>) -> (r: bool)
    ensures
        r == contains_spec(a@, pat@),
{
    match find_from(a, pat, 0) {
        Some(_) => true,
        None => false,
    }
}

/// Strict lexicographic order on character sequences by code point, as `str`
/// comparison orders UTF-8 strings.
pub open spec fn lex_lt(a: Seq<char>, b: Seq<char>) -> bool
    decreases a.len(),
{
    if b.len() == 0 {
        false
    } else if a.len() == 0 {
        true
    } else if a[0] != b[0] {
        (a[0] as u32) < (b[0] as u32)
    } else {
        lex_lt(a.skip(1), b.skip(1))
    }
}

/// The lexicographic order is irreflexive.
pub proof fn lemma_lex_lt_irrefl(a: Seq<char>)
    ensures
        !lex_lt(a, a),
    decreases a.len(),
{
    if a.len() > 0 {
        lemma_lex_lt_irrefl(a.skip(1));
    }
}

/// The lexicographic order is transitive.
pub proof fn lemma_lex_lt_trans(a: Seq<char>, b: Seq<char>, c: Seq<char>)
    requires
        lex_lt(a, b),
        lex_lt(b, c),
    ensures
        lex_lt(a, c),
    decreases a.len() + b.len() + c.len(),
{
    if a.len() == 0 {
    } else if a[0] == b[0] && b[0] == c[0] {
        lemma_lex_lt_trans(a.skip(1), b.skip(1), c.skip(1));
    }
}

/// Whether `a` sorts strictly before `b`.
pub fn str_lt(a: &str, b: &str) -> (r: bool)
    ensures
        r == lex_lt(a@, b@),
{
    let na: usize = a.unicode_len();
    let nb: usize = b.unicode_len();
    let mut i: usize = 0;
    proof {
        assert(a@.skip(0) =~= a@);
        assert(b@.skip(0) =~= b@);
    }
    loop
        invariant
            na == a@.len(),
            nb == b@.len(),
            i <= na,
            i <= nb,
            lex_lt(a@, b@) == lex_lt(a@.skip(i as int), b@.skip(i as int)),
        decreases na - i,
    {
        proof {
            if i < na {
                assert(a@.skip(i as int)[0] == a@[i as int]);
                assert(a@.skip(i as int).skip(1) =~= a@.skip(i + 1));
            }
            if i < nb {
                assert(b@.skip(i as int)[0] == b@[i as int]);
                assert(b@.skip(i as int).skip(1) =~= b@.skip(i + 1));
            }
            assert(i >= na ==> a@.skip(i as int).len() == 0);
            assert(i >= nb ==> b@.skip(i as int).len() == 0);
        }
        if i >= nb {
            return false;
        }
        if i >= na {
            return true;
        }
        let ca = a.get_char(i);
        let cb = b.get_char(i);
        if ca != cb {
            return (ca as u32) < (cb as u32);
        }
        i = i + 1;
    }
}

/// The open pattern a tag block starts with: `<` followed by the lowercased
/// tag name.
pub open spec fn open_pat(tag: Seq<char>) -> Seq<char> {
    seq!['<'] + lower_seq(tag)
}

/// The close pattern a tag block ends with: `</`, the lowercased tag name, `>`.
pub open spec fn close_pat(tag: Seq<char>) -> Seq<char> {
    seq!['<', '/'] + lower_seq(tag) + seq!['>']
}

/// What remains of `h` from `idx` on after removing every block that starts at
/// an occurrence of `open` and runs through the next occurrence of `close`,
/// matched case-insensitively; an unterminated block removes the rest.
pub open spec fn strip_from(h: Seq<char>, open: Seq<char>, close: Seq<char>, idx: int) -> Seq<char>
    decreases h.len() - idx,
    via strip_from_decreases
{
    if open.len() == 0 || close.len() == 0 || idx < 0 {
        h.subrange(if 0 <= idx <= h.len() {
            idx
        } else {
            0
        }, h.len() as int)
    } else {
        match first_occur(lower_seq(h), open, idx) {
            None => h.subrange(idx, h.len() as int),
            Some(o) => h.subrange(idx, o) + match first_occur(
                lower_seq(h),
                close,
                o + open.len(),
            ) {
                None => Seq::empty(),
                Some(c) => strip_from(h, open, close, c + close.len() as int),
            },
        }
    }
}

#[via_fn]
proof fn strip_from_decreases(h: Seq<char>, open: Seq<char>, close: Seq<char>, idx: int) {
    if !(open.len() == 0 || close.len() == 0 || idx < 0) {
        lemma_first_occur_bounds(lower_seq(h), open, idx);
        if let Some(o) = first_occur(lower_seq(h), open, idx) {
            lemma_first_occur_bounds(lower_seq(h), close, o + open.len() as int);
        }
    }
}

/// `html` with every `<tag ... </tag>` block removed, matching the tag name
/// case-insensitively; an unterminated block removes the rest of the input.
pub open spec fn strip_tag_blocks_spec(h: Seq<char>, tag: Seq<char>) -> Seq<char> {
    strip_from(h, open_pat(tag), close_pat(tag), 0)
}

/// Removes every block delimited by `<tag_name` and `</tag_name>` from `html`.
pub fn strip_tag_blocks(html: &str, tag_name: &str) -> (r: String)
    ensures
        r@ == strip_tag_blocks_spec(html@, tag_name@),
{
    let h = chars_of(html);
    let hl = lower_chars(&h);
    let tag_raw = chars_of(tag_name);
    let tag_l = lower_chars(&tag_raw);
    let mut open_v: Vec<char> = Vec::new();
    open_v.push('<');
    push_range(&mut open_v, &tag_l, 0, tag_l.len());
    let mut close_v: Vec<char> = Vec::new();
    close_v.push('<');
    close_v.push('/');
    push_range(&mut close_v, &tag_l, 0, tag_l.len());
    close_v.push('>');
    proof {
        assert(tag_l@.subrange(0, tag_l@.len() as int) =~= tag_l@);
        assert(open_v@ =~= open_pat(tag_name@));
        assert(close_v@ =~= close_pat(tag_name@));
    }
    let n: usize = h.len();
    let mut out: Vec<char> = Vec::new();
    let mut idx: usize = 0;
    loop
        invariant_except_break
            strip_tag_blocks_spec(h@, tag_name@) == out@ + strip_from(
                h@,
                open_v@,
                close_v@,
                idx as int,
            ),
        invariant
            n == h@.len(),
            hl@ == lower_seq(h@),
            open_v@ == open_pat(tag_name@),
            close_v@ == close_pat(tag_name@),
            idx <= n,
        ensures
            out@ == strip_tag_blocks_spec(h@, tag_name@),
        decreases n - idx,
    {
        proof {
            lemma_first_occur_bounds(hl@, open_v@, idx as int);
            assert(open_v@.len() >= 1);
            assert(close_v@.len() >= 3);
        }
        let ghost spec_rest = strip_from(h@, open_v@, close_v@, idx as int);
        match find_from(&hl, &open_v, idx) {
            None => {
                push_range(&mut out, &h, idx, n);
                proof {
                    assert(spec_rest == h@.subrange(idx as int, n as int));
                    assert(out@ == strip_tag_blocks_spec(h@, tag_name@));
                }
                break ;
            },
            Some(o) => {
                let ghost out_old = out@;
                push_range(&mut out, &h, idx, o);
                let sf: usize = o + open_v.len();
                proof {
                    lemma_first_occur_bounds(hl@, close_v@, sf as int);
                }
                match find_from(&hl, &close_v, sf) {
                    None => {
                        proof {
                            assert(spec_rest == h@.subrange(idx as int, o as int)
                                + Seq::<char>::empty());
                            assert(out_old + (h@.subrange(idx as int, o as int)
                                + Seq::<char>::empty()) =~= out_old + h@.subrange(
                                idx as int,
                                o as int,
                            ));
                            assert(out@ == strip_tag_blocks_spec(h@, tag_name@));
                        }
                        break ;
                    },
                    Some(c) => {
                        let prev: usize = idx;
                        idx = c + close_v.len();
                        proof {
                            let tail = strip_from(h@, open_v@, close_v@, idx as int);
                            assert(spec_rest == h@.subrange(prev as int, o as int) + tail);
                            assert(out_old + (h@.subrange(prev as int, o as int) + tail) =~= (
                            out_old + h@.subrange(prev as int, o as int)) + tail);
                        }
                    },
                }
            },
        }
    }
    string_from_chars(&out)
}

} // verus!
