//! Character-level helpers shared by the parser and the block editor: whitespace,
//! trimming, inline comments, whitespace-separated words and ASCII case folding.
use vstd::prelude::*;

verus! {

/// The Unicode `White_Space` characters, the set that `char::is_whitespace` tests.
pub open spec fn is_ws(c: char) -> bool {
    let n = c as u32;
    (9 <= n && n <= 13) || n == 32 || n == 0x85 || n == 0xa0 || n == 0x1680 || (0x2000 <= n && n
        <= 0x200a) || n == 0x2028 || n == 0x2029 || n == 0x202f || n == 0x205f || n == 0x3000
}

/// Whether `c` is whitespace.
pub fn char_is_ws(c: char) -> (r: bool)
    ensures
        r == is_ws(c),
{
    let n = c as u32;
    (9 <= n && n <= 13) || n == 32 || n == 0x85 || n == 0xa0 || n == 0x1680 || (0x2000 <= n && n
        <= 0x200a) || n == 0x2028 || n == 0x2029 || n == 0x202f || n == 0x205f || n == 0x3000
}

/// `s` without its leading whitespace.
pub open spec fn trim_start(s: Seq<char>) -> Seq<char>
    decreases s.len(),
{
    if s.len() > 0 && is_ws(s[0]) {
        trim_start(s.drop_first())
    } else {
        s
    }
}

/// `s` without its trailing whitespace.
pub open spec fn trim_end(s: Seq<char>) -> Seq<char>
    decreases s.len(),
{
    if s.len() > 0 && is_ws(s.last()) {
        trim_end(s.drop_last())
    } else {
        s
    }
}

/// `s` without leading or trailing whitespace.
pub open spec fn trim(s: Seq<char>) -> Seq<char> {
    trim_end(trim_start(s))
}

/// The part of `s` before its first `#`: the line without its inline comment.
pub open spec fn strip_comment(s: Seq<char>) -> Seq<char>
    decreases s.len(),
{
    if s.len() == 0 {
        s
    } else if s[0] == '#' {
        Seq::empty()
    } else {
        seq![s[0]] + strip_comment(s.drop_first())
    }
}

/// Whether `c` occurs in `s`.
pub open spec fn has_char(s: Seq<char>, c: char) -> bool {
    exists|i: int| 0 <= i < s.len() && s[i] == c
}

/// The words of a scan over a prefix: those already closed, and the one being read.
pub struct WordScan {
    pub done: Seq<Seq<char>>,
    pub cur: Seq<char>,
}

/// Reads the characters of `s` one by one, closing a word at each whitespace character.
pub open spec fn word_scan(s: Seq<char>) -> WordScan
    decreases s.len(),
{
    if s.len() == 0 {
        WordScan { done: Seq::empty(), cur: Seq::empty() }
    } else {
        let st = word_scan(s.drop_last());
        let c = s.last();
        if is_ws(c) {
            if st.cur.len() > 0 {
                WordScan { done: st.done.push(st.cur), cur: Seq::empty() }
            } else {
                st
            }
        } else {
            WordScan { done: st.done, cur: st.cur.push(c) }
        }
    }
}

/// The maximal runs of non-whitespace characters of `s`, in order
/// (what `str::split_whitespace` yields).
pub open spec fn tokens(s: Seq<char>) -> Seq<Seq<char>> {
    let st = word_scan(s);
    if st.cur.len() > 0 {
        st.done.push(st.cur)
    } else {
        st.done
    }
}

/// The words of `ws` joined by single spaces.
pub open spec fn join_words(ws: Seq<Seq<char>>) -> Seq<char>
    decreases ws.len(),
{
    if ws.len() == 0 {
        Seq::empty()
    } else if ws.len() == 1 {
        ws[0]
    } else {
        join_words(ws.drop_last()) + seq![' '] + ws.last()
    }
}

/// The code of `c` with an ASCII capital mapped to its small letter.
pub open spec fn lower_code(c: char) -> u32 {
    if 65 <= c as u32 && c as u32 <= 90 {
        (c as u32 + 32) as u32
    } else {
        c as u32
    }
}

/// ASCII case-insensitive equality (what `str::eq_ignore_ascii_case` tests).
pub open spec fn eq_ignore_case(a: Seq<char>, b: Seq<char>) -> bool {
    a.len() == b.len() && forall|i: int| 0 <= i < a.len() ==> lower_code(a[i]) == lower_code(b[i])
}

/// The characters of `s`, one per element.
pub fn chars_of(s: &str) -> (v: Vec<char>)
    ensures
        v@ == s@,
{
    let n = s.unicode_len();
    let mut v: Vec<char> = Vec::with_capacity(n);
    let mut i: usize = 0;
    while i < n
        invariant
            n == s@.len(),
            i <= n,
            v@ == s@.take(i as int),
        decreases n - i,
    {
        v.push(s.get_char(i));
        i += 1;
        assert(v@ =~= s@.take(i as int));
    }
    assert(v@ =~= s@);
    v
}

/// `s` without leading or trailing whitespace (what `str::trim` returns).
pub fn trim_str(s: &str) -> (r: &str)
    ensures
        r@ == trim(s@),
{
    let cs = chars_of(s);
    let n = cs.len();
    let mut i: usize = 0;
    assert(s@.subrange(0, n as int) =~= s@);
    while i < n && char_is_ws(cs[i])
        invariant
            cs@ == s@,
            n == s@.len(),
            i <= n,
            trim_start(s@) == trim_start(s@.subrange(i as int, n as int)),
        decreases n - i,
    {
        assert(s@.subrange(i as int, n as int).drop_first() =~= s@.subrange(i + 1, n as int));
        i += 1;
    }
    let mut j: usize = n;
    while j > i && char_is_ws(cs[j - 1])
        invariant
            cs@ == s@,
            n == s@.len(),
            i <= j <= n,
            trim(s@) == trim_end(s@.subrange(i as int, j as int)),
        decreases j,
    {
        assert(s@.subrange(i as int, j as int).drop_last() =~= s@.subrange(i as int, j - 1));
        j -= 1;
    }
    s.substring_char(i, j)
}

/// `s` without trailing whitespace (what `str::trim_end` returns).
pub fn trim_end_str(s: &str) -> (r: &str)
    ensures
        r@ == trim_end(s@),
{
    let cs = chars_of(s);
    let n = cs.len();
    let mut j: usize = n;
    assert(s@.take(n as int) =~= s@);
    while j > 0 && char_is_ws(cs[j - 1])
        invariant
            cs@ == s@,
            n == s@.len(),
            j <= n,
            trim_end(s@) == trim_end(s@.take(j as int)),
        decreases j,
    {
        assert(s@.take(j as int).drop_last() =~= s@.take(j - 1));
        j -= 1;
    }
    s.substring_char(0, j)
}

proof fn lemma_strip_comment(s: Seq<char>, i: int)
    requires
        0 <= i <= s.len(),
        forall|j: int| 0 <= j < i ==> s[j] != '#',
        i == s.len() || s[i] == '#',
    ensures
        strip_comment(s) == s.take(i),
    decreases i,
{
    if i == 0 {
        assert(s.take(0) =~= Seq::<char>::empty());
        if s.len() == 0 {
            assert(s =~= Seq::<char>::empty());
        }
    } else {
        assert forall|j: int| 0 <= j < i - 1 implies s.drop_first()[j] != '#' by {
            assert(s.drop_first()[j] == s[j + 1]);
        }
        lemma_strip_comment(s.drop_first(), i - 1);
        assert(s.take(i) =~= seq![s[0]] + s.drop_first().take(i - 1));
    }
}

/// The part of `line` before its first `#`.
pub fn strip_inline_comment(line: &str) -> (r: &str)
    ensures
        r@ == strip_comment(line@),
{
    let cs = chars_of(line);
    let n = cs.len();
    let mut i: usize = 0;
    while i < n && cs[i] != '#'
        invariant
            cs@ == line@,
            n == line@.len(),
            i <= n,
            forall|j: int| 0 <= j < i ==> line@[j] != '#',
        decreases n - i,
    {
        i += 1;
    }
    proof {
        lemma_strip_comment(line@, i as int);
    }
    line.substring_char(0, i)
}

/// Whether `c` occurs in `s` (what `str::contains` tests for a character).
pub fn contains_char(s: &str, c: char) -> (r: bool)
    ensures
        r == has_char(s@, c),
{
    let cs = chars_of(s);
    let n = cs.len();
    let mut i: usize = 0;
    while i < n
        invariant
            cs@ == s@,
            n == s@.len(),
            i <= n,
            forall|j: int| 0 <= j < i ==> s@[j] != c,
        decreases n - i,
    {
        if cs[i] == c {
            return true;
        }
        i += 1;
    }
    false
}

/// The whitespace-separated words of `s`, in order.
pub fn split_words(s: &str) -> (r: Vec<String>)
    ensures
        r.deep_view() == tokens(s@),
{
    let cs = chars_of(s);
    let n = cs.len();
    let mut done: Vec<String> = Vec::new();
    let mut start: usize = 0;
    let mut i: usize = 0;
    while i < n
        invariant
            cs@ == s@,
            n == s@.len(),
            start <= i <= n,
            done.deep_view() == word_scan(s@.take(i as int)).done,
            word_scan(s@.take(i as int)).cur == s@.subrange(start as int, i as int),
        decreases n - i,
    {
        assert(s@.take(i + 1).drop_last() =~= s@.take(i as int));
        if char_is_ws(cs[i]) {
            if start < i {
                let w = String::from_str(s.substring_char(start, i));
                let ghost before = done.deep_view();
                done.push(w);
                assert(done.deep_view() =~= before.push(s@.subrange(start as int, i as int)));
            }
            start = i + 1;
            assert(s@.subrange(start as int, i + 1) =~= Seq::<char>::empty());
        } else {
            assert(s@.subrange(start as int, i + 1) =~= s@.subrange(start as int, i as int).push(
                s@[i as int],
            ));
        }
        i += 1;
    }
    assert(s@.take(n as int) =~= s@);
    if start < n {
        let w = String::from_str(s.substring_char(start, n));
        let ghost before = done.deep_view();
        done.push(w);
        assert(done.deep_view() =~= before.push(s@.subrange(start as int, n as int)));
    }
    done
}

/// The code of `c` with an ASCII capital mapped to its small letter.
pub fn lower_code_of(c: char) -> (r: u32)
    ensures
        r == lower_code(c),
{
    let n = c as u32;
    if 65 <= n && n <= 90 {
        n + 32
    } else {
        n
    }
}

/// ASCII case-insensitive equality of `a` and `b`.
pub fn eq_ignore_ascii_case(a: &str, b: &str) -> (r: bool)
    ensures
        r == eq_ignore_case(a@, b@),
{
    let ca = chars_of(a);
    let cb = chars_of(b);
    if ca.len() != cb.len() {
        return false;
    }
    let n = ca.len();
    let mut i: usize = 0;
    while i < n
        invariant
            ca@ == a@,
            cb@ == b@,
            n == a@.len(),
            n == b@.len(),
            i <= n,
            forall|j: int| 0 <= j < i ==> lower_code(a@[j]) == lower_code(b@[j]),
        decreases n - i,
    {
        if lower_code_of(ca[i]) != lower_code_of(cb[i]) {
            return false;
        }
        i += 1;
    }
    true
}

/// The words `ws[from..]` joined by single spaces.
pub fn join_words_from(ws: &Vec<String>, from: usize) -> (r: String)
    requires
        from <= ws.len(),
    ensures
        r@ == join_words(ws.deep_view().skip(from as int)),
{
    let mut r = String::new();
    let mut i: usize = from;
    while i < ws.len()
        invariant
            from <= i <= ws.len(),
            r@ == join_words(ws.deep_view().subrange(from as int, i as int)),
        decreases ws.len() - i,
    {
        let ghost sub = ws.deep_view().subrange(from as int, i + 1);
        assert(sub.drop_last() =~= ws.deep_view().subrange(from as int, i as int));
        assert(sub.last() == ws[i as int]@);
        if i == from {
            r = String::from_str(ws[i].as_str());
            assert(sub.len() == 1 && sub[0] == sub.last());
        } else {
            let ghost prev = r@;
            r.append(" ");
            r.append(ws[i].as_str());
            proof {
                reveal_strlit(" ");
            }
            assert(" "@ =~= seq![' ']);
            assert(r@ =~= prev + seq![' '] + sub.last());
        }
        assert(r@ =~= join_words(sub));
        i += 1;
    }
    assert(ws.deep_view().subrange(from as int, ws.len() as int) =~= ws.deep_view().skip(
        from as int,
    ));
    r
}

/// Whether `a` and `b` hold the same characters.
pub fn str_eq(a: &str, b: &str) -> (r: bool)
    ensures
        r == (a@ == b@),
{
    let ca = chars_of(a);
    let cb = chars_of(b);
    if ca.len() != cb.len() {
        return false;
    }
    let n = ca.len();
    let mut i: usize = 0;
    while i < n
        invariant
            ca@ == a@,
            cb@ == b@,
            n == a@.len(),
            n == b@.len(),
            i <= n,
            forall|j: int| 0 <= j < i ==> a@[j] == b@[j],
        decreases n - i,
    {
        if ca[i] != cb[i] {
            return false;
        }
        i += 1;
    }
    assert(a@ =~= b@);
    true
}

/// The lines of a scan over a prefix: those already ended by a line feed, and the
/// one being read.
pub struct LineScan {
    pub done: Seq<Seq<char>>,
    pub cur: Seq<char>,
}

/// `l` without one carriage return at its end.
pub open spec fn strip_cr(l: Seq<char>) -> Seq<char> {
    if l.len() > 0 && l.last() == '\r' {
        l.drop_last()
    } else {
        l
    }
}

/// Reads the characters of `s` one by one, ending a line at each line feed.
pub open spec fn line_scan(s: Seq<char>) -> LineScan
    decreases s.len(),
{
    if s.len() == 0 {
        LineScan { done: Seq::empty(), cur: Seq::empty() }
    } else {
        let st = line_scan(s.drop_last());
        if s.last() == '\n' {
            LineScan { done: st.done.push(strip_cr(st.cur)), cur: Seq::empty() }
        } else {
            LineScan { done: st.done, cur: st.cur.push(s.last()) }
        }
    }
}

/// The lines of `s` (what `str::lines` yields): split at each line feed, with one
/// carriage return before it dropped; a last line without a line feed counts when
/// it is not empty.
pub open spec fn text_lines(s: Seq<char>) -> Seq<Seq<char>> {
    let st = line_scan(s);
    if st.cur.len() > 0 {
        st.done.push(st.cur)
    } else {
        st.done
    }
}

/// Each of `ls` followed by a line feed.
pub open spec fn join_lines_spec(ls: Seq<Seq<char>>) -> Seq<char>
    decreases ls.len(),
{
    if ls.len() == 0 {
        Seq::empty()
    } else {
        join_lines_spec(ls.drop_last()) + ls.last() + seq!['\n']
    }
}

/// Splits the text of a file into its lines.
pub fn split_lines(text: &str) -> (r: Vec<String>)
    ensures
        r.deep_view() == text_lines(text@),
{
    let cs = chars_of(text);
    let n = cs.len();
    let mut done: Vec<String> = Vec::new();
    let mut start: usize = 0;
    let mut i: usize = 0;
    while i < n
        invariant
            cs@ == text@,
            n == text@.len(),
            start <= i <= n,
            done.deep_view() == line_scan(text@.take(i as int)).done,
            line_scan(text@.take(i as int)).cur == text@.subrange(start as int, i as int),
        decreases n - i,
    {
        assert(text@.take(i + 1).drop_last() =~= text@.take(i as int));
        if cs[i] == '\n' {
            let mut end = i;
            if end > start && cs[end - 1] == '\r' {
                end = end - 1;
            }
            assert(text@.subrange(start as int, end as int) =~= strip_cr(
                text@.subrange(start as int, i as int),
            ));
            let l = String::from_str(text.substring_char(start, end));
            let ghost before = done.deep_view();
            done.push(l);
            assert(done.deep_view() =~= before.push(text@.subrange(start as int, end as int)));
            start = i + 1;
            assert(text@.subrange(start as int, i + 1) =~= Seq::<char>::empty());
        } else {
            assert(text@.subrange(start as int, i + 1) =~= text@.subrange(
                start as int,
                i as int,
            ).push(text@[i as int]));
        }
        i += 1;
    }
    assert(text@.take(n as int) =~= text@);
    if start < n {
        let l = String::from_str(text.substring_char(start, n));
        let ghost before = done.deep_view();
        done.push(l);
        assert(done.deep_view() =~= before.push(text@.subrange(start as int, n as int)));
    }
    done
}

/// The text of a file made of `lines`: each line followed by a line feed.
pub fn join_lines(lines: &Vec<String>) -> (r: String)
    ensures
        r@ == join_lines_spec(lines.deep_view()),
{
    let mut r = String::new();
    let mut i: usize = 0;
    proof {
        reveal_strlit("\n");
    }
    assert(lines.deep_view().take(0) =~= Seq::<Seq<char>>::empty());
    while i < lines.len()
        invariant
            i <= lines.len(),
            r@ == join_lines_spec(lines.deep_view().take(i as int)),
            "\n"@ =~= seq!['\n'],
        decreases lines.len() - i,
    {
        let ghost prev = r@;
        assert(lines.deep_view().take(i + 1).drop_last() =~= lines.deep_view().take(i as int));
        r.append(lines[i].as_str());
        r.append("\n");
        assert(r@ =~= prev + lines[i as int]@ + seq!['\n']);
        i += 1;
    }
    assert(lines.deep_view().take(lines.len() as int) =~= lines.deep_view());
    r
}

/// Relies on `String::push`: the character is added at the end.
#[verifier::external_body]
pub(crate) fn push_char(s: &mut String, c: char)
    ensures
        final(s)@ == old(s)@.push(c),
{
    s.push(c);
}

} // verus!
