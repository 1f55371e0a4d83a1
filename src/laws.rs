//! Properties that relate the parser and the block editor, proved over their models.
use vstd::prelude::*;
use crate::text::{
    eq_ignore_case, is_ws, join_lines_spec, join_words, line_scan, lower_code, strip_comment,
    strip_cr, text_lines, tokens, trim, trim_end, trim_start, word_scan,
};
use crate::ssh_config::{
    apply_directive, blank_entry, close_current, delete_lines, drop_leading_blank,
    drop_trailing_blank, find_block, find_from, header_name, is_header, is_pattern,
    keyword_line, lemma_find_block_bounds, line_words, next_header, parse_lines, parse_prefix,
    parse_step, render_body, render_entry, update_lines, upsert_lines, HostEntryView, ParseState,
};

verus! {

proof fn lemma_parse_prefix_no_pattern(lines: Seq<Seq<char>>)
    ensures
        forall|i: int|
            0 <= i < parse_prefix(lines).entries.len() ==> !is_pattern(
                #[trigger] parse_prefix(lines).entries[i].host,
            ),
        parse_prefix(lines).current matches Some(e) ==> !is_pattern(e.host),
    decreases lines.len(),
{
    if lines.len() > 0 {
        lemma_parse_prefix_no_pattern(lines.drop_last());
        let st = parse_prefix(lines.drop_last());
        let nst = parse_step(st, lines.last());
        assert(nst == parse_prefix(lines));
        assert forall|i: int| 0 <= i < nst.entries.len() implies !is_pattern(
            #[trigger] nst.entries[i].host,
        ) by {
            if i < st.entries.len() {
                assert(nst.entries[i] == st.entries[i] || nst.entries == close_current(st));
            }
        }
    }
}

/// No record that the parser returns is named by a pattern: the lines of a
/// `Host *` block never give a record.
pub proof fn lemma_no_pattern_records(lines: Seq<Seq<char>>)
    ensures
        forall|i: int|
            0 <= i < parse_lines(lines).len() ==> !is_pattern(#[trigger] parse_lines(lines)[i].host),
{
    lemma_parse_prefix_no_pattern(lines);
}

/// No block is ever located at a pattern `Host` line, and a pattern name locates
/// no block at all: pattern blocks are never the target of an edit or a removal.
pub proof fn lemma_pattern_block_never_targeted(lines: Seq<Seq<char>>, name: Seq<char>)
    ensures
        is_pattern(name) ==> find_block(lines, name) is None,
        find_block(lines, name) matches Some((s, t)) ==> (header_name(lines[s]) matches Some(n)
            && !is_pattern(n)),
{
    lemma_find_block_bounds(lines, name);
}

/// Reading lines while no record is open and none of them is a `Host` line
/// changes nothing.
proof fn lemma_run_idle(st: ParseState, body: Seq<Seq<char>>)
    requires
        (st.current is None),
        no_headers(body),
    ensures
        parse_run(st, body) == st,
    decreases body.len(),
{
    if body.len() > 0 {
        let prev = body.drop_last();
        assert forall|i: int| 0 <= i < prev.len() implies !is_header(#[trigger] prev[i]) by {
            assert(prev[i] == body[i]);
        }
        lemma_run_idle(st, prev);
        assert(!is_header(body[body.len() - 1]));
    }
}

/// The lines of a pattern block reach no record: parsing a file gives the same
/// records whether the lines after a pattern `Host` line, up to the next `Host`
/// line, are there or not.
pub proof fn lemma_pattern_block_ignored(
    pre: Seq<Seq<char>>,
    h: Seq<char>,
    body: Seq<Seq<char>>,
    post: Seq<Seq<char>>,
)
    requires
        (header_name(h) matches Some(n) && is_pattern(n)),
        no_headers(body),
    ensures
        parse_lines(pre + seq![h] + body + post) == parse_lines(pre + seq![h] + post),
{
    let init = ParseState { entries: Seq::empty(), current: None };
    let a = pre + seq![h];
    lemma_parse_run_concat(init, pre, seq![h]);
    lemma_parse_run_one(parse_run(init, pre), h);
    let sa = parse_run(init, a);
    assert(sa.current is None);
    lemma_run_idle(sa, body);
    lemma_parse_run_concat(init, a, body);
    lemma_parse_run_concat(init, a + body, post);
    lemma_parse_run_concat(init, a, post);
    lemma_parse_run_start(a + body + post);
    lemma_parse_run_start(a + post);
}

/// Writing a record over a block, or appending it, keeps its unrecognized lines
/// verbatim and in order, one after another.
pub proof fn lemma_update_keeps_extra(lines: Seq<Seq<char>>, original: Seq<char>, e: HostEntryView)
    ensures
        exists|k: int|
            0 <= k && k + e.extra.len() <= update_lines(lines, original, e).len()
                && #[trigger] update_lines(lines, original, e).subrange(k, k + e.extra.len())
                == e.extra,
{
    let out = update_lines(lines, original, e);
    let r = render_entry(e);
    let h = render_body(e).len() - e.extra.len();
    assert(r.subrange(h, h + e.extra.len()) =~= e.extra);
    lemma_find_block_bounds(lines, original);
    match find_block(lines, original) {
        Some((s, t)) => {
            assert(out == lines.take(s) + r + lines.skip(t));
            assert(out.subrange(s + h, s + h + e.extra.len()) =~= e.extra);
        },
        None => {
            let base = if lines.len() > 0 && lines.last().len() > 0 {
                lines.push(Seq::empty())
            } else {
                lines
            };
            assert(out == base + r);
            assert(out.subrange(base.len() + h, base.len() + h + e.extra.len()) =~= e.extra);
        },
    }
}

/// Writing a record over the block named `original` leaves every line before that
/// block, and every line from the next block on, as it was; appending leaves every
/// line of the file as it was.
pub proof fn lemma_update_isolation(lines: Seq<Seq<char>>, original: Seq<char>, e: HostEntryView)
    ensures
        match find_block(lines, original) {
            Some((s, t)) => {
                let out = update_lines(lines, original, e);
                &&& out.take(s) == lines.take(s)
                &&& out.skip(out.len() - (lines.len() - t)) == lines.skip(t)
            },
            None => update_lines(lines, original, e).take(lines.len() as int) == lines,
        },
{
    lemma_find_block_bounds(lines, original);
    let out = update_lines(lines, original, e);
    match find_block(lines, original) {
        Some((s, t)) => {
            let r = render_entry(e);
            assert(out == lines.take(s) + r + lines.skip(t));
            assert(out.take(s) =~= lines.take(s));
            assert(out.skip(out.len() - (lines.len() - t)) =~= lines.skip(t));
        },
        None => {
            assert(out.take(lines.len() as int) =~= lines);
        },
    }
}

proof fn lemma_tokens_empty(s: Seq<char>)
    requires
        s.len() == 0,
    ensures
        tokens(s).len() == 0,
{
    assert(word_scan(s).done.len() == 0);
}

proof fn lemma_header_not_empty(x: Seq<char>)
    requires
        is_header(x),
    ensures
        x.len() > 0,
{
    if x.len() == 0 {
        assert(strip_comment(x) == x);
        lemma_tokens_empty(x);
    }
}

proof fn lemma_next_header_is_header(lines: Seq<Seq<char>>, from: int)
    requires
        0 <= from,
        next_header(lines, from) < lines.len(),
    ensures
        from <= next_header(lines, from),
        is_header(lines[next_header(lines, from)]),
    decreases lines.len() - from,
{
    if from < lines.len() && !is_header(lines[from]) {
        lemma_next_header_is_header(lines, from + 1);
    }
}

/// Removing the block named `name` leaves every other line of the file as it was,
/// unless the block is the last one and the line before it is empty (then the
/// empty lines that end the file go too).
pub proof fn lemma_delete_isolation(lines: Seq<Seq<char>>, name: Seq<char>)
    requires
        find_block(lines, name) matches Some((s, t)) ==> (t < lines.len() || s == 0 || lines[s
            - 1].len() > 0),
    ensures
        match find_block(lines, name) {
            Some((s, t)) => delete_lines(lines, name) == lines.take(s) + lines.skip(t),
            None => delete_lines(lines, name) == lines,
        },
{
    lemma_find_block_bounds(lines, name);
    match find_block(lines, name) {
        Some((s, t)) => {
            assert(t == next_header(lines, s + 1));
            if t < lines.len() {
                lemma_next_header_is_header(lines, s + 1);
                lemma_header_not_empty(lines[t]);
                assert(lines.skip(t)[0] == lines[t]);
                assert(drop_leading_blank(lines.skip(t)) == lines.skip(t));
            } else {
                assert(lines.skip(t) =~= Seq::<Seq<char>>::empty());
                if s == 0 {
                    assert(lines.take(s) =~= Seq::<Seq<char>>::empty());
                } else {
                    assert(lines.take(s).last() == lines[s - 1]);
                }
                assert(drop_trailing_blank(lines.take(s)) == lines.take(s));
                assert(lines.take(s) + lines.skip(t) =~= lines.take(s));
            }
        },
        None => {},
    }
}

proof fn lemma_scan_ends_clear(a: Seq<char>)
    requires
        a.len() == 0 || is_ws(a.last()),
    ensures
        word_scan(a).cur.len() == 0,
{
}

proof fn lemma_scan_concat(a: Seq<char>, b: Seq<char>)
    requires
        word_scan(a).cur.len() == 0,
    ensures
        word_scan(a + b).done == word_scan(a).done + word_scan(b).done,
        word_scan(a + b).cur == word_scan(b).cur,
    decreases b.len(),
{
    if b.len() == 0 {
        assert(a + b =~= a);
        assert(word_scan(a).done + word_scan(b).done =~= word_scan(a).done);
    } else {
        lemma_scan_concat(a, b.drop_last());
        assert((a + b).drop_last() =~= a + b.drop_last());
        assert((a + b).last() == b.last());
        let sa = word_scan(a);
        let sb = word_scan(b.drop_last());
        if is_ws(b.last()) && sb.cur.len() > 0 {
            assert(sa.done + sb.done.push(sb.cur) =~= (sa.done + sb.done).push(sb.cur));
        }
    }
}

/// Words do not run across a whitespace character that ends `a`.
proof fn lemma_tokens_concat(a: Seq<char>, b: Seq<char>)
    requires
        a.len() == 0 || is_ws(a.last()),
    ensures
        tokens(a + b) == tokens(a) + tokens(b),
{
    lemma_scan_ends_clear(a);
    lemma_scan_concat(a, b);
    let sb = word_scan(b);
    if sb.cur.len() > 0 {
        assert(word_scan(a).done + sb.done.push(sb.cur) =~= (word_scan(a).done + sb.done).push(
            sb.cur,
        ));
    }
}

pub open spec fn all_ws(s: Seq<char>) -> bool {
    forall|i: int| 0 <= i < s.len() ==> is_ws(#[trigger] s[i])
}

pub open spec fn no_ws(w: Seq<char>) -> bool {
    forall|i: int| 0 <= i < w.len() ==> !is_ws(#[trigger] w[i])
}

proof fn lemma_scan_word(w: Seq<char>)
    requires
        no_ws(w),
    ensures
        word_scan(w).done.len() == 0,
        word_scan(w).cur == w,
    decreases w.len(),
{
    if w.len() > 0 {
        lemma_scan_word(w.drop_last());
        assert(word_scan(w.drop_last()).cur.push(w.last()) =~= w);
    }
}

/// A non-empty run without whitespace is one word.
proof fn lemma_tokens_word(w: Seq<char>)
    requires
        w.len() > 0,
        no_ws(w),
    ensures
        tokens(w) == seq![w],
{
    lemma_scan_word(w);
    assert(Seq::<Seq<char>>::empty().push(w) =~= seq![w]);
}

/// A label of leading spaces, one word and one space is that word, whatever follows.
proof fn lemma_tokens_label(pre: Seq<char>, w: Seq<char>, v: Seq<char>)
    requires
        all_ws(pre),
        w.len() > 0,
        no_ws(w),
    ensures
        tokens(pre + w + seq![' '] + v) == seq![w] + tokens(v),
{
    lemma_scan_spaces(pre);
    lemma_scan_word(w);
    lemma_scan_concat(pre, w);
    let wl = pre + w + seq![' '];
    assert(wl.drop_last() =~= pre + w);
    assert(word_scan(wl).done =~= seq![w]);
    lemma_tokens_concat(wl, v);
    assert(tokens(wl) =~= seq![w]);
}

proof fn lemma_scan_spaces(s: Seq<char>)
    requires
        forall|i: int| 0 <= i < s.len() ==> is_ws(#[trigger] s[i]),
    ensures
        word_scan(s).done.len() == 0,
        word_scan(s).cur.len() == 0,
    decreases s.len(),
{
    if s.len() > 0 {
        lemma_scan_spaces(s.drop_last());
    }
}

pub open spec fn no_hash(s: Seq<char>) -> bool {
    forall|i: int| 0 <= i < s.len() ==> #[trigger] s[i] != '#'
}

/// A prefix without `#` is kept whole by comment stripping.
proof fn lemma_strip_comment_prefix(a: Seq<char>, b: Seq<char>)
    requires
        no_hash(a),
    ensures
        strip_comment(a + b) == a + strip_comment(b),
    decreases a.len(),
{
    if a.len() == 0 {
        assert(a + b =~= b);
        assert(a + strip_comment(b) =~= strip_comment(b));
    } else {
        assert((a + b)[0] == a[0]);
        assert((a + b).drop_first() =~= a.drop_first() + b);
        assert(no_hash(a.drop_first())) by {
            assert forall|i: int| 0 <= i < a.drop_first().len() implies #[trigger] a.drop_first()[i]
                != '#' by {
                assert(a.drop_first()[i] == a[i + 1]);
            }
        }
        lemma_strip_comment_prefix(a.drop_first(), b);
        assert(seq![a[0]] + (a.drop_first() + strip_comment(b)) =~= a + strip_comment(b));
    }
}

proof fn lemma_strip_comment_none(a: Seq<char>)
    requires
        no_hash(a),
    ensures
        strip_comment(a) == a,
{
    lemma_strip_comment_prefix(a, Seq::empty());
    assert(a + Seq::<char>::empty() =~= a);
    assert(strip_comment(Seq::<char>::empty()) =~= Seq::<char>::empty());
}

proof fn lemma_no_hash_concat(a: Seq<char>, b: Seq<char>)
    requires
        no_hash(a),
        no_hash(b),
    ensures
        no_hash(a + b),
{
    assert forall|i: int| 0 <= i < (a + b).len() implies #[trigger] (a + b)[i] != '#' by {
        if i < a.len() {
            assert((a + b)[i] == a[i]);
        } else {
            assert((a + b)[i] == b[i - a.len()]);
        }
    }
}

/// The words of a line made of leading spaces, a keyword `w`, one space and `v`.
proof fn lemma_labelled_line_words(pre: Seq<char>, w: Seq<char>, v: Seq<char>)
    requires
        all_ws(pre),
        no_hash(pre),
        w.len() > 0,
        no_ws(w),
        no_hash(w),
    ensures
        line_words(pre + w + seq![' '] + v) == seq![w] + tokens(strip_comment(v)),
{
    let lab = pre + w + seq![' '];
    lemma_no_hash_concat(pre, w);
    assert(no_hash(seq![' ']));
    lemma_no_hash_concat(pre + w, seq![' ']);
    lemma_strip_comment_prefix(lab, v);
    lemma_tokens_label(pre, w, strip_comment(v));
}

/// Facts about the literal labels of a rendered block.
proof fn lemma_labels()
    ensures
        "Host "@ == Seq::<char>::empty() + "Host"@ + seq![' '],
        "  HostName "@ == seq![' ', ' '] + "HostName"@ + seq![' '],
        "  User "@ == seq![' ', ' '] + "User"@ + seq![' '],
        "  Port "@ == seq![' ', ' '] + "Port"@ + seq![' '],
        "  IdentityFile "@ == seq![' ', ' '] + "IdentityFile"@ + seq![' '],
        "  ProxyCommand "@ == seq![' ', ' '] + "ProxyCommand"@ + seq![' '],
        "Host"@.len() > 0 && no_ws("Host"@) && no_hash("Host"@),
        "HostName"@.len() > 0 && no_ws("HostName"@) && no_hash("HostName"@),
        "User"@.len() > 0 && no_ws("User"@) && no_hash("User"@),
        "Port"@.len() > 0 && no_ws("Port"@) && no_hash("Port"@),
        "IdentityFile"@.len() > 0 && no_ws("IdentityFile"@) && no_hash("IdentityFile"@),
        "ProxyCommand"@.len() > 0 && no_ws("ProxyCommand"@) && no_hash("ProxyCommand"@),
        no_hash(seq![' ', ' ']),
        all_ws(seq![' ', ' ']),
        eq_ignore_case("Host"@, "host"@),
        !eq_ignore_case("HostName"@, "host"@),
        !eq_ignore_case("User"@, "host"@),
        !eq_ignore_case("Port"@, "host"@),
        !eq_ignore_case("IdentityFile"@, "host"@),
        !eq_ignore_case("ProxyCommand"@, "host"@),
{
    reveal_strlit("Host ");
    reveal_strlit("Host");
    reveal_strlit("host");
    reveal_strlit("  HostName ");
    reveal_strlit("HostName");
    reveal_strlit("  User ");
    reveal_strlit("User");
    reveal_strlit("  Port ");
    reveal_strlit("Port");
    reveal_strlit("  IdentityFile ");
    reveal_strlit("IdentityFile");
    reveal_strlit("  ProxyCommand ");
    reveal_strlit("ProxyCommand");
    assert("Host "@ =~= Seq::<char>::empty() + "Host"@ + seq![' ']);
    assert("  HostName "@ =~= seq![' ', ' '] + "HostName"@ + seq![' ']);
    assert("  User "@ =~= seq![' ', ' '] + "User"@ + seq![' ']);
    assert("  Port "@ =~= seq![' ', ' '] + "Port"@ + seq![' ']);
    assert("  IdentityFile "@ =~= seq![' ', ' '] + "IdentityFile"@ + seq![' ']);
    assert("  ProxyCommand "@ =~= seq![' ', ' '] + "ProxyCommand"@ + seq![' ']);
    assert(lower_code("User"@[0]) != lower_code("host"@[0]));
    assert(lower_code("Port"@[0]) != lower_code("host"@[0]));
}

/// The lines of a sequence that are no `Host` lines.
pub open spec fn no_headers(ls: Seq<Seq<char>>) -> bool {
    forall|i: int| 0 <= i < ls.len() ==> !is_header(#[trigger] ls[i])
}

proof fn lemma_no_headers_concat(a: Seq<Seq<char>>, b: Seq<Seq<char>>)
    requires
        no_headers(a),
        no_headers(b),
    ensures
        no_headers(a + b),
{
    assert forall|i: int| 0 <= i < (a + b).len() implies !is_header(#[trigger] (a + b)[i]) by {
        if i < a.len() {
            assert((a + b)[i] == a[i]);
        } else {
            assert((a + b)[i] == b[i - a.len()]);
        }
    }
}

proof fn lemma_keyword_line_no_header(w: Seq<char>, v: Seq<char>)
    requires
        w.len() > 0,
        no_ws(w),
        no_hash(w),
        !eq_ignore_case(w, "host"@),
        no_hash(seq![' ', ' ']),
        all_ws(seq![' ', ' ']),
    ensures
        no_headers(keyword_line(seq![' ', ' '] + w + seq![' '], v)),
{
    if trim(v).len() > 0 {
        lemma_labelled_line_words(seq![' ', ' '], w, trim(v));
        let l = seq![' ', ' '] + w + seq![' '] + trim(v);
        assert(keyword_line(seq![' ', ' '] + w + seq![' '], v) =~= seq![l]);
        assert(line_words(l)[0] == w);
    }
}

/// A host name that is one word: not empty, without whitespace and without `#`.
pub open spec fn single_word(h: Seq<char>) -> bool {
    h.len() > 0 && no_ws(h) && no_hash(h)
}

proof fn lemma_trim_word(h: Seq<char>)
    requires
        single_word(h),
    ensures
        trim(h) == h,
{
    assert(trim_start(h) == h);
    assert(trim_end(h) == h);
}

/// The first line of a rendered block is a `Host` line with the record's name.
proof fn lemma_render_head(e: HostEntryView)
    requires
        single_word(e.host),
    ensures
        render_entry(e).len() >= 1,
        render_entry(e)[0] == "Host "@ + e.host,
        header_name(render_entry(e)[0]) == Some(e.host),
{
    lemma_labels();
    lemma_trim_word(e.host);
    let r = render_entry(e);
    assert(r[0] == render_body(e)[0]);
    lemma_labelled_line_words(Seq::empty(), "Host"@, e.host);
    assert(Seq::<char>::empty() + "Host"@ + seq![' '] + e.host == "Host "@ + e.host);
    lemma_strip_comment_none(e.host);
    lemma_tokens_word(e.host);
    assert(line_words("Host "@ + e.host) =~= seq!["Host"@, e.host]);
}

/// No line of a rendered block after the first is a `Host` line, when none of the
/// record's unrecognized lines is one.
proof fn lemma_render_rest(e: HostEntryView)
    requires
        no_headers(e.extra),
    ensures
        no_headers(render_entry(e).drop_first()),
{
    lemma_labels();
    let kws = keyword_line("  HostName "@, e.hostname) + keyword_line("  User "@, e.user)
        + keyword_line("  Port "@, e.port) + keyword_line("  IdentityFile "@, e.identity_file)
        + keyword_line("  ProxyCommand "@, e.proxy_command);
    lemma_keyword_line_no_header("HostName"@, e.hostname);
    lemma_keyword_line_no_header("User"@, e.user);
    lemma_keyword_line_no_header("Port"@, e.port);
    lemma_keyword_line_no_header("IdentityFile"@, e.identity_file);
    lemma_keyword_line_no_header("ProxyCommand"@, e.proxy_command);
    lemma_no_headers_concat(
        keyword_line("  HostName "@, e.hostname),
        keyword_line("  User "@, e.user),
    );
    lemma_no_headers_concat(
        keyword_line("  HostName "@, e.hostname) + keyword_line("  User "@, e.user),
        keyword_line("  Port "@, e.port),
    );
    lemma_no_headers_concat(
        keyword_line("  HostName "@, e.hostname) + keyword_line("  User "@, e.user)
            + keyword_line("  Port "@, e.port),
        keyword_line("  IdentityFile "@, e.identity_file),
    );
    lemma_no_headers_concat(
        keyword_line("  HostName "@, e.hostname) + keyword_line("  User "@, e.user)
            + keyword_line("  Port "@, e.port) + keyword_line("  IdentityFile "@, e.identity_file),
        keyword_line("  ProxyCommand "@, e.proxy_command),
    );
    lemma_no_headers_concat(kws, e.extra);
    let body = render_body(e);
    assert(body.drop_first() =~= kws + e.extra);
    if body.last().len() == 0 {
        assert(render_entry(e).drop_first() == body.drop_first());
    } else {
        let blank: Seq<Seq<char>> = seq![Seq::empty()];
        assert forall|i: int| 0 <= i < blank.len() implies !is_header(#[trigger] blank[i]) by {
            if is_header(blank[i]) {
                lemma_header_not_empty(blank[i]);
            }
        }
        lemma_no_headers_concat(kws + e.extra, blank);
        assert(render_entry(e).drop_first() =~= kws + e.extra + blank);
    }
}

proof fn lemma_find_from_skip(xs: Seq<Seq<char>>, h: Seq<char>, i: int, s: int)
    requires
        0 <= i <= s <= xs.len(),
        forall|j: int| i <= j < s ==> header_name(#[trigger] xs[j]) != Some(h),
    ensures
        find_from(xs, h, i) == find_from(xs, h, s),
    decreases s - i,
{
    if i < s {
        lemma_find_from_skip(xs, h, i + 1, s);
    }
}

proof fn lemma_find_from_first(xs: Seq<Seq<char>>, h: Seq<char>, i: int)
    requires
        0 <= i,
    ensures
        match find_from(xs, h, i) {
            Some((s, _)) => forall|j: int| i <= j < s ==> header_name(#[trigger] xs[j]) != Some(h),
            None => forall|j: int| i <= j < xs.len() ==> header_name(#[trigger] xs[j]) != Some(h),
        },
    decreases xs.len() - i,
{
    if i < xs.len() && header_name(xs[i]) != Some(h) {
        lemma_find_from_first(xs, h, i + 1);
    }
}

proof fn lemma_next_header_at(xs: Seq<Seq<char>>, i: int, k: int)
    requires
        0 <= i <= k <= xs.len(),
        forall|j: int| i <= j < k ==> !is_header(#[trigger] xs[j]),
        k == xs.len() || is_header(xs[k]),
    ensures
        next_header(xs, i) == k,
    decreases k - i,
{
    if i < k {
        lemma_next_header_at(xs, i + 1, k);
    }
}

/// In `pre + r + post`, where `r` is a rendered block for a one-word host name whose
/// later lines are no `Host` lines, no line of `pre` names that host, and `post` is
/// empty or starts with a `Host` line, the block of that host is exactly `r`.
proof fn lemma_find_rendered(
    pre: Seq<Seq<char>>,
    post: Seq<Seq<char>>,
    e: HostEntryView,
)
    requires
        single_word(e.host),
        !is_pattern(e.host),
        no_headers(e.extra),
        forall|j: int| 0 <= j < pre.len() ==> header_name(#[trigger] pre[j]) != Some(e.host),
        post.len() == 0 || is_header(post[0]),
    ensures
        find_block(pre + render_entry(e) + post, e.host) == Some(
            (pre.len() as int, (pre.len() + render_entry(e).len()) as int),
        ),
{
    let r = render_entry(e);
    let xs = pre + r + post;
    let s = pre.len() as int;
    let n = r.len() as int;
    lemma_render_head(e);
    lemma_render_rest(e);
    assert forall|j: int| 0 <= j < s implies header_name(#[trigger] xs[j]) != Some(e.host) by {
        assert(xs[j] == pre[j]);
    }
    lemma_find_from_skip(xs, e.host, 0, s);
    assert(xs[s] == r[0]);
    assert forall|j: int| s + 1 <= j < s + n implies !is_header(#[trigger] xs[j]) by {
        assert(xs[j] == r.drop_first()[j - s - 1]);
    }
    if post.len() > 0 {
        assert(xs[s + n] == post[0]);
    }
    lemma_next_header_at(xs, s + 1, s + n);
}

/// Writing the same record twice gives the lines that writing it once gives, for a
/// record whose host name is one word and no pattern and none of whose
/// unrecognized lines is a `Host` line (the records that the parser returns are of
/// this kind).
pub proof fn lemma_upsert_idempotent(lines: Seq<Seq<char>>, e: HostEntryView)
    requires
        single_word(e.host),
        !is_pattern(e.host),
        no_headers(e.extra),
    ensures
        upsert_lines(upsert_lines(lines, e), e) == upsert_lines(lines, e),
{
    let h = e.host;
    let r = render_entry(e);
    lemma_find_block_bounds(lines, h);
    lemma_find_from_first(lines, h, 0);
    match find_block(lines, h) {
        Some((s, t)) => {
            let pre = lines.take(s);
            let post = lines.skip(t);
            let out1 = pre + r + post;
            assert(upsert_lines(lines, e) == out1);
            if t < lines.len() {
                lemma_next_header_is_header(lines, s + 1);
                assert(post[0] == lines[t]);
            }
            lemma_find_rendered(pre, post, e);
            assert(out1.take(s) =~= pre);
            assert(out1.skip(s + r.len()) =~= post);
        },
        None => {
            let base = if lines.len() > 0 && lines.last().len() > 0 {
                lines.push(Seq::empty())
            } else {
                lines
            };
            let out1 = base + r;
            assert(upsert_lines(lines, e) == out1);
            assert forall|j: int| 0 <= j < base.len() implies header_name(#[trigger] base[j])
                != Some(h) by {
                if j == lines.len() {
                    if is_header(base[j]) {
                        lemma_header_not_empty(base[j]);
                    }
                } else {
                    assert(base[j] == lines[j]);
                }
            }
            lemma_find_rendered(base, Seq::empty(), e);
            assert(out1 + Seq::<Seq<char>>::empty() =~= out1);
            assert(out1.take(base.len() as int) =~= base);
            assert(out1.skip(out1.len() as int) =~= Seq::<Seq<char>>::empty());
            assert(base + r + Seq::<Seq<char>>::empty() =~= out1);
        },
    }
}

/// The parser's state after reading `ls` from state `st`.
pub open spec fn parse_run(st: ParseState, ls: Seq<Seq<char>>) -> ParseState
    decreases ls.len(),
{
    if ls.len() == 0 {
        st
    } else {
        parse_step(parse_run(st, ls.drop_last()), ls.last())
    }
}

proof fn lemma_parse_run_one(st: ParseState, l: Seq<char>)
    ensures
        parse_run(st, seq![l]) == parse_step(st, l),
{
    let one: Seq<Seq<char>> = seq![l];
    assert(one.drop_last() =~= Seq::<Seq<char>>::empty());
    assert(parse_run(st, one.drop_last()) == st);
    assert(one.last() == l);
}

proof fn lemma_parse_run_start(ls: Seq<Seq<char>>)
    ensures
        parse_prefix(ls) == parse_run(ParseState { entries: Seq::empty(), current: None }, ls),
    decreases ls.len(),
{
    if ls.len() > 0 {
        lemma_parse_run_start(ls.drop_last());
    }
}

proof fn lemma_parse_run_concat(st: ParseState, a: Seq<Seq<char>>, b: Seq<Seq<char>>)
    ensures
        parse_run(st, a + b) == parse_run(parse_run(st, a), b),
    decreases b.len(),
{
    if b.len() == 0 {
        assert(a + b =~= a);
    } else {
        lemma_parse_run_concat(st, a, b.drop_last());
        assert((a + b).drop_last() =~= a + b.drop_last());
        assert((a + b).last() == b.last());
    }
}

/// A field value as the renderer writes it and the parser reads it back: without
/// `#`, and its own words joined by single spaces (so also empty).
pub open spec fn plain_value(v: Seq<char>) -> bool {
    no_hash(v) && trim(v) == v && join_words(tokens(v)) == v
}

/// Whether `kw` is one of the recognized keywords, in any case.
pub open spec fn is_known_keyword(kw: Seq<char>) -> bool {
    eq_ignore_case(kw, "hostname"@) || eq_ignore_case(kw, "user"@) || eq_ignore_case(kw, "port"@)
        || eq_ignore_case(kw, "identityfile"@) || eq_ignore_case(kw, "proxycommand"@)
}

/// An unrecognized line as the parser keeps it: without line feed or trailing
/// whitespace, and blank, a comment, or a directive whose keyword is neither `Host` nor a
/// recognized one.
pub open spec fn plain_extra(x: Seq<char>) -> bool {
    (forall|i: int| 0 <= i < x.len() ==> #[trigger] x[i] != '\n') && trim_end(x) == x && (
    line_words(x).len() == 0 || (!eq_ignore_case(line_words(x)[0], "host"@)
        && !is_known_keyword(line_words(x)[0])))
}

/// A record in the form that rendering and parsing keep: a one-word, non-pattern
/// host name, plain values and plain unrecognized lines.
pub open spec fn plain_entry(e: HostEntryView) -> bool {
    &&& single_word(e.host)
    &&& !is_pattern(e.host)
    &&& plain_value(e.hostname)
    &&& plain_value(e.user)
    &&& plain_value(e.port)
    &&& plain_value(e.identity_file)
    &&& plain_value(e.proxy_command)
    &&& forall|i: int| 0 <= i < e.extra.len() ==> plain_extra(#[trigger] e.extra[i])
}

/// The record that parsing the rendered block of `e` gives back: the blank line
/// that closes the block joins its unrecognized lines.
pub open spec fn reparsed(e: HostEntryView) -> HostEntryView {
    if render_body(e).last().len() == 0 {
        e
    } else {
        HostEntryView { extra: e.extra.push(Seq::empty()), ..e }
    }
}

/// The lines of a file holding the rendered blocks of `es`, in order.
pub open spec fn render_all(es: Seq<HostEntryView>) -> Seq<Seq<char>>
    decreases es.len(),
{
    if es.len() == 0 {
        Seq::empty()
    } else {
        render_all(es.drop_last()) + render_entry(es.last())
    }
}

proof fn lemma_known_keywords()
    ensures
        eq_ignore_case("HostName"@, "hostname"@),
        !eq_ignore_case("User"@, "hostname"@),
        eq_ignore_case("User"@, "user"@),
        !eq_ignore_case("Port"@, "hostname"@),
        !eq_ignore_case("Port"@, "user"@),
        eq_ignore_case("Port"@, "port"@),
        !eq_ignore_case("IdentityFile"@, "hostname"@),
        !eq_ignore_case("IdentityFile"@, "user"@),
        !eq_ignore_case("IdentityFile"@, "port"@),
        eq_ignore_case("IdentityFile"@, "identityfile"@),
        !eq_ignore_case("ProxyCommand"@, "hostname"@),
        !eq_ignore_case("ProxyCommand"@, "user"@),
        !eq_ignore_case("ProxyCommand"@, "port"@),
        !eq_ignore_case("ProxyCommand"@, "identityfile"@),
        eq_ignore_case("ProxyCommand"@, "proxycommand"@),
{
    reveal_strlit("HostName");
    reveal_strlit("hostname");
    reveal_strlit("User");
    reveal_strlit("user");
    reveal_strlit("Port");
    reveal_strlit("port");
    reveal_strlit("IdentityFile");
    reveal_strlit("identityfile");
    reveal_strlit("ProxyCommand");
    reveal_strlit("proxycommand");
    assert(lower_code("Port"@[0]) != lower_code("user"@[0]));
    assert(lower_code("ProxyCommand"@[0]) != lower_code("identityfile"@[0]));
}

/// Reading a keyword line of a rendered block (none when the value is empty).
proof fn lemma_keyword_step(st: ParseState, w: Seq<char>, v: Seq<char>)
    requires
        w.len() > 0,
        no_ws(w),
        no_hash(w),
        !eq_ignore_case(w, "host"@),
        plain_value(v),
        (st.current is Some),
    ensures
        parse_run(st, keyword_line(seq![' ', ' '] + w + seq![' '], v)) == (if v.len() == 0 {
            st
        } else {
            ParseState {
                current: Some(
                    apply_directive(st.current->0, w, v, seq![' ', ' '] + w + seq![' '] + v),
                ),
                ..st
            }
        }),
{
    lemma_labels();
    let lab = seq![' ', ' '] + w + seq![' '];
    if v.len() == 0 {
        assert(keyword_line(lab, v) =~= Seq::<Seq<char>>::empty());
    } else {
        let l = lab + v;
        assert(keyword_line(lab, v) =~= seq![l]);
        lemma_labelled_line_words(seq![' ', ' '], w, v);
        lemma_strip_comment_none(v);
        let ws = line_words(l);
        assert(ws =~= seq![w] + tokens(v));
        assert(ws[0] == w);
        assert(ws.skip(1) =~= tokens(v));
        lemma_parse_run_one(st, l);
    }
}

/// The keyword lines of the rendered block of `e`.
pub open spec fn keyword_lines(e: HostEntryView) -> Seq<Seq<char>> {
    keyword_line("  HostName "@, e.hostname) + keyword_line("  User "@, e.user) + keyword_line(
        "  Port "@,
        e.port,
    ) + keyword_line("  IdentityFile "@, e.identity_file) + keyword_line(
        "  ProxyCommand "@,
        e.proxy_command,
    )
}

/// Reading the keyword lines of a rendered block into a fresh record sets its fields.
proof fn lemma_keywords_steps(entries: Seq<HostEntryView>, e: HostEntryView)
    requires
        plain_entry(e),
    ensures
        parse_run(ParseState { entries, current: Some(blank_entry(e.host)) }, keyword_lines(e))
            == (ParseState { entries, current: Some(HostEntryView { extra: Seq::empty(), ..e }) }),
{
    lemma_labels();
    lemma_known_keywords();
    let s1 = ParseState { entries, current: Some(blank_entry(e.host)) };
    let k1 = keyword_line("  HostName "@, e.hostname);
    let k2 = keyword_line("  User "@, e.user);
    let k3 = keyword_line("  Port "@, e.port);
    let k4 = keyword_line("  IdentityFile "@, e.identity_file);
    let k5 = keyword_line("  ProxyCommand "@, e.proxy_command);
    lemma_keyword_step(s1, "HostName"@, e.hostname);
    let s2 = parse_run(s1, k1);
    assert(s2.current == Some(HostEntryView { hostname: e.hostname, ..blank_entry(e.host) }));
    lemma_keyword_step(s2, "User"@, e.user);
    let s3 = parse_run(s2, k2);
    assert(s3.current == Some(
        HostEntryView { hostname: e.hostname, user: e.user, ..blank_entry(e.host) },
    ));
    lemma_keyword_step(s3, "Port"@, e.port);
    let s4 = parse_run(s3, k3);
    lemma_keyword_step(s4, "IdentityFile"@, e.identity_file);
    let s5 = parse_run(s4, k4);
    lemma_keyword_step(s5, "ProxyCommand"@, e.proxy_command);
    let s6 = parse_run(s5, k5);
    assert(s6 == ParseState { entries, current: Some(HostEntryView { extra: Seq::empty(), ..e }) });
    lemma_parse_run_concat(s1, k1, k2);
    lemma_parse_run_concat(s1, k1 + k2, k3);
    lemma_parse_run_concat(s1, k1 + k2 + k3, k4);
    lemma_parse_run_concat(s1, k1 + k2 + k3 + k4, k5);
}

/// Reading the `Host` line of a rendered block closes the open record and opens a
/// fresh one.
proof fn lemma_head_step(st: ParseState, e: HostEntryView)
    requires
        plain_entry(e),
    ensures
        render_entry(e).len() >= 1,
        parse_run(st, seq![render_entry(e)[0]]) == (ParseState {
            entries: close_current(st),
            current: Some(blank_entry(e.host)),
        }),
{
    lemma_labels();
    lemma_render_head(e);
    let r = render_entry(e);
    let h = e.host;
    lemma_labelled_line_words(Seq::empty(), "Host"@, h);
    lemma_strip_comment_none(h);
    lemma_tokens_word(h);
    assert(Seq::<char>::empty() + "Host"@ + seq![' '] + h == "Host "@ + h);
    assert(line_words(r[0]) =~= seq!["Host"@, h]);
    lemma_parse_run_one(st, r[0]);
}

/// Reading plain unrecognized lines adds them to the open record.
proof fn lemma_extra_steps(st: ParseState, xs: Seq<Seq<char>>)
    requires
        (st.current is Some),
        forall|i: int| 0 <= i < xs.len() ==> plain_extra(#[trigger] xs[i]),
    ensures
        parse_run(st, xs) == (ParseState {
            current: Some(HostEntryView { extra: st.current->0.extra + xs, ..st.current->0 }),
            ..st
        }),
    decreases xs.len(),
{
    if xs.len() == 0 {
        assert(st.current->0.extra + xs =~= st.current->0.extra);
    } else {
        lemma_extra_steps(st, xs.drop_last());
        let x = xs.last();
        assert(plain_extra(xs[xs.len() - 1]));
        assert(st.current->0.extra + xs.drop_last() + seq![x] =~= st.current->0.extra + xs);
        assert((st.current->0.extra + xs.drop_last()).push(x) =~= st.current->0.extra + xs);
    }
}

/// Reading the rendered block of a plain record closes the open record and opens
/// the reparsed one.
proof fn lemma_block_steps(st: ParseState, e: HostEntryView)
    requires
        plain_entry(e),
    ensures
        parse_run(st, render_entry(e)) == (ParseState {
            entries: close_current(st),
            current: Some(reparsed(e)),
        }),
{
    lemma_head_step(st, e);
    let r = render_entry(e);
    let head: Seq<Seq<char>> = seq![r[0]];
    let kws = keyword_lines(e);
    let s1 = ParseState { entries: close_current(st), current: Some(blank_entry(e.host)) };
    lemma_keywords_steps(close_current(st), e);
    let s6 = parse_run(s1, kws);
    let tail = r.skip((1 + kws.len()) as int);
    assert(render_body(e) =~= head + kws + e.extra);
    assert(r =~= head + kws + tail);
    lemma_parse_run_concat(st, head, kws);
    lemma_parse_run_concat(st, head + kws, tail);
    assert(reparsed(e).extra =~= tail);
    assert forall|i: int| 0 <= i < tail.len() implies plain_extra(#[trigger] tail[i]) by {
        if i < e.extra.len() {
            assert(tail[i] == e.extra[i]);
        } else {
            assert(tail[i] == Seq::<char>::empty());
            assert(trim_end(tail[i]) == tail[i]);
            assert(strip_comment(tail[i]) == tail[i]);
            lemma_tokens_empty(tail[i]);
        }
    }
    lemma_extra_steps(s6, tail);
    assert(Seq::<Seq<char>>::empty() + tail =~= tail);
}

proof fn lemma_render_all_steps(es: Seq<HostEntryView>)
    requires
        forall|i: int| 0 <= i < es.len() ==> plain_entry(#[trigger] es[i]),
    ensures
        es.len() > 0 ==> parse_run(ParseState { entries: Seq::empty(), current: None }, render_all(es))
            == (ParseState {
            entries: es.drop_last().map_values(|e: HostEntryView| reparsed(e)),
            current: Some(reparsed(es.last())),
        }),
        es.len() == 0 ==> render_all(es) == Seq::<Seq<char>>::empty(),
    decreases es.len(),
{
    let init = ParseState { entries: Seq::empty(), current: None };
    if es.len() > 0 {
        let prev = es.drop_last();
        assert forall|i: int| 0 <= i < prev.len() implies plain_entry(#[trigger] prev[i]) by {
            assert(prev[i] == es[i]);
        }
        lemma_render_all_steps(prev);
        lemma_parse_run_concat(init, render_all(prev), render_entry(es.last()));
        assert(plain_entry(es[es.len() - 1]));
        let st = parse_run(init, render_all(prev));
        lemma_block_steps(st, es.last());
        if prev.len() == 0 {
            assert(render_all(prev) == Seq::<Seq<char>>::empty());
            assert(st == init);
            assert(close_current(st) =~= prev.map_values(|e: HostEntryView| reparsed(e)));
        } else {
            assert(plain_entry(prev[prev.len() - 1]));
            assert(close_current(st) =~= prev.map_values(|e: HostEntryView| reparsed(e)));
        }
    }
}

proof fn lemma_render_reparsed(e: HostEntryView)
    ensures
        render_entry(reparsed(e)) == render_entry(e),
{
    if render_body(e).last().len() != 0 {
        assert(render_body(reparsed(e)) =~= render_body(e).push(Seq::empty()));
    }
}

proof fn lemma_render_all_reparsed(es: Seq<HostEntryView>)
    ensures
        render_all(es.map_values(|e: HostEntryView| reparsed(e))) == render_all(es),
    decreases es.len(),
{
    let rs = es.map_values(|e: HostEntryView| reparsed(e));
    if es.len() > 0 {
        lemma_render_all_reparsed(es.drop_last());
        assert(rs.drop_last() =~= es.drop_last().map_values(|e: HostEntryView| reparsed(e)));
        lemma_render_reparsed(es.last());
    }
}

/// Round trip: parsing a file made of the rendered blocks of plain records gives
/// back those records (each with the blank line that closes its block among its
/// unrecognized lines), and rendering what was parsed gives the same lines again.
pub proof fn lemma_round_trip(es: Seq<HostEntryView>)
    requires
        forall|i: int| 0 <= i < es.len() ==> plain_entry(#[trigger] es[i]),
    ensures
        parse_lines(render_all(es)) == es.map_values(|e: HostEntryView| reparsed(e)),
        render_all(parse_lines(render_all(es))) == render_all(es),
{
    lemma_render_all_steps(es);
    lemma_parse_run_start(render_all(es));
    if es.len() == 0 {
        assert(parse_lines(render_all(es)) =~= es.map_values(|e: HostEntryView| reparsed(e)));
    } else {
        assert(plain_entry(es[es.len() - 1]));
        assert(parse_lines(render_all(es)) =~= es.map_values(|e: HostEntryView| reparsed(e)));
    }
    lemma_render_all_reparsed(es);
}

proof fn lemma_line_scan_concat(a: Seq<char>, b: Seq<char>)
    requires
        line_scan(a).cur.len() == 0,
    ensures
        line_scan(a + b).done == line_scan(a).done + line_scan(b).done,
        line_scan(a + b).cur == line_scan(b).cur,
    decreases b.len(),
{
    if b.len() == 0 {
        assert(a + b =~= a);
        assert(line_scan(a).done + line_scan(b).done =~= line_scan(a).done);
    } else {
        lemma_line_scan_concat(a, b.drop_last());
        assert((a + b).drop_last() =~= a + b.drop_last());
        assert((a + b).last() == b.last());
        let sa = line_scan(a);
        let sb = line_scan(b.drop_last());
        if b.last() == '\n' {
            assert(sa.done + sb.done.push(strip_cr(sb.cur)) =~= (sa.done + sb.done).push(
                strip_cr(sb.cur),
            ));
        }
    }
}

proof fn lemma_line_scan_no_feed(l: Seq<char>)
    requires
        forall|i: int| 0 <= i < l.len() ==> #[trigger] l[i] != '\n',
    ensures
        line_scan(l).done.len() == 0,
        line_scan(l).cur == l,
    decreases l.len(),
{
    if l.len() > 0 {
        lemma_line_scan_no_feed(l.drop_last());
        assert(line_scan(l.drop_last()).cur.push(l.last()) =~= l);
    }
}

/// A line as a file keeps it: without line feed, and not ending in a carriage return.
pub open spec fn plain_line(l: Seq<char>) -> bool {
    (forall|i: int| 0 <= i < l.len() ==> #[trigger] l[i] != '\n') && !(l.len() > 0 && l.last()
        == '\r')
}

proof fn lemma_line_scan_join(ls: Seq<Seq<char>>)
    requires
        forall|i: int| 0 <= i < ls.len() ==> plain_line(#[trigger] ls[i]),
    ensures
        line_scan(join_lines_spec(ls)).done == ls,
        line_scan(join_lines_spec(ls)).cur.len() == 0,
    decreases ls.len(),
{
    if ls.len() == 0 {
        assert(line_scan(Seq::<char>::empty()).done =~= ls);
    } else {
        let prev = ls.drop_last();
        let l = ls.last();
        assert forall|i: int| 0 <= i < prev.len() implies plain_line(#[trigger] prev[i]) by {
            assert(prev[i] == ls[i]);
        }
        lemma_line_scan_join(prev);
        assert(plain_line(ls[ls.len() - 1]));
        lemma_line_scan_no_feed(l);
        let lf = l + seq!['\n'];
        assert(lf.drop_last() =~= l);
        assert(line_scan(lf).done =~= seq![l]);
        assert(join_lines_spec(ls) =~= join_lines_spec(prev) + lf);
        lemma_line_scan_concat(join_lines_spec(prev), lf);
        assert(prev + seq![l] =~= ls);
    }
}

/// Writing lines to a file and reading the file back gives the same lines, when no
/// line holds a line feed or ends in a carriage return.
pub proof fn lemma_lines_round_trip(ls: Seq<Seq<char>>)
    requires
        forall|i: int| 0 <= i < ls.len() ==> plain_line(#[trigger] ls[i]),
    ensures
        text_lines(join_lines_spec(ls)) == ls,
{
    lemma_line_scan_join(ls);
}

/// Every character of `l` is a space or no whitespace at all.
pub open spec fn spaced_words(l: Seq<char>) -> bool {
    forall|i: int| 0 <= i < l.len() ==> #[trigger] l[i] == ' ' || !is_ws(l[i])
}

proof fn lemma_spaced_concat(a: Seq<char>, b: Seq<char>)
    requires
        spaced_words(a),
        spaced_words(b),
    ensures
        spaced_words(a + b),
{
    assert forall|i: int| 0 <= i < (a + b).len() implies #[trigger] (a + b)[i] == ' ' || !is_ws(
        (a + b)[i],
    ) by {
        if i < a.len() {
            assert((a + b)[i] == a[i]);
        } else {
            assert((a + b)[i] == b[i - a.len()]);
        }
    }
}

proof fn lemma_spaced_is_plain(l: Seq<char>)
    requires
        spaced_words(l),
    ensures
        plain_line(l),
{
    assert(is_ws('\n') && is_ws('\r'));
    if l.len() > 0 {
        assert(l.last() == l[l.len() - 1]);
    }
}

proof fn lemma_scan_words_no_ws(s: Seq<char>)
    ensures
        forall|i: int| 0 <= i < word_scan(s).done.len() ==> no_ws(#[trigger] word_scan(s).done[i]),
        no_ws(word_scan(s).cur),
    decreases s.len(),
{
    if s.len() > 0 {
        lemma_scan_words_no_ws(s.drop_last());
        let st = word_scan(s.drop_last());
        let c = s.last();
        if !is_ws(c) {
            assert forall|i: int| 0 <= i < st.cur.push(c).len() implies !is_ws(
                #[trigger] st.cur.push(c)[i],
            ) by {
                if i < st.cur.len() {
                    assert(st.cur.push(c)[i] == st.cur[i]);
                }
            }
        }
    }
}

proof fn lemma_join_spaced(ws: Seq<Seq<char>>)
    requires
        forall|i: int| 0 <= i < ws.len() ==> no_ws(#[trigger] ws[i]),
    ensures
        spaced_words(join_words(ws)),
    decreases ws.len(),
{
    if ws.len() == 1 {
        assert(no_ws(ws[0]));
    } else if ws.len() > 1 {
        let prev = ws.drop_last();
        assert forall|i: int| 0 <= i < prev.len() implies no_ws(#[trigger] prev[i]) by {
            assert(prev[i] == ws[i]);
        }
        lemma_join_spaced(prev);
        assert(no_ws(ws[ws.len() - 1]));
        assert(spaced_words(seq![' ']));
        lemma_spaced_concat(join_words(prev), seq![' ']);
        lemma_spaced_concat(join_words(prev) + seq![' '], ws.last());
    }
}

proof fn lemma_plain_value_spaced(v: Seq<char>)
    requires
        plain_value(v),
    ensures
        spaced_words(v),
{
    lemma_scan_words_no_ws(v);
    let st = word_scan(v);
    assert forall|i: int| 0 <= i < tokens(v).len() implies no_ws(#[trigger] tokens(v)[i]) by {
        if i < st.done.len() {
            assert(tokens(v)[i] == st.done[i]);
        }
    }
    lemma_join_spaced(tokens(v));
}

proof fn lemma_trim_end_len(x: Seq<char>)
    ensures
        trim_end(x).len() <= x.len(),
    decreases x.len(),
{
    if x.len() > 0 && is_ws(x.last()) {
        lemma_trim_end_len(x.drop_last());
    }
}

proof fn lemma_plain_extra_line(x: Seq<char>)
    requires
        plain_extra(x),
    ensures
        plain_line(x),
{
    if x.len() > 0 && x.last() == '\r' {
        assert(is_ws('\r'));
        lemma_trim_end_len(x.drop_last());
    }
}

/// The lines of a sequence that a file keeps as they are.
pub open spec fn plain_lines(ls: Seq<Seq<char>>) -> bool {
    forall|i: int| 0 <= i < ls.len() ==> plain_line(#[trigger] ls[i])
}

proof fn lemma_plain_lines_concat(a: Seq<Seq<char>>, b: Seq<Seq<char>>)
    requires
        plain_lines(a),
        plain_lines(b),
    ensures
        plain_lines(a + b),
{
    assert forall|i: int| 0 <= i < (a + b).len() implies plain_line(#[trigger] (a + b)[i]) by {
        if i < a.len() {
            assert((a + b)[i] == a[i]);
        } else {
            assert((a + b)[i] == b[i - a.len()]);
        }
    }
}

proof fn lemma_keyword_line_plain(w: Seq<char>, v: Seq<char>)
    requires
        no_ws(w),
        plain_value(v),
    ensures
        plain_lines(keyword_line(seq![' ', ' '] + w + seq![' '], v)),
{
    let lab = seq![' ', ' '] + w + seq![' '];
    if trim(v).len() > 0 {
        assert(spaced_words(seq![' ', ' ']));
        assert(spaced_words(seq![' ']));
        assert(spaced_words(w));
        lemma_spaced_concat(seq![' ', ' '], w);
        lemma_spaced_concat(seq![' ', ' '] + w, seq![' ']);
        lemma_plain_value_spaced(v);
        lemma_spaced_concat(lab, v);
        lemma_spaced_is_plain(lab + v);
        assert(keyword_line(lab, v) =~= seq![lab + v]);
    } else {
        assert(keyword_line(lab, v) =~= Seq::<Seq<char>>::empty());
    }
}

/// Every line of the rendered block of a plain record is kept as it is by a file.
proof fn lemma_render_plain_lines(e: HostEntryView)
    requires
        plain_entry(e),
    ensures
        plain_lines(render_entry(e)),
{
    lemma_labels();
    lemma_trim_word(e.host);
    let head = "Host "@ + e.host;
    assert(spaced_words(Seq::<char>::empty() + "Host"@ + seq![' '])) by {
        assert(spaced_words("Host"@));
        assert(spaced_words(seq![' ']));
        lemma_spaced_concat(Seq::<char>::empty(), "Host"@);
        lemma_spaced_concat(Seq::<char>::empty() + "Host"@, seq![' ']);
    }
    assert(spaced_words(e.host));
    lemma_spaced_concat("Host "@, e.host);
    lemma_spaced_is_plain(head);
    let h1: Seq<Seq<char>> = seq![head];
    assert(plain_lines(h1));
    lemma_keyword_line_plain("HostName"@, e.hostname);
    lemma_keyword_line_plain("User"@, e.user);
    lemma_keyword_line_plain("Port"@, e.port);
    lemma_keyword_line_plain("IdentityFile"@, e.identity_file);
    lemma_keyword_line_plain("ProxyCommand"@, e.proxy_command);
    let k1 = keyword_line("  HostName "@, e.hostname);
    let k2 = keyword_line("  User "@, e.user);
    let k3 = keyword_line("  Port "@, e.port);
    let k4 = keyword_line("  IdentityFile "@, e.identity_file);
    let k5 = keyword_line("  ProxyCommand "@, e.proxy_command);
    assert forall|i: int| 0 <= i < e.extra.len() implies plain_line(#[trigger] e.extra[i]) by {
        lemma_plain_extra_line(e.extra[i]);
    }
    lemma_plain_lines_concat(h1, k1);
    lemma_plain_lines_concat(h1 + k1, k2);
    lemma_plain_lines_concat(h1 + k1 + k2, k3);
    lemma_plain_lines_concat(h1 + k1 + k2 + k3, k4);
    lemma_plain_lines_concat(h1 + k1 + k2 + k3 + k4, k5);
    lemma_plain_lines_concat(h1 + k1 + k2 + k3 + k4 + k5, e.extra);
    assert(render_body(e) =~= h1 + k1 + k2 + k3 + k4 + k5 + e.extra);
    let blank: Seq<Seq<char>> = seq![Seq::empty()];
    assert(plain_lines(blank));
    lemma_plain_lines_concat(render_body(e), blank);
    assert(render_body(e).push(Seq::empty()) =~= render_body(e) + blank);
}

proof fn lemma_render_all_plain(es: Seq<HostEntryView>)
    requires
        forall|i: int| 0 <= i < es.len() ==> plain_entry(#[trigger] es[i]),
    ensures
        plain_lines(render_all(es)),
    decreases es.len(),
{
    if es.len() > 0 {
        let prev = es.drop_last();
        assert forall|i: int| 0 <= i < prev.len() implies plain_entry(#[trigger] prev[i]) by {
            assert(prev[i] == es[i]);
        }
        lemma_render_all_plain(prev);
        assert(plain_entry(es[es.len() - 1]));
        lemma_render_plain_lines(es.last());
        lemma_plain_lines_concat(render_all(prev), render_entry(es.last()));
    }
}

/// Round trip through the file's text: for a file written from plain records,
/// parsing its text gives those records back (each with the blank line that closes
/// its block), and writing what was parsed gives the same text again.
pub proof fn lemma_file_round_trip(es: Seq<HostEntryView>)
    requires
        forall|i: int| 0 <= i < es.len() ==> plain_entry(#[trigger] es[i]),
    ensures
        parse_lines(text_lines(join_lines_spec(render_all(es)))) == es.map_values(
            |e: HostEntryView| reparsed(e),
        ),
        join_lines_spec(render_all(parse_lines(text_lines(join_lines_spec(render_all(es))))))
            == join_lines_spec(render_all(es)),
{
    lemma_render_all_plain(es);
    lemma_lines_round_trip(render_all(es));
    lemma_round_trip(es);
}

} // verus!
