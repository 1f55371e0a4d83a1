//! Host records of an SSH client configuration file: the parser that reads them out
//! of the file's lines, and the block editor that writes one back in place.
use vstd::prelude::*;
use crate::text::{
    split_lines, text_lines,
    chars_of,
    eq_ignore_case, has_char, join_words, strip_comment, tokens, trim, trim_end, contains_char,
    eq_ignore_ascii_case, join_words_from, split_words, strip_inline_comment, trim_end_str, trim_str, str_eq,
};

verus! {

/// One `Host` block of the configuration file.
#[derive(Debug, Clone, PartialEq, Eq)]
pub struct HostEntry {
    pub host: String,
    pub hostname: String,
    pub user: String,
    pub port: String,
    pub identity_file: String,
    pub proxy_command: String,
    /// Lines of the block that are not one of the recognized keywords, verbatim.
    pub extra: Vec<String>,
}

/// A host record as plain sequences of characters.
pub struct HostEntryView {
    pub host: Seq<char>,
    pub hostname: Seq<char>,
    pub user: Seq<char>,
    pub port: Seq<char>,
    pub identity_file: Seq<char>,
    pub proxy_command: Seq<char>,
    pub extra: Seq<Seq<char>>,
}

impl View for HostEntry {
    type V = HostEntryView;

    open spec fn view(&self) -> HostEntryView {
        HostEntryView {
            host: self.host@,
            hostname: self.hostname@,
            user: self.user@,
            port: self.port@,
            identity_file: self.identity_file@,
            proxy_command: self.proxy_command@,
            extra: self.extra.deep_view(),
        }
    }
}

/// A record named `name` with every other field empty.
pub open spec fn blank_entry(name: Seq<char>) -> HostEntryView {
    HostEntryView {
        host: name,
        hostname: Seq::empty(),
        user: Seq::empty(),
        port: Seq::empty(),
        identity_file: Seq::empty(),
        proxy_command: Seq::empty(),
        extra: Seq::empty(),
    }
}

impl HostEntry {
    /// A record named `host` with every other field empty.
    pub fn named(host: String) -> (r: HostEntry)
        ensures
            r@ == blank_entry(host@),
    {
        let r = HostEntry {
            host,
            hostname: String::new(),
            user: String::new(),
            port: String::new(),
            identity_file: String::new(),
            proxy_command: String::new(),
            extra: Vec::new(),
        };
        assert(r.extra.deep_view() =~= Seq::<Seq<char>>::empty());
        r
    }
}

impl Default for HostEntry {
    fn default() -> (r: HostEntry)
        ensures
            r@ == blank_entry(Seq::empty()),
    {
        HostEntry::named(String::new())
    }
}

/// The views of a sequence of records.
pub open spec fn entries_view(v: Seq<HostEntry>) -> Seq<HostEntryView> {
    v.map_values(|e: HostEntry| e@)
}

/// Whether a host name is a pattern (holds `*` or `?`) rather than one host.
pub open spec fn is_pattern(name: Seq<char>) -> bool {
    has_char(name, '*') || has_char(name, '?')
}

/// The words of a line outside its inline comment.
pub open spec fn line_words(raw: Seq<char>) -> Seq<Seq<char>> {
    tokens(strip_comment(raw))
}

/// What the parser holds after some lines: the records closed so far, and the
/// one being built (none before the first `Host` line and inside a pattern block).
pub struct ParseState {
    pub entries: Seq<HostEntryView>,
    pub current: Option<HostEntryView>,
}

/// The records closed so far, with the open one added when it has a name.
pub open spec fn close_current(st: ParseState) -> Seq<HostEntryView> {
    match st.current {
        Some(e) => if e.host.len() > 0 {
            st.entries.push(e)
        } else {
            st.entries
        },
        None => st.entries,
    }
}

/// `e` with `line` added to its unrecognized lines.
pub open spec fn with_extra(e: HostEntryView, line: Seq<char>) -> HostEntryView {
    HostEntryView { extra: e.extra.push(line), ..e }
}

/// `e` after a directive line `raw` whose keyword is `kw` and whose value is `value`:
/// a recognized keyword (in any case) sets its field, any other line is kept verbatim.
pub open spec fn apply_directive(
    e: HostEntryView,
    kw: Seq<char>,
    value: Seq<char>,
    raw: Seq<char>,
) -> HostEntryView {
    if eq_ignore_case(kw, "hostname"@) {
        HostEntryView { hostname: value, ..e }
    } else if eq_ignore_case(kw, "user"@) {
        HostEntryView { user: value, ..e }
    } else if eq_ignore_case(kw, "port"@) {
        HostEntryView { port: value, ..e }
    } else if eq_ignore_case(kw, "identityfile"@) {
        HostEntryView { identity_file: value, ..e }
    } else if eq_ignore_case(kw, "proxycommand"@) {
        HostEntryView { proxy_command: value, ..e }
    } else {
        with_extra(e, trim_end(raw))
    }
}

/// The parser's state after one more line `raw`.
pub open spec fn parse_step(st: ParseState, raw: Seq<char>) -> ParseState {
    let ws = line_words(raw);
    if ws.len() == 0 {
        match st.current {
            Some(e) => ParseState { current: Some(with_extra(e, trim_end(raw))), ..st },
            None => st,
        }
    } else if eq_ignore_case(ws[0], "host"@) {
        ParseState {
            entries: close_current(st),
            current: if ws.len() >= 2 && !is_pattern(ws[1]) {
                Some(blank_entry(ws[1]))
            } else {
                None
            },
        }
    } else {
        match st.current {
            Some(e) => ParseState {
                current: Some(apply_directive(e, ws[0], join_words(ws.skip(1)), raw)),
                ..st
            },
            None => st,
        }
    }
}

/// The parser's state after all of `lines`, read in order.
pub open spec fn parse_prefix(lines: Seq<Seq<char>>) -> ParseState
    decreases lines.len(),
{
    if lines.len() == 0 {
        ParseState { entries: Seq::empty(), current: None }
    } else {
        parse_step(parse_prefix(lines.drop_last()), lines.last())
    }
}

/// The host records of a file made of `lines`, in file order.
pub open spec fn parse_lines(lines: Seq<Seq<char>>) -> Seq<HostEntryView> {
    close_current(parse_prefix(lines))
}

pub open spec fn opt_entry_view(o: Option<HostEntry>) -> Option<HostEntryView> {
    match o {
        Some(e) => Some(e@),
        None => None,
    }
}

fn push_extra(e: HostEntry, line: String) -> (r: HostEntry)
    ensures
        r@ == with_extra(e@, line@),
{
    let mut e = e;
    let ghost before = e.extra.deep_view();
    e.extra.push(line);
    assert(e.extra.deep_view() =~= before.push(line@));
    e
}

fn apply_directive_exec(e: HostEntry, kw: &str, value: String, raw: &str) -> (r: HostEntry)
    ensures
        r@ == apply_directive(e@, kw@, value@, raw@),
{
    let mut e = e;
    if eq_ignore_ascii_case(kw, "hostname") {
        e.hostname = value;
    } else if eq_ignore_ascii_case(kw, "user") {
        e.user = value;
    } else if eq_ignore_ascii_case(kw, "port") {
        e.port = value;
    } else if eq_ignore_ascii_case(kw, "identityfile") {
        e.identity_file = value;
    } else if eq_ignore_ascii_case(kw, "proxycommand") {
        e.proxy_command = value;
    } else {
        e = push_extra(e, String::from_str(trim_end_str(raw)));
    }
    e
}

fn close_into(entries: &mut Vec<HostEntry>, current: Option<HostEntry>)
    ensures
        entries_view(final(entries)@) == close_current(
            ParseState { entries: entries_view(old(entries)@), current: opt_entry_view(current) },
        ),
{
    if let Some(e) = current {
        if !e.host.as_str().is_empty() {
            let ghost before = entries@;
            entries.push(e);
            assert(entries_view(entries@) =~= entries_view(before).push(e@));
        }
    }
}

/// Parses the lines of a configuration file into host records, in file order.
/// Lines before the first `Host` line and the lines of pattern blocks belong to no record.
pub fn load_host_entries(lines: &Vec<String>) -> (r: Vec<HostEntry>)
    ensures
        entries_view(r@) == parse_lines(lines.deep_view()),
{
    let mut entries: Vec<HostEntry> = Vec::new();
    let mut current: Option<HostEntry> = None;
    let mut i: usize = 0;
    assert(entries_view(entries@) =~= Seq::<HostEntryView>::empty());
    assert(lines.deep_view().take(0) =~= Seq::<Seq<char>>::empty());
    while i < lines.len()
        invariant
            i <= lines.len(),
            (ParseState { entries: entries_view(entries@), current: opt_entry_view(current) })
                == parse_prefix(lines.deep_view().take(i as int)),
        decreases lines.len() - i,
    {
        let ghost prefix = lines.deep_view().take(i + 1);
        assert(prefix.drop_last() =~= lines.deep_view().take(i as int));
        assert(prefix.last() == lines[i as int]@);
        let raw: &str = lines[i].as_str();
        let ws = split_words(strip_inline_comment(raw));
        if ws.len() == 0 {
            current = match current {
                Some(e) => Some(push_extra(e, String::from_str(trim_end_str(raw)))),
                None => None,
            };
        } else if eq_ignore_ascii_case(ws[0].as_str(), "host") {
            close_into(&mut entries, current);
            current = None;
            if ws.len() >= 2 {
                let name = ws[1].as_str();
                if !contains_char(name, '*') && !contains_char(name, '?') {
                    current = Some(HostEntry::named(String::from_str(name)));
                }
            }
        } else {
            current = match current {
                Some(e) => {
                    let value = join_words_from(&ws, 1);
                    Some(apply_directive_exec(e, ws[0].as_str(), value, raw))
                },
                None => None,
            };
        }
        i += 1;
    }
    assert(lines.deep_view().take(lines.len() as int) =~= lines.deep_view());
    close_into(&mut entries, current);
    entries
}

/// The name on a `Host` line: the second word of a line whose first word outside
/// its inline comment is `host` in any case. Other lines have none.
pub open spec fn header_name(raw: Seq<char>) -> Option<Seq<char>> {
    let ws = line_words(raw);
    if ws.len() >= 2 && eq_ignore_case(ws[0], "host"@) {
        Some(ws[1])
    } else {
        None
    }
}

pub open spec fn is_header(raw: Seq<char>) -> bool {
    header_name(raw) is Some
}

/// The index of the first `Host` line at or after `from`, or the number of lines.
pub open spec fn next_header(lines: Seq<Seq<char>>, from: int) -> int
    decreases lines.len() - from,
{
    if from >= lines.len() {
        lines.len() as int
    } else if is_header(lines[from]) {
        from
    } else {
        next_header(lines, from + 1)
    }
}

/// The block of the first `Host` line at or after `from` named exactly `name`.
pub open spec fn find_from(lines: Seq<Seq<char>>, name: Seq<char>, from: int) -> Option<(int, int)>
    decreases lines.len() - from,
{
    if from >= lines.len() {
        None
    } else if header_name(lines[from]) == Some(name) {
        Some((from, next_header(lines, from + 1)))
    } else {
        find_from(lines, name, from + 1)
    }
}

/// The span `(start, end)` of the block of the first `Host` line named exactly `name`:
/// from that line up to the next `Host` line or the end of the file. A pattern name
/// locates no block: pattern blocks are never edited.
pub open spec fn find_block(lines: Seq<Seq<char>>, name: Seq<char>) -> Option<(int, int)> {
    if is_pattern(name) {
        None
    } else {
        find_from(lines, name, 0)
    }
}

/// The host name on `line`, if it is a `Host` line.
pub fn host_name_from_line(line: &str) -> (r: Option<String>)
    ensures
        match r {
            Some(n) => header_name(line@) == Some(n@),
            None => header_name(line@) is None,
        },
{
    let ws = split_words(strip_inline_comment(line));
    if ws.len() >= 2 && eq_ignore_ascii_case(ws[0].as_str(), "host") {
        Some(ws[1].clone())
    } else {
        None
    }
}

/// Locates the block of the first `Host` line named exactly `host`.
pub fn find_host_block(lines: &Vec<String>, host: &str) -> (r: Option<(usize, usize)>)
    ensures
        match r {
            Some((s, e)) => find_block(lines.deep_view(), host@) == Some((s as int, e as int)),
            None => find_block(lines.deep_view(), host@) is None,
        },
        is_pattern(host@) ==> r is None,
{
    if contains_char(host, '*') || contains_char(host, '?') {
        return None;
    }
    let ghost ls = lines.deep_view();
    let mut i: usize = 0;
    while i < lines.len()
        invariant
            ls == lines.deep_view(),
            i <= lines.len(),
            find_block(ls, host@) == find_from(ls, host@, i as int),
        decreases lines.len() - i,
    {
        let name = host_name_from_line(lines[i].as_str());
        assert(ls[i as int] == lines[i as int]@);
        match name {
            Some(n) => {
                if str_eq(n.as_str(), host) {
                    let mut j: usize = i + 1;
                    while j < lines.len()
                        invariant
                            ls == lines.deep_view(),
                            i < j <= lines.len(),
                            next_header(ls, i + 1) == next_header(ls, j as int),
                            header_name(ls[i as int]) == Some(host@),
                            find_block(ls, host@) == find_from(ls, host@, i as int),
                        decreases lines.len() - j,
                    {
                        assert(ls[j as int] == lines[j as int]@);
                        if host_name_from_line(lines[j].as_str()).is_some() {
                            assert(next_header(ls, j as int) == j as int);
                            assert(find_from(ls, host@, i as int) == Some((i as int, j as int)));
                            return Some((i, j));
                        }
                        j += 1;
                    }
                    assert(find_from(ls, host@, i as int) == Some((i as int, j as int)));
                    return Some((i, j));
                }
            },
            None => {},
        }
        i += 1;
    }
    None
}

/// A keyword line `label` + the trimmed value, or nothing when the value is blank.
pub open spec fn keyword_line(label: Seq<char>, value: Seq<char>) -> Seq<Seq<char>> {
    if trim(value).len() == 0 {
        Seq::empty()
    } else {
        seq![label + trim(value)]
    }
}

/// The lines of a rendered block before its closing blank line.
pub open spec fn render_body(e: HostEntryView) -> Seq<Seq<char>> {
    seq!["Host "@ + trim(e.host)] + keyword_line("  HostName "@, e.hostname) + keyword_line(
        "  User "@,
        e.user,
    ) + keyword_line("  Port "@, e.port) + keyword_line("  IdentityFile "@, e.identity_file)
        + keyword_line("  ProxyCommand "@, e.proxy_command) + e.extra
}

/// The block written for `e`, ending with exactly one blank line added
/// (none when its last line is already empty).
pub open spec fn render_entry(e: HostEntryView) -> Seq<Seq<char>> {
    let b = render_body(e);
    if b.last().len() == 0 {
        b
    } else {
        b.push(Seq::empty())
    }
}

fn push_keyword_line(out: &mut Vec<String>, label: &str, value: &str)
    ensures
        final(out).deep_view() == old(out).deep_view() + keyword_line(label@, value@),
{
    let v = trim_str(value);
    let ghost before = out.deep_view();
    if !v.is_empty() {
        let mut l = String::from_str(label);
        l.append(v);
        out.push(l);
        assert(out.deep_view() =~= before + keyword_line(label@, value@));
    } else {
        assert(out.deep_view() =~= before + keyword_line(label@, value@));
    }
}

/// Appends `src[from..to]` to `out`.
fn copy_lines(out: &mut Vec<String>, src: &Vec<String>, from: usize, to: usize)
    requires
        from <= to <= src.len(),
    ensures
        final(out).deep_view() == old(out).deep_view() + src.deep_view().subrange(
            from as int,
            to as int,
        ),
{
    let ghost before = out.deep_view();
    let mut k: usize = from;
    while k < to
        invariant
            from <= k <= to <= src.len(),
            out.deep_view() == before + src.deep_view().subrange(from as int, k as int),
        decreases to - k,
    {
        let l = src[k].clone();
        assert(l@ == src.deep_view()[k as int]);
        let ghost mid = out.deep_view();
        out.push(l);
        assert(out.deep_view() =~= mid.push(l@));
        assert(out.deep_view() =~= before + src.deep_view().subrange(from as int, k + 1));
        k += 1;
    }
}

/// The lines of the block written for `entry`.
pub fn render_host_entry_lines(entry: &HostEntry) -> (r: Vec<String>)
    ensures
        r.deep_view() == render_entry(entry@),
{
    let mut out: Vec<String> = Vec::new();
    let mut head = String::from_str("Host ");
    head.append(trim_str(entry.host.as_str()));
    out.push(head);
    push_keyword_line(&mut out, "  HostName ", entry.hostname.as_str());
    push_keyword_line(&mut out, "  User ", entry.user.as_str());
    push_keyword_line(&mut out, "  Port ", entry.port.as_str());
    push_keyword_line(&mut out, "  IdentityFile ", entry.identity_file.as_str());
    push_keyword_line(&mut out, "  ProxyCommand ", entry.proxy_command.as_str());
    copy_lines(&mut out, &entry.extra, 0, entry.extra.len());
    assert(entry.extra.deep_view().subrange(0, entry.extra.len() as int)
        =~= entry.extra.deep_view());
    assert(out.deep_view() =~= render_body(entry@));
    if !out[out.len() - 1].as_str().is_empty() {
        let ghost before = out.deep_view();
        out.push(String::new());
        assert(out.deep_view() =~= before.push(Seq::empty()));
    }
    out
}

/// `lines` with the block for `e` added at the end, after one blank separator line
/// when the last line is not already empty.
pub open spec fn append_entry(lines: Seq<Seq<char>>, e: HostEntryView) -> Seq<Seq<char>> {
    let base = if lines.len() > 0 && lines.last().len() > 0 {
        lines.push(Seq::empty())
    } else {
        lines
    };
    base + render_entry(e)
}

/// `lines` with `lines[start..end]` replaced by the block for `e`.
pub open spec fn replace_span(lines: Seq<Seq<char>>, start: int, end: int, e: HostEntryView) -> Seq<
    Seq<char>,
> {
    lines.take(start) + render_entry(e) + lines.skip(end)
}

/// `s` without its leading empty lines.
pub open spec fn drop_leading_blank(s: Seq<Seq<char>>) -> Seq<Seq<char>>
    decreases s.len(),
{
    if s.len() > 0 && s[0].len() == 0 {
        drop_leading_blank(s.drop_first())
    } else {
        s
    }
}

/// `s` without its trailing empty lines.
pub open spec fn drop_trailing_blank(s: Seq<Seq<char>>) -> Seq<Seq<char>>
    decreases s.len(),
{
    if s.len() > 0 && s.last().len() == 0 {
        drop_trailing_blank(s.drop_last())
    } else {
        s
    }
}

/// `lines` without `lines[start..end]`, and without the empty lines that then follow
/// the gap; when the gap reaches the end of the file, without the empty lines that
/// then end it.
pub open spec fn remove_span(lines: Seq<Seq<char>>, start: int, end: int) -> Seq<Seq<char>> {
    if end < lines.len() {
        lines.take(start) + drop_leading_blank(lines.skip(end))
    } else {
        drop_trailing_blank(lines.take(start))
    }
}

/// `lines` with the block for `e` at `loc`, or appended when there is none.
pub open spec fn place_entry(lines: Seq<Seq<char>>, loc: Option<(int, int)>, e: HostEntryView) -> Seq<
    Seq<char>,
> {
    match loc {
        Some((start, end)) => replace_span(lines, start, end, e),
        None => append_entry(lines, e),
    }
}

/// `lines` after writing `e` over the block named `e.host`, or appending it.
pub open spec fn upsert_lines(lines: Seq<Seq<char>>, e: HostEntryView) -> Seq<Seq<char>> {
    place_entry(lines, find_block(lines, e.host), e)
}

/// `lines` after writing `e` over the block named `original`, or appending it.
pub open spec fn update_lines(lines: Seq<Seq<char>>, original: Seq<char>, e: HostEntryView) -> Seq<
    Seq<char>,
> {
    place_entry(lines, find_block(lines, original), e)
}

/// `lines` without the block named `name` (unchanged when there is none).
pub open spec fn delete_lines(lines: Seq<Seq<char>>, name: Seq<char>) -> Seq<Seq<char>> {
    match find_block(lines, name) {
        Some((start, end)) => remove_span(lines, start, end),
        None => lines,
    }
}

fn append_block(lines: &mut Vec<String>, entry: &HostEntry)
    ensures
        final(lines).deep_view() == append_entry(old(lines).deep_view(), entry@),
{
    let ghost before = lines.deep_view();
    if lines.len() > 0 && !lines[lines.len() - 1].as_str().is_empty() {
        lines.push(String::new());
        assert(lines.deep_view() =~= before.push(Seq::empty()));
    }
    let rendered = render_host_entry_lines(entry);
    copy_lines(lines, &rendered, 0, rendered.len());
    assert(rendered.deep_view().subrange(0, rendered.len() as int) =~= rendered.deep_view());
}

fn replace_block(lines: &mut Vec<String>, start: usize, end: usize, entry: &HostEntry)
    requires
        start <= end <= old(lines).len(),
    ensures
        final(lines).deep_view() == replace_span(
            old(lines).deep_view(),
            start as int,
            end as int,
            entry@,
        ),
{
    let ghost ls = lines.deep_view();
    let mut out: Vec<String> = Vec::new();
    copy_lines(&mut out, lines, 0, start);
    let rendered = render_host_entry_lines(entry);
    copy_lines(&mut out, &rendered, 0, rendered.len());
    let n = lines.len();
    copy_lines(&mut out, lines, end, n);
    assert(out.deep_view() =~= replace_span(ls, start as int, end as int, entry@));
    *lines = out;
}

fn remove_block(lines: &mut Vec<String>, start: usize, end: usize)
    requires
        start <= end <= old(lines).len(),
    ensures
        final(lines).deep_view() == remove_span(old(lines).deep_view(), start as int, end as int),
{
    let ghost ls = lines.deep_view();
    let n = lines.len();
    let mut out: Vec<String> = Vec::new();
    copy_lines(&mut out, lines, 0, start);
    assert(out.deep_view() =~= ls.take(start as int));
    if end < n {
        let mut k: usize = end;
        while k < n && lines[k].as_str().is_empty()
            invariant
                ls == lines.deep_view(),
                n == lines.len(),
                end <= k <= n,
                drop_leading_blank(ls.skip(end as int)) == drop_leading_blank(ls.skip(k as int)),
            decreases n - k,
        {
            assert(ls.skip(k as int).drop_first() =~= ls.skip(k + 1));
            k += 1;
        }
        copy_lines(&mut out, lines, k, n);
        assert(ls.subrange(k as int, n as int) =~= ls.skip(k as int));
    } else {
        while out.len() > 0 && out[out.len() - 1].as_str().is_empty()
            invariant
                drop_trailing_blank(ls.take(start as int)) == drop_trailing_blank(out.deep_view()),
            decreases out.len(),
        {
            let ghost before = out.deep_view();
            out.pop();
            assert(out.deep_view() =~= before.drop_last());
        }
    }
    *lines = out;
}

/// Why a host record cannot be written.
#[derive(Debug, Clone, Copy, PartialEq, Eq)]
pub enum ValidationError {
    /// The host name is blank.
    EmptyHost,
    /// The host name holds `*` or `?`.
    WildcardHost,
    /// The address is blank.
    EmptyHostName,
    /// The port is not a number from 0 to 65535.
    InvalidPort,
    /// The port is 0.
    ZeroPort,
}

/// The sentence that tells the user of `e`.
pub open spec fn validation_message(e: ValidationError) -> Seq<char> {
    match e {
        ValidationError::EmptyHost => "Host cannot be empty"@,
        ValidationError::WildcardHost => "Host cannot contain wildcard characters"@,
        ValidationError::EmptyHostName => "HostName cannot be empty"@,
        ValidationError::InvalidPort => "Port must be a number between 1 and 65535"@,
        ValidationError::ZeroPort => "Port must be greater than 0"@,
    }
}

impl ValidationError {
    /// A sentence for the user.
    pub fn message(&self) -> (r: String)
        ensures
            r@ == validation_message(*self),
    {
        match self {
            ValidationError::EmptyHost => String::from_str("Host cannot be empty"),
            ValidationError::WildcardHost => String::from_str(
                "Host cannot contain wildcard characters",
            ),
            ValidationError::EmptyHostName => String::from_str("HostName cannot be empty"),
            ValidationError::InvalidPort => String::from_str(
                "Port must be a number between 1 and 65535",
            ),
            ValidationError::ZeroPort => String::from_str("Port must be greater than 0"),
        }
    }
}

pub open spec fn is_digit(c: char) -> bool {
    48 <= c as u32 && c as u32 <= 57
}

/// The number written by the decimal digits `d`.
pub open spec fn digits_value(d: Seq<char>) -> nat
    decreases d.len(),
{
    if d.len() == 0 {
        0
    } else {
        digits_value(d.drop_last()) * 10 + (d.last() as u32 - 48) as nat
    }
}

/// The digits of a port after an optional `+` sign.
pub open spec fn port_digits(p: Seq<char>) -> Seq<char> {
    if p.len() > 0 && p[0] == '+' {
        p.drop_first()
    } else {
        p
    }
}

/// The number that `p` writes as an unsigned decimal (an optional `+`, then one or
/// more ASCII digits), if it is one.
pub open spec fn decimal_value(p: Seq<char>) -> Option<nat> {
    let d = port_digits(p);
    if d.len() > 0 && forall|i: int| 0 <= i < d.len() ==> is_digit(#[trigger] d[i]) {
        Some(digits_value(d))
    } else {
        None
    }
}

/// The first rule that `e` breaks, if any: a host name that is not blank and no
/// pattern, an address that is not blank, and a port that is blank or a number
/// from 1 to 65535.
pub open spec fn validation_error(e: HostEntryView) -> Option<ValidationError> {
    if trim(e.host).len() == 0 {
        Some(ValidationError::EmptyHost)
    } else if is_pattern(e.host) {
        Some(ValidationError::WildcardHost)
    } else if trim(e.hostname).len() == 0 {
        Some(ValidationError::EmptyHostName)
    } else if trim(e.port).len() == 0 {
        None
    } else {
        match decimal_value(trim(e.port)) {
            None => Some(ValidationError::InvalidPort),
            Some(n) => if n > 65535 {
                Some(ValidationError::InvalidPort)
            } else if n == 0 {
                Some(ValidationError::ZeroPort)
            } else {
                None
            },
        }
    }
}

pub open spec fn is_valid(e: HostEntryView) -> bool {
    validation_error(e) is None
}

/// The value of the port text `p` when it is a decimal number no greater than
/// 65535; `None` when it is not a number or is larger.
fn port_value(p: &str) -> (r: Option<u32>)
    ensures
        match r {
            Some(v) => decimal_value(p@) == Some(v as nat) && v <= 65535,
            None => decimal_value(p@) is None || decimal_value(p@)->0 > 65535,
        },
{
    let cs = chars_of(p);
    let n = cs.len();
    let ghost d = port_digits(p@);
    let mut i: usize = 0;
    if n > 0 && cs[0] == '+' {
        i = 1;
    }
    let first = i;
    assert(d =~= p@.skip(first as int));
    if first >= n {
        return None;
    }
    let mut value: u32 = 0;
    let mut big = false;
    while i < n
        invariant
            cs@ == p@,
            n == p@.len(),
            first <= i <= n,
            d == p@.skip(first as int),
            d == port_digits(p@),
            forall|k: int| first <= k < i ==> is_digit(#[trigger] p@[k]),
            !big ==> value as nat == digits_value(d.take(i - first)) && value <= 65535,
            big ==> digits_value(d.take(i - first)) > 65535,
        decreases n - i,
    {
        let c = cs[i];
        if !(48 <= c as u32 && c as u32 <= 57) {
            assert(d[i - first] == c);
            assert(!is_digit(d[i - first]));
            return None;
        }
        let dig = c as u32 - 48;
        assert(d.take(i + 1 - first).drop_last() =~= d.take(i - first));
        assert(d.take(i + 1 - first).last() == c);
        if !big {
            let next = value * 10 + dig;
            if next > 65535 {
                big = true;
            } else {
                value = next;
            }
        }
        i += 1;
    }
    assert(d.take(n - first) =~= d);
    assert forall|k: int| 0 <= k < d.len() implies is_digit(#[trigger] d[k]) by {
        assert(d[k] == p@[k + first]);
    }
    if big {
        None
    } else {
        Some(value)
    }
}

impl HostEntry {
    /// Checks the record before it is written: `Ok` exactly when it breaks no rule,
    /// else the first rule it breaks.
    pub fn validate(&self) -> (r: Result<(), ValidationError>)
        ensures
            match validation_error(self@) {
                Some(err) => r == Err::<(), ValidationError>(err),
                None => r is Ok,
            },
    {
        if trim_str(self.host.as_str()).is_empty() {
            return Err(ValidationError::EmptyHost);
        }
        if contains_char(self.host.as_str(), '*') || contains_char(self.host.as_str(), '?') {
            return Err(ValidationError::WildcardHost);
        }
        if trim_str(self.hostname.as_str()).is_empty() {
            return Err(ValidationError::EmptyHostName);
        }
        let port = trim_str(self.port.as_str());
        if !port.is_empty() {
            match port_value(port) {
                None => {
                    return Err(ValidationError::InvalidPort);
                },
                Some(v) => {
                    if v == 0 {
                        return Err(ValidationError::ZeroPort);
                    }
                },
            }
        }
        Ok(())
    }
}

/// What an edit of the configuration file can fail with.
#[derive(Debug, Clone, PartialEq, Eq)]
pub enum EditError {
    /// The record breaks a rule; the file is left as it was.
    Invalid(ValidationError),
    /// No block has the host name asked for.
    NotFound,
    /// A block with the record's host name is already there.
    AlreadyExists,
}

/// The sentence that tells the user of `e`, about the host named `host`.
pub open spec fn edit_message(e: EditError, host: Seq<char>) -> Seq<char> {
    match e {
        EditError::Invalid(v) => validation_message(v),
        EditError::NotFound => "Host '"@ + host + "' not found"@,
        EditError::AlreadyExists => "Host '"@ + host + "' already exists"@,
    }
}

impl EditError {
    /// A sentence for the user about `host`, the name the edit was about.
    pub fn message(&self, host: &str) -> (r: String)
        ensures
            r@ == edit_message(*self, host@),
    {
        match self {
            EditError::Invalid(v) => v.message(),
            EditError::NotFound => {
                let mut m = String::from_str("Host '");
                m.append(host);
                m.append("' not found");
                m
            },
            EditError::AlreadyExists => {
                let mut m = String::from_str("Host '");
                m.append(host);
                m.append("' already exists");
                m
            },
        }
    }
}

/// Writes `entry` over the block of the first `Host` line named `entry.host`, or
/// appends it as a new block when there is none. A record that breaks a rule is
/// refused and the lines are left as they were.
pub fn upsert_host_entry(lines: &mut Vec<String>, entry: &HostEntry) -> (r: Result<(), EditError>)
    ensures
        match validation_error(entry@) {
            Some(err) => r == Err::<(), EditError>(EditError::Invalid(err))
                && final(lines).deep_view() == old(lines).deep_view(),
            None => r is Ok && final(lines).deep_view() == upsert_lines(
                old(lines).deep_view(),
                entry@,
            ),
        },
{
    match entry.validate() {
        Err(err) => {
            return Err(EditError::Invalid(err));
        },
        Ok(()) => {},
    }
    match find_host_block(lines, entry.host.as_str()) {
        Some((start, end)) => {
            proof {
                lemma_find_block_bounds(lines.deep_view(), entry.host@);
            }
            replace_block(lines, start, end, entry);
        },
        None => append_block(lines, entry),
    }
    Ok(())
}

/// Writes `entry` over the block of the first `Host` line named `original_host` (the
/// record may have been renamed), or appends it when there is none. A record that
/// breaks a rule is refused and the lines are left as they were.
pub fn update_host_entry(lines: &mut Vec<String>, original_host: &str, entry: &HostEntry) -> (r:
    Result<(), EditError>)
    ensures
        match validation_error(entry@) {
            Some(err) => r == Err::<(), EditError>(EditError::Invalid(err))
                && final(lines).deep_view() == old(lines).deep_view(),
            None => r is Ok && final(lines).deep_view() == update_lines(
                old(lines).deep_view(),
                original_host@,
                entry@,
            ),
        },
{
    match entry.validate() {
        Err(err) => {
            return Err(EditError::Invalid(err));
        },
        Ok(()) => {},
    }
    match find_host_block(lines, original_host) {
        Some((start, end)) => {
            proof {
                lemma_find_block_bounds(lines.deep_view(), original_host@);
            }
            replace_block(lines, start, end, entry);
        },
        None => append_block(lines, entry),
    }
    Ok(())
}

/// Appends `entry` as a new block. Refused, with the lines left as they were, when
/// the record breaks a rule or a block with its host name is already there.
pub fn add_host_entry(lines: &mut Vec<String>, entry: &HostEntry) -> (r: Result<(), EditError>)
    ensures
        match validation_error(entry@) {
            Some(err) => r == Err::<(), EditError>(EditError::Invalid(err))
                && final(lines).deep_view() == old(lines).deep_view(),
            None => if find_block(old(lines).deep_view(), entry.host@) is Some {
                r == Err::<(), EditError>(EditError::AlreadyExists) && final(lines).deep_view()
                    == old(lines).deep_view()
            } else {
                r is Ok && final(lines).deep_view() == append_entry(
                    old(lines).deep_view(),
                    entry@,
                )
            },
        },
{
    match entry.validate() {
        Err(err) => {
            return Err(EditError::Invalid(err));
        },
        Ok(()) => {},
    }
    if find_host_block(lines, entry.host.as_str()).is_some() {
        return Err(EditError::AlreadyExists);
    }
    append_block(lines, entry);
    Ok(())
}

/// Removes the block of the first `Host` line named `host`, with the empty lines
/// left behind at the gap. Fails with `NotFound`, the lines left as they were, when
/// there is no such block.
pub fn delete_host_entry(lines: &mut Vec<String>, host: &str) -> (r: Result<(), EditError>)
    ensures
        match find_block(old(lines).deep_view(), host@) {
            Some(_) => r is Ok,
            None => r == Err::<(), EditError>(EditError::NotFound),
        },
        final(lines).deep_view() == delete_lines(old(lines).deep_view(), host@),
{
    match find_host_block(lines, host) {
        Some((start, end)) => {
            proof {
                lemma_find_block_bounds(lines.deep_view(), host@);
            }
            remove_block(lines, start, end);
            Ok(())
        },
        None => Err(EditError::NotFound),
    }
}

proof fn lemma_next_header_bounds(lines: Seq<Seq<char>>, from: int)
    requires
        0 <= from,
    ensures
        from <= next_header(lines, from) <= lines.len() || (from > lines.len() && next_header(
            lines,
            from,
        ) == lines.len()),
    decreases lines.len() - from,
{
    if from < lines.len() && !is_header(lines[from]) {
        lemma_next_header_bounds(lines, from + 1);
    }
}

proof fn lemma_find_from_bounds(lines: Seq<Seq<char>>, name: Seq<char>, from: int)
    requires
        0 <= from,
    ensures
        match find_from(lines, name, from) {
            Some((s, e)) => from <= s < e <= lines.len() && header_name(lines[s]) == Some(name)
                && e == next_header(lines, s + 1),
            None => true,
        },
    decreases lines.len() - from,
{
    if from < lines.len() {
        if header_name(lines[from]) == Some(name) {
            lemma_next_header_bounds(lines, from + 1);
        } else {
            lemma_find_from_bounds(lines, name, from + 1);
        }
    }
}

/// A located block starts at a `Host` line with the name asked for, which is no
/// pattern, ends at the next `Host` line or the end of the file, and lies within
/// the file.
pub proof fn lemma_find_block_bounds(lines: Seq<Seq<char>>, name: Seq<char>)
    ensures
        match find_block(lines, name) {
            Some((s, e)) => 0 <= s < e <= lines.len() && header_name(lines[s]) == Some(name)
                && e == next_header(lines, s + 1) && !is_pattern(name),
            None => true,
        },
{
    lemma_find_from_bounds(lines, name, 0);
}

/// The host records of a file whose text is `contents`, in file order.
pub fn list_entries(contents: &str) -> (r: Vec<HostEntry>)
    ensures
        entries_view(r@) == parse_lines(text_lines(contents@)),
{
    let lines = split_lines(contents);
    load_host_entries(&lines)
}

/// The host names of a file whose text is `contents`, in file order.
pub fn parse_ssh_hosts(contents: &str) -> (r: Vec<String>)
    ensures
        r.deep_view() == parse_lines(text_lines(contents@)).map_values(|e: HostEntryView| e.host),
{
    let entries = list_entries(contents);
    let ghost es = entries_view(entries@);
    let mut names: Vec<String> = Vec::new();
    let mut i: usize = 0;
    while i < entries.len()
        invariant
            i <= entries.len(),
            es == entries_view(entries@),
            names.deep_view() == es.take(i as int).map_values(|e: HostEntryView| e.host),
        decreases entries.len() - i,
    {
        let ghost before = names.deep_view();
        assert(es[i as int].host == entries[i as int].host@);
        names.push(entries[i].host.clone());
        assert(names.deep_view() =~= before.push(es[i as int].host));
        assert(names.deep_view() =~= es.take(i + 1).map_values(|e: HostEntryView| e.host));
        i += 1;
    }
    assert(es.take(entries.len() as int) =~= es);
    names
}

} // verus!
