//! Conventional-commit classification of one-line commit logs, and the
//! changelog built from it.
use vstd::prelude::*;

use crate::text::{
    char_is_alnum, char_is_letter, char_is_ws, chars_of, contains, contains_chars, is_alnum,
    is_letter, is_ws, skip_alnum, skip_letters, skip_ws, string_of, trim, trim_bounds,
};

verus! {

/// One classified commit line, as plain character sequences.
pub struct CommitView {
    pub hash: Seq<char>,
    pub kind: Seq<char>,
    pub msg: Seq<char>,
}

/// One commit line: its short hash, its type token (without the scope) and
/// its description.
#[derive(Debug)]
pub struct ConventionalCommitMsg {
    pub hash: String,
    pub kind: String,
    pub msg: String,
}

impl View for ConventionalCommitMsg {
    type V = CommitView;

    open spec fn view(&self) -> CommitView {
        CommitView { hash: self.hash@, kind: self.kind@, msg: self.msg@ }
    }
}

impl ConventionalCommitMsg {
    /// A copy of this record.
    pub fn duplicate(&self) -> (r: Self)
        ensures
            r@ == self@,
    {
        ConventionalCommitMsg {
            hash: self.hash.clone(),
            kind: self.kind.clone(),
            msg: self.msg.clone(),
        }
    }
}

/// A log line that matches neither the conventional nor the fallback grammar.
#[derive(Debug)]
pub struct MalformedCommitLine {
    pub line: String,
}

/// The views of a list of records.
pub open spec fn views(v: Seq<ConventionalCommitMsg>) -> Seq<CommitView> {
    v.map_values(|m: ConventionalCommitMsg| m@)
}

/// The first `j >= i` where `t[j..]` starts with `):`, or `t.len()`.
pub open spec fn scope_close(t: Seq<char>, i: int) -> int
    decreases t.len() - i,
{
    if i < 0 || i + 1 >= t.len() {
        t.len() as int
    } else if t[i] == ')' && t[i + 1] == ':' {
        i
    } else {
        scope_close(t, i + 1)
    }
}

/// The type token given to lines that only match the fallback grammar.
pub open spec fn mix_kind() -> Seq<char> {
    seq!['m', 'i', 'x']
}

/// Classification of one trimmed, non-empty line.
///
/// Conventional grammar: `<alnum+> <ws+> <letters+> ( "(" <any> ")" )? ":" <ws*> <desc>`,
/// whose type token is the letters alone and whose description follows the
/// whitespace after the colon. Fallback grammar:
/// `<alnum+> <ws+> <rest>`, whose type token is `mix`. `None` when neither
/// matches.
pub open spec fn classify(t: Seq<char>) -> Option<CommitView> {
    let h = skip_alnum(t, 0);
    if h == 0 || h >= t.len() || !is_ws(t[h]) {
        None
    } else {
        let w = skip_ws(t, h);
        let e = skip_letters(t, w);
        let fallback = Some(
            CommitView { hash: t.subrange(0, h), kind: mix_kind(), msg: t.subrange(w, t.len() as int) },
        );
        if e == w || e >= t.len() {
            fallback
        } else if t[e] == ':' {
            Some(
                CommitView {
                    hash: t.subrange(0, h),
                    kind: t.subrange(w, e),
                    msg: t.subrange(skip_ws(t, e + 1), t.len() as int),
                },
            )
        } else if t[e] == '(' && scope_close(t, e + 1) < t.len() {
            let j = scope_close(t, e + 1);
            Some(
                CommitView {
                    hash: t.subrange(0, h),
                    kind: t.subrange(w, e),
                    msg: t.subrange(skip_ws(t, j + 2), t.len() as int),
                },
            )
        } else {
            fallback
        }
    }
}

/// The first index at or after `i` that holds a newline, or `s.len()`.
pub open spec fn line_end(s: Seq<char>, i: int) -> int
    decreases s.len() - i,
{
    if 0 <= i < s.len() && s[i] != '\n' {
        line_end(s, i + 1)
    } else {
        i
    }
}

/// The records of the lines of `s` from index `i` on; blank lines are
/// skipped; the first line that cannot be classified is the error.
pub open spec fn parse_from(s: Seq<char>, i: int) -> Result<Seq<CommitView>, Seq<char>>
    decreases s.len() - i,
{
    if i < 0 || i > s.len() {
        Ok(Seq::empty())
    } else {
        let e = line_end(s, i);
        let t = trim(s.subrange(i, e));
        let rest = if i <= e < s.len() {
            parse_from(s, e + 1)
        } else {
            Ok(Seq::empty())
        };
        if t.len() == 0 {
            rest
        } else {
            match classify(t) {
                None => Err(t),
                Some(r) => match rest {
                    Ok(rs) => Ok(seq![r] + rs),
                    Err(l) => Err(l),
                },
            }
        }
    }
}

/// The records of all lines of a log text.
pub open spec fn parse_log(s: Seq<char>) -> Result<Seq<CommitView>, Seq<char>> {
    parse_from(s, 0)
}

spec fn prepend(pre: Seq<CommitView>, r: Result<Seq<CommitView>, Seq<char>>) -> Result<
    Seq<CommitView>,
    Seq<char>,
> {
    match r {
        Ok(rs) => Ok(pre + rs),
        Err(l) => Err(l),
    }
}

proof fn lemma_line_end_bounds(s: Seq<char>, i: int)
    requires
        0 <= i <= s.len(),
    ensures
        i <= line_end(s, i) <= s.len(),
        line_end(s, i) < s.len() ==> s[line_end(s, i)] == '\n',
    decreases s.len() - i,
{
    if i < s.len() && s[i] != '\n' {
        lemma_line_end_bounds(s, i + 1);
    }
}

fn copy_range(s: &Vec<char>, lo: usize, hi: usize) -> (r: Vec<char>)
    requires
        lo <= hi <= s@.len(),
    ensures
        r@ == s@.subrange(lo as int, hi as int),
{
    let mut r: Vec<char> = Vec::new();
    let mut k = lo;
    while k < hi
        invariant
            lo <= k <= hi <= s@.len(),
            r@ == s@.subrange(lo as int, k as int),
        decreases hi - k,
    {
        r.push(s[k]);
        proof {
            assert(r@ =~= s@.subrange(lo as int, k + 1));
        }
        k = k + 1;
    }
    r
}

fn mix_kind_string() -> (r: String)
    ensures
        r@ == mix_kind(),
{
    let mut v: Vec<char> = Vec::new();
    v.push('m');
    v.push('i');
    v.push('x');
    proof {
        assert(v@.subrange(0, 3) =~= mix_kind());
    }
    string_of(&v, 0, 3)
}

fn find_scope_close(t: &Vec<char>, i: usize) -> (r: usize)
    requires
        i <= t@.len(),
    ensures
        r == scope_close(t@, i as int),
        r <= t@.len(),
        r < t@.len() ==> i <= r && r + 1 < t@.len(),
{
    let mut j = i;
    while j < t.len() && j + 1 < t.len() && !(t[j] == ')' && t[j + 1] == ':')
        invariant
            i <= j <= t@.len(),
            scope_close(t@, j as int) == scope_close(t@, i as int),
        decreases t@.len() - j,
    {
        j = j + 1;
    }
    if j < t.len() && j + 1 < t.len() {
        j
    } else {
        t.len()
    }
}

fn skip_ws_from(t: &Vec<char>, i: usize) -> (r: usize)
    requires
        i <= t@.len(),
    ensures
        r == skip_ws(t@, i as int),
        i <= r <= t@.len(),
{
    let mut k = i;
    while k < t.len() && char_is_ws(t[k])
        invariant
            i <= k <= t@.len(),
            skip_ws(t@, k as int) == skip_ws(t@, i as int),
        decreases t@.len() - k,
    {
        k = k + 1;
    }
    k
}

/// Classifies one trimmed, non-empty line.
fn classify_line(t: &Vec<char>) -> (r: Option<ConventionalCommitMsg>)
    ensures
        match classify(t@) {
            None => r is None,
            Some(v) => r is Some && r->Some_0@ == v,
        },
{
    let n = t.len();
    let mut h: usize = 0;
    while h < n && char_is_alnum(t[h])
        invariant
            h <= n == t@.len(),
            skip_alnum(t@, h as int) == skip_alnum(t@, 0),
        decreases n - h,
    {
        h = h + 1;
    }
    if h == 0 || h >= n || !char_is_ws(t[h]) {
        return None;
    }
    let mut w = h;
    while w < n && char_is_ws(t[w])
        invariant
            h <= w <= n == t@.len(),
            skip_ws(t@, w as int) == skip_ws(t@, h as int),
        decreases n - w,
    {
        w = w + 1;
    }
    let mut e = w;
    while e < n && char_is_letter(t[e])
        invariant
            w <= e <= n == t@.len(),
            skip_letters(t@, e as int) == skip_letters(t@, w as int),
        decreases n - e,
    {
        e = e + 1;
    }
    let hash = string_of(t, 0, h);
    if e == w || e >= n {
        return Some(
            ConventionalCommitMsg {
                hash,
                kind: mix_kind_string(),
                msg: string_of(t, w, n),
            },
        );
    }
    if t[e] == ':' {
        let d = skip_ws_from(t, e + 1);
        return Some(ConventionalCommitMsg { hash, kind: string_of(t, w, e), msg: string_of(t, d, n) });
    }
    if t[e] == '(' {
        let j = find_scope_close(t, e + 1);
        if j < n {
            let d = skip_ws_from(t, j + 2);
            return Some(
                ConventionalCommitMsg { hash, kind: string_of(t, w, e), msg: string_of(t, d, n) },
            );
        }
    }
    Some(
        ConventionalCommitMsg {
            hash,
            kind: mix_kind_string(),
            msg: string_of(t, w, n),
        },
    )
}

/// Classifies every non-blank line of a one-line-per-commit log.
///
/// A line `<hash> <type>(<scope>): <desc>` or `<hash> <type>: <desc>` gives
/// the type token (the letters alone) and the description; any other line
/// `<hash> <rest>` gives the type token `mix` and the rest. A line that
/// matches neither means the log is not what the tool promises: this is
/// fatal, and the `Err`, which names the (trimmed) line, is how it is
/// reported; no line is ever dropped.
pub fn parse_commit_list(content: &str) -> (r: Result<Vec<ConventionalCommitMsg>, MalformedCommitLine>)
    ensures
        match parse_log(content@) {
            Ok(rs) => r is Ok && views(r->Ok_0@) == rs,
            Err(l) => r is Err && r->Err_0.line@ == l,
        },
{
    let s = chars_of(content);
    let n = s.len();
    let mut acc: Vec<ConventionalCommitMsg> = Vec::new();
    let mut i: usize = 0;
    loop
        invariant
            i <= n == s@.len(),
            s@ == content@,
            parse_log(s@) == prepend(views(acc@), parse_from(s@, i as int)),
        decreases n - i,
    {
        let mut e = i;
        while e < n && s[e] != '\n'
            invariant
                i <= e <= n == s@.len(),
                line_end(s@, e as int) == line_end(s@, i as int),
            decreases n - e,
        {
            e = e + 1;
        }
        let (lo, hi) = trim_bounds(s.as_slice(), i, e);
        proof {
            lemma_line_end_bounds(s@, i as int);
        }
        if lo < hi {
            let line = copy_range(&s, lo, hi);
            match classify_line(&line) {
                None => {
                    return Err(MalformedCommitLine { line: string_of(&line, 0, line.len()) });
                },
                Some(m) => {
                    let ghost pre = views(acc@);
                    acc.push(m);
                    proof {
                        assert(views(acc@) =~= pre.push(m@));
                        assert(pre.push(m@) + Seq::empty() =~= pre.push(m@));
                        assert forall|rs: Seq<CommitView>| pre + (seq![m@] + rs) == pre.push(m@) + rs by {
                            assert(pre + (seq![m@] + rs) =~= pre.push(m@) + rs);
                        }
                    }
                },
            }
        }
        if e == n {
            proof {
                assert(views(acc@) + Seq::empty() =~= views(acc@));
            }
            return Ok(acc);
        }
        i = e + 1;
    }
}

/// The number of changelog categories.
pub const CATEGORY_COUNT: usize = 11;

/// The tag of category `c`, in the fixed order in which categories are tried
/// and rendered.
pub open spec fn category_tag(c: int) -> Seq<char> {
    if c == 0 {
        "build"@
    } else if c == 1 {
        "chore"@
    } else if c == 2 {
        "ci"@
    } else if c == 3 {
        "docs"@
    } else if c == 4 {
        "feat"@
    } else if c == 5 {
        "fix"@
    } else if c == 6 {
        "perf"@
    } else if c == 7 {
        "refactor"@
    } else if c == 8 {
        "style"@
    } else if c == 9 {
        "test"@
    } else {
        "mix"@
    }
}

/// The section heading of category `c`.
pub open spec fn category_title(c: int) -> Seq<char> {
    if c == 0 {
        "Build"@
    } else if c == 1 {
        "Chore"@
    } else if c == 2 {
        "Continuous Integration"@
    } else if c == 3 {
        "Docs"@
    } else if c == 4 {
        "Feature"@
    } else if c == 5 {
        "Fix"@
    } else if c == 6 {
        "Performance"@
    } else if c == 7 {
        "Refactor"@
    } else if c == 8 {
        "Style"@
    } else if c == 9 {
        "Test"@
    } else {
        "Mixture"@
    }
}

/// The tag of category `c`.
pub fn category_tag_str(c: usize) -> (r: &'static str)
    requires
        c < CATEGORY_COUNT,
    ensures
        r@ == category_tag(c as int),
{
    match c {
        0 => "build",
        1 => "chore",
        2 => "ci",
        3 => "docs",
        4 => "feat",
        5 => "fix",
        6 => "perf",
        7 => "refactor",
        8 => "style",
        9 => "test",
        _ => "mix",
    }
}

/// The section heading of category `c`.
pub fn category_title_str(c: usize) -> (r: &'static str)
    requires
        c < CATEGORY_COUNT,
    ensures
        r@ == category_title(c as int),
{
    match c {
        0 => "Build",
        1 => "Chore",
        2 => "Continuous Integration",
        3 => "Docs",
        4 => "Feature",
        5 => "Fix",
        6 => "Performance",
        7 => "Refactor",
        8 => "Style",
        9 => "Test",
        _ => "Mixture",
    }
}

/// The first category, from `c` on, whose tag occurs in `kind`.
pub open spec fn first_category(kind: Seq<char>, c: int) -> Option<int>
    decreases CATEGORY_COUNT - c,
{
    if c < 0 || c >= CATEGORY_COUNT {
        None
    } else if contains(kind, category_tag(c)) {
        Some(c)
    } else {
        first_category(kind, c + 1)
    }
}

/// The category of a type token: the first whose tag occurs in it.
pub open spec fn category_of(kind: Seq<char>) -> Option<int> {
    first_category(kind, 0)
}

proof fn lemma_first_category_range(kind: Seq<char>, c: int)
    ensures
        first_category(kind, c) matches Some(d) ==> c <= d < CATEGORY_COUNT,
    decreases CATEGORY_COUNT - c,
{
    if 0 <= c < CATEGORY_COUNT && !contains(kind, category_tag(c)) {
        lemma_first_category_range(kind, c + 1);
    }
}

/// The records of `rs` that fall in category `c`, in their order.
pub open spec fn in_category(rs: Seq<CommitView>, c: int) -> Seq<CommitView>
    decreases rs.len(),
{
    if rs.len() == 0 {
        Seq::empty()
    } else {
        let p = in_category(rs.drop_last(), c);
        if category_of(rs.last().kind) == Some(c) {
            p.push(rs.last())
        } else {
            p
        }
    }
}

/// The records grouped by category: one list per category, in category order.
pub open spec fn group_spec(rs: Seq<CommitView>) -> Seq<Seq<CommitView>> {
    Seq::new(CATEGORY_COUNT as nat, |c: int| in_category(rs, c))
}

/// The category of a type token, if any.
pub fn category_index(kind: &String) -> (r: Option<usize>)
    ensures
        match category_of(kind@) {
            Some(c) => r == Some(c as usize),
            None => r is None,
        },
        category_of(kind@) matches Some(c) ==> 0 <= c < CATEGORY_COUNT,
{
    let k = chars_of(kind.as_str());
    proof {
        lemma_first_category_range(kind@, 0);
    }
    let mut c: usize = 0;
    while c < CATEGORY_COUNT
        invariant
            c <= CATEGORY_COUNT,
            k@ == kind@,
            first_category(kind@, c as int) == category_of(kind@),
        decreases CATEGORY_COUNT - c,
    {
        let tag = chars_of(category_tag_str(c));
        if contains_chars(k.as_slice(), tag.as_slice()) {
            return Some(c);
        }
        c = c + 1;
    }
    None
}

/// Groups records by category: entry `c` holds, in their order, the records
/// whose type token has category `c`. Records of no category are left out.
pub fn group_by_kind(records: &Vec<ConventionalCommitMsg>) -> (groups: Vec<Vec<ConventionalCommitMsg>>)
    ensures
        groups@.len() == CATEGORY_COUNT,
        forall|c: int| 0 <= c < CATEGORY_COUNT ==> views(#[trigger] groups@[c]@) == in_category(views(records@), c),
{
    let mut groups: Vec<Vec<ConventionalCommitMsg>> = Vec::new();
    let mut c: usize = 0;
    while c < CATEGORY_COUNT
        invariant
            c <= CATEGORY_COUNT,
            groups@.len() == c,
            forall|d: int| 0 <= d < c ==> views(#[trigger] groups@[d]@) == in_category(views(records@), d),
        decreases CATEGORY_COUNT - c,
    {
        let mut g: Vec<ConventionalCommitMsg> = Vec::new();
        let mut i: usize = 0;
        while i < records.len()
            invariant
                c < CATEGORY_COUNT,
                i <= records@.len(),
                views(g@) == in_category(views(records@).take(i as int), c as int),
            decreases records@.len() - i,
        {
            proof {
                let t = views(records@).take(i + 1);
                assert(t.drop_last() =~= views(records@).take(i as int));
                assert(t.last() == records@[i as int]@);
                assert(in_category(t, c as int) == if category_of(records@[i as int]@.kind) == Some(
                    c as int,
                ) {
                    in_category(views(records@).take(i as int), c as int).push(records@[i as int]@)
                } else {
                    in_category(views(records@).take(i as int), c as int)
                });
            }
            match category_index(&records[i].kind) {
                Some(d) => {
                    if d == c {
                        let ghost pre = views(g@);
                        g.push(records[i].duplicate());
                        proof {
                            assert(views(g@) =~= pre.push(records@[i as int]@));
                        }
                    }
                },
                None => {},
            }
            i = i + 1;
        }
        proof {
            assert(views(records@).take(records@.len() as int) =~= views(records@));
        }
        groups.push(g);
        c = c + 1;
    }
    groups
}

/// One changelog bullet.
pub open spec fn bullet(r: CommitView) -> Seq<char> {
    "- `"@ + r.hash + "` "@ + r.kind + ": "@ + trim(r.msg) + "\n"@
}

/// The bullets of `rs`, in order.
pub open spec fn bullets(rs: Seq<CommitView>) -> Seq<char>
    decreases rs.len(),
{
    if rs.len() == 0 {
        Seq::empty()
    } else {
        bullets(rs.drop_last()) + bullet(rs.last())
    }
}

/// A changelog section: a heading and one bullet per record; nothing when
/// there are no records.
pub open spec fn section(title: Seq<char>, rs: Seq<CommitView>) -> Seq<char> {
    if rs.len() == 0 {
        Seq::empty()
    } else {
        "## "@ + title + "\n\n"@ + bullets(rs)
    }
}

/// The sections of the first `n` categories, in category order.
pub open spec fn changelog_upto(groups: Seq<Seq<CommitView>>, n: int) -> Seq<char>
    decreases n,
{
    if n <= 0 {
        Seq::empty()
    } else {
        changelog_upto(groups, n - 1) + section(category_title(n - 1), groups[n - 1])
    }
}

/// The changelog of grouped records.
pub open spec fn changelog_text(groups: Seq<Seq<CommitView>>) -> Seq<char> {
    changelog_upto(groups, CATEGORY_COUNT as int)
}

fn append_bullet(out: &mut String, m: &ConventionalCommitMsg)
    ensures
        final(out)@ == old(out)@ + bullet(m@),
{
    let body = chars_of(m.msg.as_str());
    let (lo, hi) = trim_bounds(body.as_slice(), 0, body.len());
    let msg = string_of(&body, lo, hi);
    out.append("- `");
    out.append(m.hash.as_str());
    out.append("` ");
    out.append(m.kind.as_str());
    out.append(": ");
    out.append(msg.as_str());
    out.append("\n");
    proof {
        assert(body@.subrange(0, body@.len() as int) =~= body@);
        assert(final(out)@ =~= old(out)@ + bullet(m@));
    }
}

/// Renders one changelog section: `## <title>`, a blank line, then one line
/// `` - `<hash>` <kind>: <trimmed description> `` per record; the empty
/// string when there are no records.
pub fn render_section(title: &str, msgs: &Vec<ConventionalCommitMsg>) -> (r: String)
    ensures
        r@ == section(title@, views(msgs@)),
{
    let mut out = String::new();
    if msgs.len() == 0 {
        return out;
    }
    out.append("## ");
    out.append(title);
    out.append("\n\n");
    let ghost head = out@;
    let mut i: usize = 0;
    while i < msgs.len()
        invariant
            i <= msgs@.len(),
            out@ == head + bullets(views(msgs@).take(i as int)),
        decreases msgs@.len() - i,
    {
        proof {
            assert(views(msgs@).take(i + 1).drop_last() =~= views(msgs@).take(i as int));
        }
        append_bullet(&mut out, &msgs[i]);
        proof {
            assert(out@ =~= head + bullets(views(msgs@).take(i + 1)));
        }
        i = i + 1;
    }
    proof {
        assert(views(msgs@).take(msgs@.len() as int) =~= views(msgs@));
    }
    out
}

/// The views of grouped records.
pub open spec fn group_views(groups: Seq<Vec<ConventionalCommitMsg>>) -> Seq<Seq<CommitView>> {
    groups.map_values(|g: Vec<ConventionalCommitMsg>| views(g@))
}

/// Renders grouped records: the sections of all categories, in category
/// order, with empty categories left out.
pub fn render_groups(groups: &Vec<Vec<ConventionalCommitMsg>>) -> (r: String)
    requires
        groups@.len() == CATEGORY_COUNT,
    ensures
        r@ == changelog_text(group_views(groups@)),
{
    let mut out = String::new();
    let mut c: usize = 0;
    while c < CATEGORY_COUNT
        invariant
            c <= CATEGORY_COUNT,
            groups@.len() == CATEGORY_COUNT,
            out@ == changelog_upto(group_views(groups@), c as int),
        decreases CATEGORY_COUNT - c,
    {
        let part = render_section(category_title_str(c), &groups[c]);
        out.append(part.as_str());
        c = c + 1;
    }
    out
}

/// Classifies a commit log and renders its changelog: one section per
/// category that holds records, in category order. Fails on the first line
/// that matches neither grammar.
pub fn render_changelog(content: &str) -> (r: Result<String, MalformedCommitLine>)
    ensures
        match parse_log(content@) {
            Ok(rs) => r is Ok && r->Ok_0@ == changelog_text(group_spec(rs)),
            Err(l) => r is Err && r->Err_0.line@ == l,
        },
{
    match parse_commit_list(content) {
        Err(e) => Err(e),
        Ok(msgs) => {
            let groups = group_by_kind(&msgs);
            let out = render_groups(&groups);
            proof {
                assert(group_views(groups@) =~= group_spec(views(msgs@)));
            }
            Ok(out)
        },
    }
}

proof fn lemma_skip_alnum_to(t: Seq<char>, i: int, j: int)
    requires
        0 <= i <= j <= t.len(),
        forall|k: int| i <= k < j ==> is_alnum(t[k]),
        j == t.len() || !is_alnum(t[j]),
    ensures
        skip_alnum(t, i) == j,
    decreases j - i,
{
    if i < j {
        lemma_skip_alnum_to(t, i + 1, j);
    }
}

proof fn lemma_skip_ws_to(t: Seq<char>, i: int, j: int)
    requires
        0 <= i <= j <= t.len(),
        forall|k: int| i <= k < j ==> is_ws(t[k]),
        j == t.len() || !is_ws(t[j]),
    ensures
        skip_ws(t, i) == j,
    decreases j - i,
{
    if i < j {
        lemma_skip_ws_to(t, i + 1, j);
    }
}

proof fn lemma_skip_letters_to(t: Seq<char>, i: int, j: int)
    requires
        0 <= i <= j <= t.len(),
        forall|k: int| i <= k < j ==> is_letter(t[k]),
        j == t.len() || !is_letter(t[j]),
    ensures
        skip_letters(t, i) == j,
    decreases j - i,
{
    if i < j {
        lemma_skip_letters_to(t, i + 1, j);
    }
}

proof fn lemma_scope_close_to(t: Seq<char>, i: int, j: int)
    requires
        0 <= i <= j,
        j + 1 < t.len(),
        t[j] == ')' && t[j + 1] == ':',
        forall|k: int| i <= k < j ==> !(#[trigger] t[k] == ')' && t[k + 1] == ':'),
    ensures
        scope_close(t, i) == j,
    decreases j - i,
{
    if i < j {
        lemma_scope_close_to(t, i + 1, j);
    }
}

/// The pieces of a conventional line: a hash of ASCII letters and digits,
/// whitespace, and a type of ASCII letters.
pub open spec fn conventional_parts(hash: Seq<char>, ws: Seq<char>, ty: Seq<char>) -> bool {
    &&& hash.len() > 0 && forall|k: int| 0 <= k < hash.len() ==> is_alnum(#[trigger] hash[k])
    &&& ws.len() > 0 && forall|k: int| 0 <= k < ws.len() ==> is_ws(#[trigger] ws[k])
    &&& ty.len() > 0 && forall|k: int| 0 <= k < ty.len() ==> is_letter(#[trigger] ty[k])
}

proof fn lemma_conventional_prefix(hash: Seq<char>, ws: Seq<char>, ty: Seq<char>, rest: Seq<char>)
    requires
        conventional_parts(hash, ws, ty),
        rest.len() > 0,
        !is_letter(rest[0]),
    ensures
        ({
            let t = hash + ws + ty + rest;
            let h = skip_alnum(t, 0);
            let w = skip_ws(t, h);
            let e = skip_letters(t, w);
            &&& h == hash.len() && w == hash.len() + ws.len() && e == w + ty.len()
            &&& 0 < h < t.len() && is_ws(t[h]) && e < t.len() && t[e] == rest[0]
            &&& t.subrange(0, h) =~= hash && t.subrange(w, e) =~= ty
        }),
{
    let t = hash + ws + ty + rest;
    let a = hash.len() as int;
    let b = a + ws.len();
    let c = b + ty.len();
    assert forall|k: int| 0 <= k < a implies is_alnum(t[k]) by {
        assert(t[k] == hash[k]);
    }
    assert(t[a] == ws[0]);
    lemma_skip_alnum_to(t, 0, a);
    assert forall|k: int| a <= k < b implies is_ws(t[k]) by {
        assert(t[k] == ws[k - a]);
    }
    assert(t[b] == ty[0]);
    lemma_skip_ws_to(t, a, b);
    assert forall|k: int| b <= k < c implies is_letter(t[k]) by {
        assert(t[k] == ty[k - b]);
    }
    assert(t[c] == rest[0]);
    lemma_skip_letters_to(t, b, c);
}

/// Whitespace `sp` followed by a description `desc` that does not start
/// with whitespace.
pub open spec fn spaced_desc(sp: Seq<char>, desc: Seq<char>) -> bool {
    &&& forall|k: int| 0 <= k < sp.len() ==> is_ws(#[trigger] sp[k])
    &&& desc.len() == 0 || !is_ws(desc[0])
}

proof fn lemma_desc_start(t: Seq<char>, c: int, sp: Seq<char>, desc: Seq<char>)
    requires
        0 <= c <= t.len(),
        spaced_desc(sp, desc),
        t.subrange(c, t.len() as int) == sp + desc,
    ensures
        skip_ws(t, c) == c + sp.len(),
        t.subrange(skip_ws(t, c), t.len() as int) == desc,
{
    let d = c + sp.len();
    assert(t.subrange(c, t.len() as int).len() == t.len() - c);
    assert((sp + desc).len() == sp.len() + desc.len());
    assert(d + desc.len() == t.len());
    assert forall|k: int| c <= k < d implies is_ws(t[k]) by {
        assert(t[k] == t.subrange(c, t.len() as int)[k - c]);
        assert((sp + desc)[k - c] == sp[k - c]);
    }
    if d < t.len() {
        assert(t[d] == t.subrange(c, t.len() as int)[d - c]);
        assert((sp + desc)[d - c] == desc[0]);
    }
    lemma_skip_ws_to(t, c, d);
    assert(t.subrange(d, t.len() as int) =~= desc) by {
        assert forall|k: int| 0 <= k < desc.len() implies t.subrange(d, t.len() as int)[k] == desc[k] by {
            assert(t[d + k] == t.subrange(c, t.len() as int)[d + k - c]);
            assert((sp + desc)[d + k - c] == desc[k]);
        }
    }
}

/// A line `<hash> <type>: <desc>` is classified with that hash, the type
/// letters as type token and the description after the colon's whitespace.
pub proof fn lemma_classify_conventional(
    hash: Seq<char>,
    ws: Seq<char>,
    ty: Seq<char>,
    sp: Seq<char>,
    desc: Seq<char>,
)
    requires
        conventional_parts(hash, ws, ty),
        spaced_desc(sp, desc),
    ensures
        classify(hash + ws + ty + seq![':'] + sp + desc) == Some(
            CommitView { hash: hash, kind: ty, msg: desc },
        ),
{
    let rest = seq![':'] + sp + desc;
    lemma_conventional_prefix(hash, ws, ty, rest);
    let t = hash + ws + ty + rest;
    assert(hash + ws + ty + seq![':'] + sp + desc =~= t);
    let e = (hash.len() + ws.len() + ty.len()) as int;
    assert(t.subrange(e + 1, t.len() as int) =~= sp + desc);
    lemma_desc_start(t, e + 1, sp, desc);
}

/// A line `<hash> <type>(<scope>): <desc>`, whose scope holds no `):`, is
/// classified with that hash, the type letters as type token (the scope is
/// not part of it) and the description after the colon's whitespace.
pub proof fn lemma_classify_scoped(
    hash: Seq<char>,
    ws: Seq<char>,
    ty: Seq<char>,
    scope: Seq<char>,
    sp: Seq<char>,
    desc: Seq<char>,
)
    requires
        conventional_parts(hash, ws, ty),
        forall|k: int|
            0 <= k && k + 1 < scope.len() ==> !(#[trigger] scope[k] == ')' && scope[k + 1] == ':'),
        spaced_desc(sp, desc),
    ensures
        classify(hash + ws + ty + seq!['('] + scope + seq![')', ':'] + sp + desc) == Some(
            CommitView { hash: hash, kind: ty, msg: desc },
        ),
{
    let rest = seq!['('] + scope + seq![')', ':'] + sp + desc;
    lemma_conventional_prefix(hash, ws, ty, rest);
    let t = hash + ws + ty + rest;
    assert(hash + ws + ty + seq!['('] + scope + seq![')', ':'] + sp + desc =~= t);
    let w = (hash.len() + ws.len()) as int;
    let e = w + ty.len();
    let j = e + 1 + scope.len();
    assert(t[j] == ')' && t[j + 1] == ':');
    assert forall|k: int| e + 1 <= k < j implies !(#[trigger] t[k] == ')' && t[k + 1] == ':') by {
        assert(t[k] == scope[k - e - 1]);
        if k + 1 < j {
            assert(t[k + 1] == scope[k + 1 - e - 1]);
        } else {
            assert(t[k + 1] == ')');
        }
    }
    lemma_scope_close_to(t, e + 1, j);
    assert(t.subrange(j + 2, t.len() as int) =~= sp + desc);
    lemma_desc_start(t, j + 2, sp, desc);
}

proof fn lemma_line_end_to(s: Seq<char>, i: int, j: int)
    requires
        0 <= i <= j <= s.len(),
        forall|k: int| i <= k < j ==> s[k] != '\n',
        j == s.len() || s[j] == '\n',
    ensures
        line_end(s, i) == j,
    decreases j - i,
{
    if i < j {
        lemma_line_end_to(s, i + 1, j);
    }
}

proof fn lemma_line_end_le(s: Seq<char>, i: int, j: int)
    requires
        0 <= i <= j < s.len(),
        s[j] == '\n',
    ensures
        line_end(s, i) <= j,
    decreases j - i,
{
    if i < j && s[i] != '\n' {
        lemma_line_end_le(s, i + 1, j);
    }
}

proof fn lemma_bad_line_from(s: Seq<char>, start: int, line: Seq<char>, i: int)
    requires
        0 <= i <= start,
        start + line.len() <= s.len(),
        start == 0 || s[start - 1] == '\n',
        i == 0 || s[i - 1] == '\n',
        s.subrange(start, start + line.len()) == line,
        forall|k: int| 0 <= k < line.len() ==> line[k] != '\n',
        start + line.len() == s.len() || s[start + line.len()] == '\n',
        trim(line).len() > 0,
        classify(trim(line)) is None,
    ensures
        parse_from(s, i) is Err,
    decreases start - i,
{
    lemma_line_end_bounds(s, i);
    let e = line_end(s, i);
    if i == start {
        assert forall|k: int| start <= k < start + line.len() implies s[k] != '\n' by {
            assert(s[k] == line[k - start]);
        }
        lemma_line_end_to(s, start, start + line.len());
    } else {
        lemma_line_end_le(s, i, start - 1);
        lemma_bad_line_from(s, start, line, e + 1);
    }
}

/// A log with a non-blank line that matches neither grammar is rejected,
/// wherever that line stands.
pub proof fn lemma_malformed_line_rejected(before: Seq<char>, line: Seq<char>, after: Seq<char>)
    requires
        before.len() == 0 || before.last() == '\n',
        after.len() == 0 || after[0] == '\n',
        forall|k: int| 0 <= k < line.len() ==> line[k] != '\n',
        trim(line).len() > 0,
        classify(trim(line)) is None,
    ensures
        parse_log(before + line + after) is Err,
{
    let s = before + line + after;
    let start = before.len() as int;
    assert(s.subrange(start, start + line.len()) =~= line);
    if start > 0 {
        assert(s[start - 1] == before.last());
    }
    if after.len() > 0 {
        assert(s[start + line.len()] == after[0]);
    }
    lemma_bad_line_from(s, start, line, 0);
}

proof fn lemma_in_category_of_group(rs: Seq<CommitView>, c: int, d: int)
    ensures
        in_category(in_category(rs, c), d) == (if d == c {
            in_category(rs, c)
        } else {
            Seq::<CommitView>::empty()
        }),
    decreases rs.len(),
{
    if rs.len() > 0 {
        lemma_in_category_of_group(rs.drop_last(), c, d);
        let p = in_category(rs.drop_last(), c);
        if category_of(rs.last().kind) == Some(c) {
            assert(p.push(rs.last()).drop_last() =~= p);
        }
    }
}

/// Grouping is a function of the records alone, and grouping the records of
/// one category again puts all of them back in that category and nothing in
/// the others.
pub proof fn lemma_grouping_idempotent(rs: Seq<CommitView>, again: Seq<CommitView>, c: int)
    requires
        again == rs,
        0 <= c < CATEGORY_COUNT,
    ensures
        group_spec(rs) == group_spec(again),
        group_spec(group_spec(rs)[c]) == Seq::new(
            CATEGORY_COUNT as nat,
            |d: int|
                if d == c {
                    group_spec(rs)[c]
                } else {
                    Seq::<CommitView>::empty()
                },
        ),
{
    assert forall|d: int| 0 <= d < CATEGORY_COUNT implies group_spec(group_spec(rs)[c])[d] == (if d
        == c {
        group_spec(rs)[c]
    } else {
        Seq::<CommitView>::empty()
    }) by {
        lemma_in_category_of_group(rs, c, d);
    }
    assert(group_spec(group_spec(rs)[c]) =~= Seq::new(
        CATEGORY_COUNT as nat,
        |d: int|
            if d == c {
                group_spec(rs)[c]
            } else {
                Seq::<CommitView>::empty()
            },
    ));
}

proof fn lemma_changelog_upto_empty(groups: Seq<Seq<CommitView>>, n: int)
    requires
        n <= groups.len(),
        forall|c: int| 0 <= c < groups.len() ==> (#[trigger] groups[c]).len() == 0,
    ensures
        changelog_upto(groups, n) == Seq::<char>::empty(),
    decreases n,
{
    if n > 0 {
        lemma_changelog_upto_empty(groups, n - 1);
        assert(groups[n - 1].len() == 0);
    }
}

proof fn lemma_changelog_upto_nonempty(groups: Seq<Seq<CommitView>>, n: int)
    requires
        0 <= n <= groups.len(),
        changelog_upto(groups, n).len() == 0,
    ensures
        forall|c: int| 0 <= c < n ==> (#[trigger] groups[c]).len() == 0,
    decreases n,
{
    if n > 0 {
        reveal_strlit("## ");
        lemma_changelog_upto_nonempty(groups, n - 1);
        assert(groups[n - 1].len() == 0);
    }
}

/// A changelog is the empty string exactly when every category holds no
/// records.
pub proof fn lemma_empty_changelog(groups: Seq<Seq<CommitView>>)
    requires
        groups.len() == CATEGORY_COUNT,
    ensures
        (changelog_text(groups) == Seq::<char>::empty()) <==> (forall|c: int|
            0 <= c < groups.len() ==> (#[trigger] groups[c]).len() == 0),
{
    if forall|c: int| 0 <= c < groups.len() ==> (#[trigger] groups[c]).len() == 0 {
        lemma_changelog_upto_empty(groups, CATEGORY_COUNT as int);
    }
    if changelog_text(groups) == Seq::<char>::empty() {
        lemma_changelog_upto_nonempty(groups, CATEGORY_COUNT as int);
    }
}

} // verus!
