//! Rendering a resolved set into the managed block.
//!
//! Output must be byte-stable for a given input: `check` diffs it, so anything
//! nondeterministic here becomes a false "stale" report.

use vstd::prelude::*;
use vstd::string::StringExecFns;

use crate::load::rule_views;
use crate::model::{lead_of, section_views, Rule, RuleView, Section};
use crate::resolve::Resolved;
use crate::text::{str_views,
    append_chars, chars_of, ends_with, ends_with_exec, find, find_exec, index_of, index_of_from,
    lines, lines_of, push_char, push_chars, slice_of, starts_with, starts_with_exec, string_of,
    trim, trim_exec, trim_start, trim_start_len, views,
};

verus! {

pub const BEGIN_PREFIX: &'static str = "<!-- BEGIN agent-playbook";

pub const END_MARKER: &'static str = "<!-- END agent-playbook -->";

pub open spec fn begin_prefix() -> Seq<char> {
    "<!-- BEGIN agent-playbook"@
}

pub open spec fn end_marker() -> Seq<char> {
    "<!-- END agent-playbook -->"@
}

/// The position of the first of `ls` that opens with `p`, or `ls.len()`.
pub open spec fn first_with_prefix(ls: Seq<Seq<char>>, p: Seq<char>) -> nat
    decreases ls.len(),
{
    if ls.len() == 0 {
        0
    } else if starts_with(ls[0], p) {
        0
    } else {
        1 + first_with_prefix(ls.drop_first(), p)
    }
}

pub proof fn lemma_first_with_prefix(ls: Seq<Seq<char>>, p: Seq<char>, i: int)
    requires
        0 <= i <= ls.len(),
        forall|j: int| 0 <= j < i ==> !starts_with(#[trigger] ls[j], p),
        i < ls.len() ==> starts_with(ls[i], p),
    ensures
        first_with_prefix(ls, p) == i,
    decreases i,
{
    if i > 0 {
        assert(!starts_with(ls[0], p));
        lemma_first_with_prefix(ls.drop_first(), p, i - 1);
    }
}

pub proof fn lemma_first_with_prefix_bound(ls: Seq<Seq<char>>, p: Seq<char>)
    ensures
        first_with_prefix(ls, p) <= ls.len(),
        forall|j: int| 0 <= j < first_with_prefix(ls, p) ==> !starts_with(#[trigger] ls[j], p),
        first_with_prefix(ls, p) < ls.len() ==> starts_with(ls[first_with_prefix(ls, p) as int], p),
    decreases ls.len(),
{
    if ls.len() > 0 && !starts_with(ls[0], p) {
        lemma_first_with_prefix_bound(ls.drop_first(), p);
        assert forall|j: int| 0 <= j < first_with_prefix(ls, p) implies !starts_with(#[trigger] ls[j], p) by {
            if j > 0 {
                assert(ls[j] == ls.drop_first()[j - 1]);
            }
        }
    }
}

/// Lines, each followed by a newline.
pub open spec fn with_newlines(ls: Seq<Seq<char>>) -> Seq<char>
    decreases ls.len(),
{
    if ls.len() == 0 {
        seq![]
    } else {
        with_newlines(ls.drop_last()) + ls.last() + seq!['\n']
    }
}

/// The managed block in a file, markers included: from the first line opening with the
/// begin prefix to the first line after it opening with the end marker.
pub open spec fn extracted(source: Seq<char>) -> Option<Seq<char>> {
    let ls = lines(source);
    let b = first_with_prefix(ls, begin_prefix()) as int;
    let e = b + first_with_prefix(ls.skip(b), end_marker()) as int;
    if b < ls.len() && e < ls.len() {
        Some(with_newlines(ls.subrange(b, e + 1)))
    } else {
        None
    }
}

/// Extract the managed block from a file, markers included.
pub fn extract_block(source: &str) -> (r: Option<String>)
    ensures
        match r {
            Some(b) => extracted(source@) == Some(b@),
            None => extracted(source@) is None,
        },
{
    let ls = lines_of(&chars_of(source));
    let ghost lv = views(ls@);
    assert(lv == lines(source@));
    let begin = chars_of(BEGIN_PREFIX);
    let end = chars_of(END_MARKER);
    let mut b: usize = 0;
    while b < ls.len() && !starts_with_exec(&ls[b], &begin)
        invariant
            lv == views(ls@),
            b <= ls@.len(),
            begin@ == begin_prefix(),
            forall|j: int| 0 <= j < b ==> !starts_with(#[trigger] lv[j], begin_prefix()),
        decreases ls.len() - b,
    {
        b = b + 1;
    }
    proof {
        lemma_first_with_prefix(lv, begin_prefix(), b as int);
    }
    if b == ls.len() {
        return None;
    }
    let mut out = String::new();
    let mut e = b;
    assert(lv.subrange(b as int, b as int) =~= Seq::<Seq<char>>::empty());
    while e < ls.len()
        invariant
            lv == views(ls@),
            lv == lines(source@),
            b <= e <= ls@.len(),
            b < ls@.len(),
            end@ == end_marker(),
            out@ == with_newlines(lv.subrange(b as int, e as int)),
            forall|j: int| b <= j < e ==> !starts_with(#[trigger] lv[j], end_marker()),
            b == first_with_prefix(lv, begin_prefix()),
        decreases ls.len() - e,
    {
        assert(lv.subrange(b as int, e + 1).drop_last() =~= lv.subrange(b as int, e as int));
        assert(ls@[e as int]@ == lv[e as int]);
        push_chars(&mut out, &ls[e]);
        push_char(&mut out, '\n');
        assert(lv.subrange(b as int, e + 1).last() == lv[e as int]);
        assert(out@ =~= with_newlines(lv.subrange(b as int, e + 1)));
        if starts_with_exec(&ls[e], &end) {
            proof {
                assert forall|j: int| 0 <= j < e - b implies !starts_with(#[trigger] lv.skip(b as int)[j], end_marker()) by {
                    assert(lv.skip(b as int)[j] == lv[b + j]);
                }
                lemma_first_with_prefix(lv.skip(b as int), end_marker(), e - b);
            }
            return Some(out);
        }
        e = e + 1;
    }
    proof {
        assert forall|j: int| 0 <= j < e - b implies !starts_with(#[trigger] lv.skip(b as int)[j], end_marker()) by {
            assert(lv.skip(b as int)[j] == lv[b + j]);
        }
        lemma_first_with_prefix(lv.skip(b as int), end_marker(), e - b);
    }
    None
}

// ---------------------------------------------------------------------------------------
// Spacing
// ---------------------------------------------------------------------------------------

/// `s` ending in exactly the blank line `blank_line` leaves.
pub open spec fn blank_lined(s: Seq<char>) -> Seq<char> {
    if s.len() == 0 || ends_with(s, seq!['\n', '\n']) {
        s
    } else if s.last() != '\n' {
        s + seq!['\n', '\n']
    } else {
        s + seq!['\n']
    }
}

/// Ensure the buffer ends with exactly one blank line, so consecutive blocks are
/// separated by one line rather than accumulating one per block.
pub fn blank_line(out: &mut String)
    ensures
        final(out)@ == blank_lined(old(out)@),
{
    let v = chars_of(out.as_str());
    if v.len() == 0 || ends_with_exec(&v, &['\n', '\n']) {
        assert(['\n', '\n']@ =~= seq!['\n', '\n']);
        return;
    }
    assert(['\n', '\n']@ =~= seq!['\n', '\n']);
    if v[v.len() - 1] != '\n' {
        push_char(out, '\n');
    }
    push_char(out, '\n');
}



/// Making room for the next block twice is making room once: the buffer ends with exactly
/// one blank line either way, and an empty buffer stays empty.
pub proof fn law_blank_line_is_idempotent(s: Seq<char>)
    ensures
        blank_lined(blank_lined(s)) == blank_lined(s),
        s.len() > 0 ==> ends_with(blank_lined(s), seq!['\n', '\n']),
        s.len() == 0 ==> blank_lined(s) == s,
        starts_with(blank_lined(s), s),
{
    let b = blank_lined(s);
    if s.len() > 0 && !ends_with(s, seq!['\n', '\n']) {
        if s.last() != '\n' {
            assert(b.skip(b.len() - 2) =~= seq!['\n', '\n']);
        } else {
            assert(b.skip(b.len() - 2) =~= seq![s.last(), '\n']);
            assert(b.skip(b.len() - 2) =~= seq!['\n', '\n']);
        }
        assert(b.take(s.len() as int) =~= s);
    } else {
        assert(b.take(s.len() as int) =~= s);
    }
}

// ---------------------------------------------------------------------------------------
// Headings
// ---------------------------------------------------------------------------------------

/// `s` without its leading `#`s: `trim_start_matches('#')`.
pub open spec fn strip_hashes(s: Seq<char>) -> Seq<char>
    decreases s.len(),
{
    if s.len() > 0 && s[0] == '#' {
        strip_hashes(s.drop_first())
    } else {
        s
    }
}

/// A line that opens or closes a fenced code block: three backticks or three tildes after
/// any indentation.
pub open spec fn is_fence_line(line: Seq<char>) -> bool {
    starts_with(trim_start(line), seq!['`', '`', '`']) || starts_with(trim_start(line), seq!['~', '~', '~'])
}

/// A markdown heading: one or more `#` at the very start, then a space.
pub open spec fn is_heading(line: Seq<char>) -> bool {
    &&& line.len() > 0
    &&& line[0] == '#'
    &&& strip_hashes(line).len() > 0
    &&& strip_hashes(line)[0] == ' '
}

/// One line of `demote_headings`: the text so far and whether it is inside a fence, then
/// the same after `line` and its newline are added.
pub open spec fn demote_step(acc: (Seq<char>, bool), line: Seq<char>) -> (Seq<char>, bool) {
    let (out, in_fence) = acc;
    if is_fence_line(line) {
        (out + line + seq!['\n'], !in_fence)
    } else if !in_fence && is_heading(line) {
        (out + seq!['#'] + line + seq!['\n'], in_fence)
    } else {
        (out + line + seq!['\n'], in_fence)
    }
}

/// The lines, each followed by a newline, with headings outside fences pushed down one
/// level; and whether the text ends inside a fence.
pub open spec fn demoted(ls: Seq<Seq<char>>) -> (Seq<char>, bool)
    decreases ls.len(),
{
    if ls.len() == 0 {
        (seq![], false)
    } else {
        demote_step(demoted(ls.drop_last()), ls.last())
    }
}

/// `s` ends in a blank line.
pub open spec fn ends_blank(s: Seq<char>) -> bool {
    s.len() >= 2 && s[s.len() - 1] == '\n' && s[s.len() - 2] == '\n'
}

/// `s` with trailing newlines dropped until it no longer ends in a blank line.
pub open spec fn squeeze_end(s: Seq<char>) -> Seq<char>
    decreases s.len(),
{
    if ends_blank(s) {
        squeeze_end(s.drop_last())
    } else {
        s
    }
}

/// What `demote_headings` makes of `body`.
pub open spec fn demote(body: Seq<char>) -> Seq<char> {
    squeeze_end(demoted(lines(body)).0)
}

fn strip_hashes_len(v: &[char]) -> (r: usize)
    ensures
        r <= v@.len(),
        strip_hashes(v@) == v@.skip(r as int),
{
    let mut k: usize = 0;
    assert(v@.skip(0) =~= v@);
    while k < v.len() && v[k] == '#'
        invariant
            k <= v@.len(),
            strip_hashes(v@) == strip_hashes(v@.skip(k as int)),
        decreases v.len() - k,
    {
        assert(v@.skip(k as int).drop_first() =~= v@.skip(k + 1));
        k = k + 1;
    }
    k
}

fn is_fence_line_exec(line: &[char]) -> (r: bool)
    ensures
        r == is_fence_line(line@),
{
    let lead = trim_start_len(line);
    let trimmed = slice_of(line, lead, line.len());
    assert(trimmed@ =~= line@.skip(lead as int));
    let ticks = ['`', '`', '`'];
    let tildes = ['~', '~', '~'];
    assert(ticks@ =~= seq!['`', '`', '`']);
    assert(tildes@ =~= seq!['~', '~', '~']);
    starts_with_exec(&trimmed, &ticks) || starts_with_exec(&trimmed, &tildes)
}

fn is_heading_exec(line: &[char]) -> (r: bool)
    ensures
        r == is_heading(line@),
{
    if line.len() == 0 || line[0] != '#' {
        return false;
    }
    let h = strip_hashes_len(line);
    h < line.len() && line[h] == ' '
}

/// Adds one line to the text `demote_headings` is building.
fn demote_line(out: &mut Vec<char>, in_fence: bool, line: &[char]) -> (now_in_fence: bool)
    ensures
        (final(out)@, now_in_fence) == demote_step((old(out)@, in_fence), line@),
{
    let mut now = in_fence;
    if is_fence_line_exec(line) {
        now = !in_fence;
    } else if !in_fence && is_heading_exec(line) {
        out.push('#');
    }
    append_chars(out, line);
    out.push('\n');
    now
}

/// Push every heading down one level, so a rule's own sub-headings sit under its title rather
/// than competing with it.
///
/// Fenced code blocks are skipped: a `#` comment in a shell example is not a heading, and
/// demoting it corrupts the example.
pub fn demote_headings(body: &str) -> (r: String)
    ensures
        r@ == demote(body@),
{
    let ls = lines_of(&chars_of(body));
    let ghost lv = views(ls@);
    let mut out: Vec<char> = Vec::new();
    let mut in_fence = false;
    let mut i: usize = 0;
    while i < ls.len()
        invariant
            lv == views(ls@),
            i <= ls@.len(),
            demoted(lv.take(i as int)) == (out@, in_fence),
        decreases ls.len() - i,
    {
        assert(lv.take(i + 1).drop_last() =~= lv.take(i as int));
        assert(ls@[i as int]@ == lv[i as int]);
        in_fence = demote_line(&mut out, in_fence, &ls[i]);
        i = i + 1;
    }
    assert(lv.take(ls@.len() as int) =~= lv);
    assert(lv == lines(body@));
    while out.len() >= 2 && out[out.len() - 1] == '\n' && out[out.len() - 2] == '\n'
        invariant
            squeeze_end(demoted(lv).0) == squeeze_end(out@),
        decreases out@.len(),
    {
        out.pop();
    }
    string_of(&out)
}

// ---------------------------------------------------------------------------------------
// Links
// ---------------------------------------------------------------------------------------

/// What a link `[label](target)` is shown as: the label, or the target when the label is
/// empty, as a code span unless it already is one.
pub open spec fn shown_as(label: Seq<char>, target: Seq<char>) -> Seq<char> {
    let shown = if label.len() == 0 { target } else { label };
    if shown.len() >= 2 && shown[0] == '`' && shown.last() == '`' {
        shown
    } else {
        seq!['`'] + shown + seq!['`']
    }
}

/// Whether `target` is a link this rewriter turns into a code span: a relative `.md` file.
pub open spec fn rewritable(target: Seq<char>) -> bool {
    ends_with(target, seq!['.', 'm', 'd']) && !starts_with(target, seq!['h', 't', 't', 'p'])
}

/// Whether `label` can be a link's label: it holds no bracket, so a `[` that a task list or an
/// array opens, and that closes before the link does, opens no link.
pub open spec fn plain_label(label: Seq<char>) -> bool {
    !label.contains('[') && !label.contains(']')
}

/// The link `[label](target)` at the start of `r`, when it is one to rewrite: what replaces
/// it, and how many characters it spans.
pub open spec fn link_at(r: Seq<char>) -> Option<(Seq<char>, int)> {
    match find(r, seq![']', '(']) {
        Some(le) => {
            let ts = le + 2;
            let te = ts + index_of(r.skip(ts), ')') as int;
            if 1 <= le && ts <= r.len() && te < r.len() && plain_label(r.subrange(1, le))
                && rewritable(r.subrange(ts, te)) {
                Some((shown_as(trim(r.subrange(1, le)), r.subrange(ts, te)), te + 1))
            } else {
                None
            }
        },
        None => None,
    }
}

/// The text with each relative markdown link to a `.md` file replaced by a code span.
pub open spec fn rewrite(rest: Seq<char>) -> Seq<char>
    decreases rest.len(),
{
    let open = index_of(rest, '[') as int;
    if open >= rest.len() {
        rest
    } else {
        let r = rest.skip(open);
        match link_at(r) {
            Some((shown, n)) => rest.take(open) + shown + rewrite(r.skip(n)),
            None => rest.take(open) + seq!['['] + rewrite(r.skip(1)),
        }
    }
}

pub proof fn lemma_find_bounds_pub(s: Seq<char>, p: Seq<char>)
    ensures
        find(s, p) matches Some(i) ==> 0 <= i && i + p.len() <= s.len(),
{
    lemma_find_bounds(s, p);
}

proof fn lemma_find_bounds(s: Seq<char>, p: Seq<char>)
    ensures
        find(s, p) matches Some(i) ==> 0 <= i && i + p.len() <= s.len(),
    decreases s.len(),
{
    if p.len() <= s.len() && s.take(p.len() as int) != p && s.len() > 0 {
        lemma_find_bounds(s.drop_first(), p);
    }
}

/// Whether `s[from..to]` holds a bracket.
fn holds_bracket(s: &[char], from: usize, to: usize) -> (b: bool)
    requires
        from <= to <= s@.len(),
    ensures
        b == !plain_label(s@.subrange(from as int, to as int)),
{
    let ghost l = s@.subrange(from as int, to as int);
    let mut i: usize = from;
    while i < to
        invariant
            from <= i <= to <= s@.len(),
            l == s@.subrange(from as int, to as int),
            forall|j: int| from <= j < i ==> s@[j] != '[' && s@[j] != ']',
        decreases to - i,
    {
        if s[i] == '[' || s[i] == ']' {
            assert(l[i - from] == s@[i as int]);
            return true;
        }
        i = i + 1;
    }
    assert forall|k: int| 0 <= k < l.len() implies l[k] != '[' && l[k] != ']' by {
        assert(l[k] == s@[from + k]);
    }
    false
}

/// The link at the start of `r`, rewritten, and its length; `None` when it is not a link
/// to rewrite.
fn link_at_exec(r: &[char]) -> (res: Option<(Vec<char>, usize)>)
    ensures
        match res {
            Some((shown, n)) => link_at(r@) == Some((shown@, n as int)),
            None => link_at(r@) is None,
        },
{
    let close = [']', '('];
    assert(close@ =~= seq![']', '(']);
    proof {
        lemma_find_bounds(r@, seq![']', '(']);
    }
    let le = match find_exec(r, &close) {
        Some(le) => le,
        None => return None,
    };
    assert(find(r@, close@) == Some(le as int));
    let rl = r.len();
    assert(le + 2 <= rl);
    let ts = le + 2;
    if le < 1 || ts > r.len() {
        return None;
    }
    let te = index_of_from(r, ts, ')');
    if te >= r.len() {
        return None;
    }
    if holds_bracket(r, 1, le) {
        return None;
    }
    let target = slice_of(r, ts, te);
    let md = ['.', 'm', 'd'];
    let http = ['h', 't', 't', 'p'];
    assert(md@ =~= seq!['.', 'm', 'd']);
    assert(http@ =~= seq!['h', 't', 't', 'p']);
    if !ends_with_exec(&target, &md) || starts_with_exec(&target, &http) {
        return None;
    }
    let label = trim_exec(&slice_of(r, 1, le));
    let shown = if label.len() == 0 { target } else { label };
    let n = shown.len();
    if n >= 2 && shown[0] == '`' && shown[n - 1] == '`' {
        Some((shown, te + 1))
    } else {
        let mut out: Vec<char> = Vec::new();
        out.push('`');
        append_chars(&mut out, &shown);
        out.push('`');
        assert(out@ =~= seq!['`'] + shown@ + seq!['`']);
        Some((out, te + 1))
    }
}

/// Rewrite a relative markdown link to a `.md` file into a code span.
///
/// A rule cross-reference like `[the widget-screenshot skill](../../../skills/x/SKILL.md)`
/// is correct inside the playbook and dead inside `shared-crates`, because the rendered
/// block lives in a different repository. Keeping the label as a code span preserves what
/// the reader needs — a rule id or a skill name — and drops a link that would point nowhere.
pub fn rewrite_links(body: &str) -> (r: String)
    ensures
        r@ == rewrite(body@),
{
    let v = chars_of(body);
    let mut out: Vec<char> = Vec::new();
    let mut pos: usize = 0;
    assert(v@.skip(0) =~= v@);
    loop
        invariant
            v@ == body@,
            pos <= v@.len(),
            rewrite(v@) == out@ + rewrite(v@.skip(pos as int)),
        decreases v.len() - pos,
    {
        let ghost rest = v@.skip(pos as int);
        let ghost before = out@;
        let open = index_of_from(&v, pos, '[');
        if open == v.len() {
            append_chars(&mut out, &slice_of(&v, pos, v.len()));
            assert(v@.subrange(pos as int, v@.len() as int) =~= rest);
            assert(rewrite(rest) == rest);
            return string_of(&out);
        }
        let ghost o = open - pos;
        let r = slice_of(&v, open, v.len());
        assert(r@ =~= rest.skip(o));
        assert(rest.take(o) =~= v@.subrange(pos as int, open as int));
        append_chars(&mut out, &slice_of(&v, pos, open));
        match link_at_exec(&r) {
            Some((shown, n)) => {
                append_chars(&mut out, &shown);
                assert(r@.skip(n as int) =~= v@.skip(open + n));
                pos = open + n;
            },
            None => {
                out.push('[');
                assert(r@.skip(1) =~= v@.skip(open + 1));
                pos = open + 1;
            },
        }
        assert(out@ + rewrite(v@.skip(pos as int)) =~= before + rewrite(rest));
    }
}


// ---------------------------------------------------------------------------------------
// The block
// ---------------------------------------------------------------------------------------

/// `s` without its trailing `.md`s: `trim_end_matches(".md")`.
pub open spec fn strip_md(s: Seq<char>) -> Seq<char>
    decreases s.len(),
{
    if s.len() >= 3 && s.skip(s.len() - 3) == seq!['.', 'm', 'd'] {
        strip_md(s.take(s.len() - 3))
    } else {
        s
    }
}

pub open spec fn header_text(project: Seq<char>, target: Seq<char>, title: Seq<char>) -> Seq<char> {
    begin_prefix() + " (project: "@ + project + ", target: "@ + target + ") — generated, do not edit -->\n\n"@
        + "# "@ + title + "\n\n"@
        + "Generated from agent-playbook (`projects/"@ + project + "` + `models/"@ + target
        + "`).\nEach rule's source file is named in the comment above its heading.\nTo change a rule, change the rule — not this block.\n"@
}

pub open spec fn emphasis_lines(rules: Seq<RuleView>) -> Seq<char>
    decreases rules.len(),
{
    if rules.len() == 0 {
        seq![]
    } else {
        emphasis_lines(rules.drop_last()) + "- **"@ + rules.last().title + "** — "@ + lead_of(rules.last().directive) + "\n"@
    }
}

/// How the Non-negotiable list shows one rule: its own title in bold, then its own lead.
pub open spec fn emphasis_entry(r: RuleView) -> Seq<char> {
    "- **"@ + r.title + "** — "@ + lead_of(r.directive) + "\n"@
}

proof fn lemma_emphasis_lines_alt(rules: Seq<RuleView>)
    ensures
        emphasis_lines(rules) == rules.map_values(|r: RuleView| emphasis_entry(r)).flatten_alt(),
    decreases rules.len(),
{
    if rules.len() > 0 {
        lemma_emphasis_lines_alt(rules.drop_last());
        let m = rules.map_values(|r: RuleView| emphasis_entry(r));
        assert(m.drop_last() =~= rules.drop_last().map_values(|r: RuleView| emphasis_entry(r)));
        assert(m.last() == emphasis_entry(rules.last()));
        assert(emphasis_lines(rules) =~= m.flatten_alt());
    } else {
        assert(rules.map_values(|r: RuleView| emphasis_entry(r)) =~= Seq::<Seq<char>>::empty());
    }
}

/// Each emphasised rule is listed once, in emphasis order, with its own title and its own
/// lead: the Non-negotiable list is the rules' entries, one after another, and nothing else.
pub proof fn law_each_emphasised_rule_shows_its_own_lead(rules: Seq<RuleView>)
    ensures
        emphasis_lines(rules) == rules.map_values(|r: RuleView| emphasis_entry(r)).flatten(),
        forall|i: int| 0 <= i < rules.len() ==>
            emphasis_lines(#[trigger] rules.take(i + 1)) == emphasis_lines(rules.take(i)) + emphasis_entry(rules[i]),
{
    lemma_emphasis_lines_alt(rules);
    rules.map_values(|r: RuleView| emphasis_entry(r)).lemma_flatten_and_flatten_alt_are_equivalent();
    assert forall|i: int| 0 <= i < rules.len() implies
        emphasis_lines(#[trigger] rules.take(i + 1)) == emphasis_lines(rules.take(i)) + emphasis_entry(rules[i]) by {
        assert(rules.take(i + 1).drop_last() =~= rules.take(i));
        assert(rules.take(i + 1).last() == rules[i]);
    }
}

pub open spec fn emphasis_text(rules: Seq<RuleView>) -> Seq<char> {
    if rules.len() == 0 {
        seq![]
    } else {
        "\n## Non-negotiable\n\n"@ + "The lead of each rule below, repeated so it is read first. Full text follows in place.\n\n"@
            + emphasis_lines(rules)
    }
}

pub open spec fn superseded_lines(ids: Seq<Seq<char>>) -> Seq<char>
    decreases ids.len(),
{
    if ids.len() == 0 {
        seq![]
    } else {
        superseded_lines(ids.drop_last()) + "- `"@ + ids.last() + "`\n"@
    }
}

pub open spec fn superseded_text(ids: Seq<Seq<char>>) -> Seq<char> {
    if ids.len() == 0 {
        seq![]
    } else {
        "\nSuperseded by a higher layer in this project:\n\n"@ + superseded_lines(ids)
    }
}

/// One rule: its title, the comment naming its file, and its directive.
pub open spec fn rule_text(rule: RuleView) -> Seq<char> {
    "\n## "@ + rule.title + "\n"@ + "<!-- rule: "@ + strip_md(rule.rel) + " -->\n\n"@
        + rewrite(demote(rule.directive)) + "\n"@
}

pub open spec fn rules_text(rules: Seq<RuleView>) -> Seq<char>
    decreases rules.len(),
{
    if rules.len() == 0 {
        seq![]
    } else {
        rules_text(rules.drop_last()) + rule_text(rules.last())
    }
}

/// `out` with each body appended after exactly one blank line.
pub open spec fn appended(out: Seq<char>, bodies: Seq<Seq<char>>) -> Seq<char>
    decreases bodies.len(),
{
    if bodies.len() == 0 {
        out
    } else {
        blank_lined(appended(out, bodies.drop_last())) + rewrite(demote(trim(bodies.last()))) + "\n"@
    }
}

pub open spec fn bodies(sections: Seq<(Seq<char>, Seq<char>)>) -> Seq<Seq<char>> {
    sections.map_values(|s: (Seq<char>, Seq<char>)| s.1)
}

/// The managed block for a resolved set.
pub open spec fn rendered(
    project: Seq<char>,
    target: Seq<char>,
    title: Seq<char>,
    emphasis: Seq<RuleView>,
    superseded: Seq<Seq<char>>,
    rules: Seq<RuleView>,
    memory: Seq<Seq<char>>,
    addenda: Seq<Seq<char>>,
) -> Seq<char> {
    let body = header_text(project, target, title) + emphasis_text(emphasis) + superseded_text(superseded)
        + rules_text(rules);
    appended(appended(body, memory), addenda) + end_marker() + "\n"@
}

fn strip_md_exec(v: &[char]) -> (r: Vec<char>)
    ensures
        r@ == strip_md(v@),
{
    let mut n = v.len();
    assert(v@.take(n as int) =~= v@);
    while n >= 3 && v[n - 3] == '.' && v[n - 2] == 'm' && v[n - 1] == 'd'
        invariant
            n <= v@.len(),
            strip_md(v@) == strip_md(v@.take(n as int)),
        decreases n,
    {
        proof {
            let t = v@.take(n as int);
            assert(t.skip(t.len() - 3) =~= seq!['.', 'm', 'd']);
            assert(t.take(t.len() - 3) =~= v@.take(n - 3));
        }
        n = n - 3;
    }
    proof {
        let t = v@.take(n as int);
        if t.len() >= 3 && t.skip(t.len() - 3) == seq!['.', 'm', 'd'] {
            assert(t.skip(t.len() - 3)[0] == v@[n - 3]);
            assert(t.skip(t.len() - 3)[1] == v@[n - 2]);
            assert(t.skip(t.len() - 3)[2] == v@[n - 1]);
        }
    }
    slice_of(v, 0, n)
}

fn emphasis_part(out: &mut String, emphasis: &Vec<Rule>)
    ensures
        final(out)@ == old(out)@ + emphasis_text(rule_views(emphasis@)),
{
    if emphasis.len() == 0 {
        assert(old(out)@ + emphasis_text(rule_views(emphasis@)) =~= old(out)@);
        return;
    }
    let ghost start = out@;
    out.append("\n## Non-negotiable\n\n");
    out.append("The lead of each rule below, repeated so it is read first. Full text follows in place.\n\n");
    let ghost head = out@;
    let mut i: usize = 0;
    let ghost rs = rule_views(emphasis@);
    assert(rs.take(0) =~= Seq::<RuleView>::empty());
    assert(head + emphasis_lines(rs.take(0)) =~= head);
    while i < emphasis.len()
        invariant
            i <= emphasis@.len(),
            rs == rule_views(emphasis@),
            out@ == head + emphasis_lines(rs.take(i as int)),
        decreases emphasis.len() - i,
    {
        assert(rs.take(i + 1).drop_last() =~= rs.take(i as int));
        assert(rs.take(i + 1).last() == emphasis@[i as int]@);
        let rule = &emphasis[i];
        let lead = rule.lead();
        let ghost before = out@;
        out.append("- **");
        out.append(rule.title.as_str());
        out.append("** — ");
        out.append(lead.as_str());
        out.append("\n");
        assert(out@ =~= head + emphasis_lines(rs.take(i + 1)));
        i = i + 1;
    }
    assert(rs.take(emphasis@.len() as int) =~= rs);
    assert(out@ =~= start + emphasis_text(rs));
}

fn superseded_part(out: &mut String, superseded: &Vec<String>)
    ensures
        final(out)@ == old(out)@ + superseded_text(str_views(superseded@)),
{
    if superseded.len() == 0 {
        assert(old(out)@ + superseded_text(str_views(superseded@)) =~= old(out)@);
        return;
    }
    let ghost start = out@;
    out.append("\nSuperseded by a higher layer in this project:\n\n");
    let ghost head = out@;
    let ghost ids = str_views(superseded@);
    let mut i: usize = 0;
    assert(ids.take(0) =~= Seq::<Seq<char>>::empty());
    assert(head + superseded_lines(ids.take(0)) =~= head);
    while i < superseded.len()
        invariant
            i <= superseded@.len(),
            ids == str_views(superseded@),
            out@ == head + superseded_lines(ids.take(i as int)),
        decreases superseded.len() - i,
    {
        assert(ids.take(i + 1).drop_last() =~= ids.take(i as int));
        assert(ids.take(i + 1).last() == superseded@[i as int]@);
        out.append("- `");
        out.append(superseded[i].as_str());
        out.append("`\n");
        assert(out@ =~= head + superseded_lines(ids.take(i + 1)));
        i = i + 1;
    }
    assert(ids.take(superseded@.len() as int) =~= ids);
    assert(out@ =~= start + superseded_text(ids));
}

fn rules_part(out: &mut String, rules: &Vec<Rule>)
    ensures
        final(out)@ == old(out)@ + rules_text(rule_views(rules@)),
{
    let ghost start = out@;
    let ghost rs = rule_views(rules@);
    let mut i: usize = 0;
    assert(rs.take(0) =~= Seq::<RuleView>::empty());
    assert(start + rules_text(rs.take(0)) =~= start);
    while i < rules.len()
        invariant
            i <= rules@.len(),
            rs == rule_views(rules@),
            out@ == start + rules_text(rs.take(i as int)),
        decreases rules.len() - i,
    {
        assert(rs.take(i + 1).drop_last() =~= rs.take(i as int));
        assert(rs.take(i + 1).last() == rules@[i as int]@);
        let rule = &rules[i];
        let rel = strip_md_exec(&chars_of(rule.rel.as_str()));
        let demoted = demote_headings(rule.directive.as_str());
        let text = rewrite_links(demoted.as_str());
        out.append("\n## ");
        out.append(rule.title.as_str());
        out.append("\n");
        out.append("<!-- rule: ");
        push_chars(out, &rel);
        out.append(" -->\n\n");
        out.append(text.as_str());
        out.append("\n");
        assert(out@ =~= start + rules_text(rs.take(i + 1)));
        i = i + 1;
    }
    assert(rs.take(rules@.len() as int) =~= rs);
}

fn sections_part(out: &mut String, sections: &Vec<Section>)
    ensures
        final(out)@ == appended(old(out)@, bodies(section_views(sections@))),
{
    let ghost start = out@;
    let ghost bs = bodies(section_views(sections@));
    let mut i: usize = 0;
    assert(bs.take(0) =~= Seq::<Seq<char>>::empty());
    while i < sections.len()
        invariant
            i <= sections@.len(),
            bs == bodies(section_views(sections@)),
            out@ == appended(start, bs.take(i as int)),
        decreases sections.len() - i,
    {
        assert(bs.take(i + 1).drop_last() =~= bs.take(i as int));
        assert(bs.take(i + 1).last() == sections@[i as int].body@);
        blank_line(out);
        let trimmed = string_of(&trim_exec(&chars_of(sections[i].body.as_str())));
        let demoted = demote_headings(trimmed.as_str());
        let text = rewrite_links(demoted.as_str());
        out.append(text.as_str());
        out.append("\n");
        i = i + 1;
    }
    assert(bs.take(sections@.len() as int) =~= bs);
}

/// The managed block: a header naming the project and target, the emphasised leads, the
/// superseded ids, each rule's directive, then the memory files and the addenda, each
/// separated from what precedes it by exactly one blank line.
///
/// Output is byte-stable for a given input: `check` diffs it, so anything nondeterministic
/// here would become a false "stale" report.
pub fn render(resolved: &Resolved) -> (r: String)
    ensures
        r@ == rendered(
            resolved.project.name@,
            resolved.target.name@,
            resolved.target.title@,
            rule_views(resolved.emphasis@),
            str_views(resolved.superseded@),
            rule_views(resolved.rules@),
            bodies(section_views(resolved.memory@)),
            bodies(section_views(resolved.addenda@)),
        ),
{
    let project = resolved.project.name.as_str();
    let target = resolved.target.name.as_str();
    let mut out = String::from_str(BEGIN_PREFIX);
    out.append(" (project: ");
    out.append(project);
    out.append(", target: ");
    out.append(target);
    out.append(") — generated, do not edit -->\n\n");
    out.append("# ");
    out.append(resolved.target.title.as_str());
    out.append("\n\n");
    out.append("Generated from agent-playbook (`projects/");
    out.append(project);
    out.append("` + `models/");
    out.append(target);
    out.append("`).\nEach rule's source file is named in the comment above its heading.\nTo change a rule, change the rule — not this block.\n");
    assert(out@ =~= header_text(project@, target@, resolved.target.title@));
    emphasis_part(&mut out, &resolved.emphasis);
    superseded_part(&mut out, &resolved.superseded);
    rules_part(&mut out, &resolved.rules);
    sections_part(&mut out, &resolved.memory);
    sections_part(&mut out, &resolved.addenda);
    out.append(END_MARKER);
    out.append("\n");
    out
}

} // verus!
