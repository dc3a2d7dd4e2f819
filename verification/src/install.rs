//! Writing the managed block into a repository's agent file.
//!
//! Only ever replaces the text between the markers, so hand-written content in the file is
//! untouched by construction — the two never occupy the same bytes. That is why this can
//! be a generator without violating the "edit with editor tools" rule: the content is
//! computed, and `check` makes the result verifiable rather than trusted.
//!
//! The reads and writes themselves belong to the program; this module decides what they
//! are and what they mean.

use vstd::prelude::*;
use vstd::string::StringExecFns;

use crate::render::{begin_prefix, end_marker, extract_block, first_with_prefix, lemma_first_with_prefix, with_newlines, BEGIN_PREFIX, END_MARKER};
use crate::text::{
    index_of, lemma_index_of, chars_of, concat, decimal, decimal_text, ends_with, eq_chars, lines, lines_of, pieces,
    pieces_of, push_char, push_chars, starts_with, starts_with_exec, str_views, string_of, views,
};

verus! {

/// What installing or checking a block found, with the file it was about.
pub enum Outcome {
    Created(String),
    Updated(String),
    Unchanged(String),
    UpToDate(String),
    /// The block is present but differs from the composed one.
    Stale(String, String),
    /// Checked, but the file does not exist.
    Missing(String),
    /// Checked, and the file exists but has no managed block.
    NoBlock(String),
}

impl Outcome {
    pub open spec fn path_of(&self) -> Seq<char> {
        match self {
            Outcome::Created(p) => p@,
            Outcome::Updated(p) => p@,
            Outcome::Unchanged(p) => p@,
            Outcome::UpToDate(p) => p@,
            Outcome::Stale(p, _) => p@,
            Outcome::Missing(p) => p@,
            Outcome::NoBlock(p) => p@,
        }
    }

    pub fn path(&self) -> (r: &str)
        ensures
            r@ == self.path_of(),
    {
        match self {
            Outcome::Created(p) => p.as_str(),
            Outcome::Updated(p) => p.as_str(),
            Outcome::Unchanged(p) => p.as_str(),
            Outcome::UpToDate(p) => p.as_str(),
            Outcome::Stale(p, _) => p.as_str(),
            Outcome::Missing(p) => p.as_str(),
            Outcome::NoBlock(p) => p.as_str(),
        }
    }
}

/// The files among `order` that rank above `file`, as `present` reports them: those the
/// repository holds.
pub open spec fn shadowing(file: Seq<char>, order: Seq<Seq<char>>, present: Seq<bool>) -> Seq<Seq<char>>
    decreases order.len(),
{
    if order.len() == 0 || order[0] == file {
        seq![]
    } else {
        let rest = shadowing(file, order.drop_first(), present.drop_first());
        if present.len() > 0 && present[0] {
            seq![order[0]] + rest
        } else {
            rest
        }
    }
}

/// Files that outrank `file` in a harness's instruction-file order and exist in the repo.
///
/// A harness that reads only the **first** match — Zed does — will silently ignore the file
/// we just wrote if anything above it is present. No error, no warning, and the rules simply
/// do not apply. That is the worst failure mode available here, and it is cheap to detect.
///
/// `order` is most-significant-first, as declared by the target, and `present[i]` says
/// whether `order[i]` is a file in the repository. A file that is not in the order is never
/// reported: the harness is not known to rank it, so there is nothing to say.
pub fn shadowing_files(file: &str, order: &Vec<String>, present: &Vec<bool>) -> (r: Vec<String>)
    requires
        present@.len() == order@.len(),
    ensures
        str_views(order@).contains(file@) ==> str_views(r@) == shadowing(file@, str_views(order@), present@),
        !str_views(order@).contains(file@) ==> r@.len() == 0,
{
    let target = chars_of(file);
    let ghost ov = str_views(order@);
    let mut rank: usize = 0;
    while rank < order.len() && !eq_chars(&chars_of(order[rank].as_str()), &target)
        invariant
            ov == str_views(order@),
            target@ == file@,
            rank <= order@.len(),
            forall|j: int| 0 <= j < rank ==> ov[j] != file@,
        decreases order.len() - rank,
    {
        rank = rank + 1;
    }
    if rank == order.len() {
        proof {
            if ov.contains(file@) {
                let j = choose|j: int| 0 <= j < ov.len() && ov[j] == file@;
                assert(ov[j] == file@);
            }
        }
        return Vec::new();
    }
    let mut r: Vec<String> = Vec::new();
    let mut i = rank;
    proof {
        lemma_shadowing_stops(file@, ov.skip(rank as int), present@.skip(rank as int));
    }
    while i > 0
        invariant
            ov == str_views(order@),
            present@.len() == order@.len(),
            i <= rank < order@.len(),
            ov[rank as int] == file@,
            forall|j: int| 0 <= j < rank ==> ov[j] != file@,
            str_views(r@) == shadowing(file@, ov.skip(i as int), present@.skip(i as int)),
        decreases i,
    {
        i = i - 1;
        let ghost before = str_views(r@);
        assert(ov.skip(i as int).drop_first() =~= ov.skip(i + 1));
        assert(present@.skip(i as int).drop_first() =~= present@.skip(i + 1));
        assert(ov.skip(i as int)[0] == ov[i as int]);
        if present[i] {
            r.insert(0, order[i].clone());
            assert(str_views(r@) =~= seq![ov[i as int]] + before);
        }
    }
    assert(ov.skip(0) =~= ov);
    assert(present@.skip(0) =~= present@);
    r
}

proof fn lemma_shadowing_stops(file: Seq<char>, order: Seq<Seq<char>>, present: Seq<bool>)
    requires
        order.len() > 0,
        order[0] == file,
    ensures
        shadowing(file, order, present) == Seq::<Seq<char>>::empty(),
{
}

// ---------------------------------------------------------------------------------------
// Splicing
// ---------------------------------------------------------------------------------------

/// Where the managed block in the pieces of a file ends: the first piece from `b` on that
/// opens with the end marker.
pub open spec fn block_end(ls: Seq<Seq<char>>, b: int) -> int {
    b + first_with_prefix(ls.skip(b), end_marker()) as int
}

/// The file with its managed block replaced by `block`, or `block` appended.
pub open spec fn spliced(existing: Seq<char>, block: Seq<char>) -> Seq<char> {
    let ls = pieces(existing);
    let b = first_with_prefix(ls, begin_prefix()) as int;
    let e = block_end(ls, b);
    if b < ls.len() && e < ls.len() {
        concat(ls.take(b)) + block + concat(ls.skip(e + 1))
    } else if existing.len() == 0 {
        block
    } else if existing.last() == '\n' {
        existing + seq!['\n'] + block
    } else {
        existing + seq!['\n', '\n'] + block
    }
}

/// Replace the managed block in `existing` with `block`, or append it.
pub fn splice(existing: &str, block: &str) -> (r: String)
    ensures
        r@ == spliced(existing@, block@),
{
    let v = chars_of(existing);
    let ls = pieces_of(&v);
    let ghost lv = views(ls@);
    let begin = chars_of(BEGIN_PREFIX);
    let end = chars_of(END_MARKER);
    let mut b: usize = 0;
    while b < ls.len() && !starts_with_exec(&ls[b], &begin)
        invariant
            lv == views(ls@),
            b <= ls@.len(),
            begin@ == begin_prefix(),
            forall|j: int| 0 <= j < b ==> !starts_with(#[trigger] lv[j], begin_prefix()),
        decreases ls.len() - b,
    {
        b = b + 1;
    }
    proof {
        lemma_first_with_prefix(lv, begin_prefix(), b as int);
    }
    let mut e = b;
    while e < ls.len() && !starts_with_exec(&ls[e], &end)
        invariant
            lv == views(ls@),
            b <= e <= ls@.len(),
            end@ == end_marker(),
            forall|j: int| b <= j < e ==> !starts_with(#[trigger] lv[j], end_marker()),
        decreases ls.len() - e,
    {
        e = e + 1;
    }
    proof {
        assert forall|j: int| 0 <= j < e - b implies !starts_with(#[trigger] lv.skip(b as int)[j], end_marker()) by {
            assert(lv.skip(b as int)[j] == lv[b + j]);
        }
        lemma_first_with_prefix(lv.skip(b as int), end_marker(), e - b);
    }
    if b < ls.len() && e < ls.len() {
        let mut out = String::new();
        let mut i: usize = 0;
        while i < b
            invariant
                lv == views(ls@),
                i <= b < ls@.len(),
                out@ == concat(lv.take(i as int)),
            decreases b - i,
        {
            assert(lv.take(i + 1).drop_last() =~= lv.take(i as int));
            push_chars(&mut out, &ls[i]);
            i = i + 1;
        }
        out.append(block);
        let ghost mid = out@;
        let mut j = e + 1;
        assert(lv.skip(j as int).take(0) =~= Seq::<Seq<char>>::empty());
        while j < ls.len()
            invariant
                lv == views(ls@),
                e + 1 <= j <= ls@.len(),
                out@ == mid + concat(lv.skip(e + 1).take(j - (e + 1))),
            decreases ls.len() - j,
        {
            assert(lv.skip(e + 1).take(j + 1 - (e + 1)).drop_last() =~= lv.skip(e + 1).take(j - (e + 1)));
            assert(lv.skip(e + 1).take(j + 1 - (e + 1)).last() == lv[j as int]);
            push_chars(&mut out, &ls[j]);
            j = j + 1;
        }
        assert(lv.skip(e + 1).take(ls@.len() - (e + 1)) =~= lv.skip(e + 1));
        out
    } else {
        let mut out = String::from_str(existing);
        if v.len() > 0 {
            if v[v.len() - 1] != '\n' {
                push_char(&mut out, '\n');
            }
            push_char(&mut out, '\n');
        }
        out.append(block);
        out
    }
}

// ---------------------------------------------------------------------------------------
// Checking
// ---------------------------------------------------------------------------------------

/// What checking a file's managed block against the composed one finds. `existing` is the
/// file's text, or `None` when it could not be read.
pub open spec fn checked(existing: Option<Seq<char>>, block: Seq<char>) -> int {
    match existing {
        None => 0,
        Some(text) => match extract_block_of(text) {
            None => 1,
            Some(found) => if found == block { 2 } else { 3 },
        },
    }
}

pub open spec fn extract_block_of(text: Seq<char>) -> Option<Seq<char>> {
    crate::render::extracted(text)
}

/// Check a repository's block: `Missing`, `NoBlock`, `UpToDate` or `Stale` with a window
/// around the first difference.
pub fn check(path: String, existing: Option<&str>, block: &str) -> (r: Outcome)
    ensures
        r.path_of() == path@,
        match existing {
            None => r is Missing,
            Some(text) => match crate::render::extracted(text@) {
                None => r is NoBlock,
                Some(found) => if found == block@ {
                    r is UpToDate
                } else {
                    r matches Outcome::Stale(_, d) && d@ == difference(found, block@)
                },
            },
        },
{
    let text = match existing {
        None => return Outcome::Missing(path),
        Some(t) => t,
    };
    let found = match extract_block(text) {
        None => return Outcome::NoBlock(path),
        Some(f) => f,
    };
    if eq_chars(&chars_of(found.as_str()), &chars_of(block)) {
        return Outcome::UpToDate(path);
    }
    let d = describe_difference(found.as_str(), block);
    Outcome::Stale(path, d)
}

/// What installing `block` into a file that holds `existing` writes: `None` when the file
/// would not change.
pub fn merge(existing: &str, block: &str) -> (r: Option<String>)
    ensures
        match r {
            None => spliced(existing@, block@) == existing@,
            Some(m) => m@ == spliced(existing@, block@) && m@ != existing@,
        },
{
    let merged = splice(existing, block);
    if eq_chars(&chars_of(merged.as_str()), &chars_of(existing)) {
        None
    } else {
        Some(merged)
    }
}

// ---------------------------------------------------------------------------------------
// Describing a difference
// ---------------------------------------------------------------------------------------

pub open spec fn line_at(ls: Seq<Seq<char>>, i: int) -> Option<Seq<char>> {
    if 0 <= i < ls.len() {
        Some(ls[i])
    } else {
        None
    }
}

/// The first position below `n` where the two listings differ, or `n`.
pub open spec fn first_difference(a: Seq<Seq<char>>, b: Seq<Seq<char>>, from: int, n: int) -> int
    decreases n - from,
{
    if from >= n {
        n
    } else if line_at(a, from) != line_at(b, from) {
        from
    } else {
        first_difference(a, b, from + 1, n)
    }
}

/// The unchanged lines before the first difference, indented to line up with `-` and `+`.
pub open spec fn context(a: Seq<Seq<char>>, from: int, to: int) -> Seq<char>
    decreases to - from,
{
    if to <= from {
        seq![]
    } else {
        context(a, from, to - 1) + (if to - 1 < a.len() { "   "@ + a[to - 1] + "\n"@ } else { seq![] })
    }
}

/// The window of lines from the first difference: equal lines indented, removed ones `-`,
/// added ones `+`.
pub open spec fn window(a: Seq<Seq<char>>, b: Seq<Seq<char>>, from: int, to: int) -> Seq<char>
    decreases to - from,
{
    if to <= from {
        seq![]
    } else {
        window(a, b, from, to - 1) + match (line_at(a, to - 1), line_at(b, to - 1)) {
            (Some(x), Some(y)) => if x == y {
                "   "@ + x + "\n"@
            } else {
                "  -"@ + x + "\n"@ + "  +"@ + y + "\n"@
            },
            (Some(x), None) => "  -"@ + x + "\n"@,
            (None, Some(y)) => "  +"@ + y + "\n"@,
            (None, None) => seq![],
        }
    }
}

pub open spec fn max(a: int, b: int) -> int {
    if a >= b { a } else { b }
}

pub open spec fn min(a: int, b: int) -> int {
    if a <= b { a } else { b }
}

/// A window around the first difference between two blocks.
pub open spec fn difference(old: Seq<char>, new: Seq<char>) -> Seq<char> {
    let a = lines(old);
    let b = lines(new);
    let n = max(a.len() as int, b.len() as int);
    let first = first_difference(a, b, 0, n);
    if first >= n {
        "(blocks differ only in trailing whitespace)"@
    } else {
        "first difference at line "@ + decimal((first + 1) as nat) + " ("@ + decimal(a.len()) + " lines in the file, "@
            + decimal(b.len()) + " composed)\n"@ + context(a, max(first - 2, 0), first) + window(a, b, first, min(first + 6, n))
    }
}

fn line_eq(a: &Vec<Vec<char>>, b: &Vec<Vec<char>>, i: usize) -> (r: bool)
    ensures
        r == (line_at(views(a@), i as int) == line_at(views(b@), i as int)),
{
    if i < a.len() && i < b.len() {
        let r = eq_chars(&a[i], &b[i]);
        assert(views(a@)[i as int] == a@[i as int]@);
        assert(views(b@)[i as int] == b@[i as int]@);
        r
    } else {
        i >= a.len() && i >= b.len()
    }
}

/// A window around the first difference. Enough to see what changed without pasting two
/// hundred lines of rule text into a terminal.
#[verifier::rlimit(30)]
pub fn describe_difference(old: &str, new: &str) -> (r: String)
    ensures
        r@ == difference(old@, new@),
{
    let a = lines_of(&chars_of(old));
    let b = lines_of(&chars_of(new));
    let ghost av = views(a@);
    let ghost bv = views(b@);
    let n = if a.len() >= b.len() { a.len() } else { b.len() };
    let mut first: usize = 0;
    while first < n && line_eq(&a, &b, first)
        invariant
            av == views(a@),
            bv == views(b@),
            n == max(av.len() as int, bv.len() as int),
            first <= n,
            first_difference(av, bv, 0, n as int) == first_difference(av, bv, first as int, n as int),
        decreases n - first,
    {
        first = first + 1;
    }
    if first >= n {
        return String::from_str("(blocks differ only in trailing whitespace)");
    }
    let mut out = String::from_str("first difference at line ");
    out.append(decimal_text((first + 1) as u64).as_str());
    out.append(" (");
    out.append(decimal_text(a.len() as u64).as_str());
    out.append(" lines in the file, ");
    out.append(decimal_text(b.len() as u64).as_str());
    out.append(" composed)\n");
    let start = if first >= 2 { first - 2 } else { 0 };
    let ghost head = out@;
    let mut i = start;
    while i < first
        invariant
            av == views(a@),
            start <= i <= first,
            out@ == head + context(av, start as int, i as int),
        decreases first - i,
    {
        let ghost before = out@;
        if i < a.len() {
            out.append("   ");
            push_chars(&mut out, &a[i]);
            out.append("\n");
        }
        proof {
            assert(context(av, start as int, i + 1) == context(av, start as int, i as int)
                + (if i < av.len() { "   "@ + av[i as int] + "\n"@ } else { seq![] }));
        }
        assert(out@ =~= head + context(av, start as int, i + 1));
        i = i + 1;
    }
    let stop = if n - first >= 6 { first + 6 } else { n };
    let ghost head2 = out@;
    let mut i = first;
    while i < stop
        invariant
            av == views(a@),
            bv == views(b@),
            first <= i <= stop,
            out@ == head2 + window(av, bv, first as int, i as int),
        decreases stop - i,
    {
        if i < a.len() && i < b.len() {
            assert(av[i as int] == a@[i as int]@);
            assert(bv[i as int] == b@[i as int]@);
            if eq_chars(&a[i], &b[i]) {
                out.append("   ");
                push_chars(&mut out, &a[i]);
                out.append("\n");
            } else {
                out.append("  -");
                push_chars(&mut out, &a[i]);
                out.append("\n");
                out.append("  +");
                push_chars(&mut out, &b[i]);
                out.append("\n");
            }
        } else if i < a.len() {
            out.append("  -");
            push_chars(&mut out, &a[i]);
            out.append("\n");
        } else if i < b.len() {
            out.append("  +");
            push_chars(&mut out, &b[i]);
            out.append("\n");
        }
        assert(out@ =~= head2 + window(av, bv, first as int, i + 1));
        i = i + 1;
    }
    out
}


// ---------------------------------------------------------------------------------------
// Laws
// ---------------------------------------------------------------------------------------

/// A block as `render` writes it: its first line opens with the begin prefix, its last line
/// opens with the end marker and ends in a newline, and no line before the last opens with the
/// end marker.
pub open spec fn well_formed_block(block: Seq<char>) -> bool {
    let ps = pieces(block);
    &&& ps.len() > 0
    &&& starts_with(ps[0], begin_prefix())
    &&& starts_with(ps.last(), end_marker())
    &&& forall|k: int| 0 <= k < ps.len() - 1 ==> !starts_with(#[trigger] ps[k], end_marker())
    &&& block.last() == '\n'
}

/// A file that either holds a whole managed block or has no line opening one: the
/// half-deleted block, an opening marker with no closing one, is the file this excludes.
pub open spec fn no_orphan_begin(existing: Seq<char>) -> bool {
    let ls = pieces(existing);
    let b = first_with_prefix(ls, begin_prefix()) as int;
    b < ls.len() ==> block_end(ls, b) < ls.len()
}

/// Neither a newline nor a carriage return.
pub open spec fn single_line(p: Seq<char>) -> bool {
    forall|i: int| 0 <= i < p.len() ==> p[i] != '\n' && p[i] != '\r'
}

proof fn lemma_markers()
    ensures
        single_line(begin_prefix()),
        single_line(end_marker()),
        begin_prefix().len() > 0 && begin_prefix()[0] == '<',
        end_marker().len() > 0 && end_marker()[0] == '<',
{
    reveal_strlit("<!-- BEGIN agent-playbook");
    reveal_strlit("<!-- END agent-playbook -->");
}

proof fn lemma_concat_last(xs: Seq<Seq<char>>)
    requires
        xs.len() > 0,
        xs.last().len() > 0,
    ensures
        concat(xs).len() > 0,
        concat(xs).last() == xs.last().last(),
{
}

/// The file is some lines that open no block, then the block's lines, then more lines.
pub open spec fn framed(r: Seq<char>, front: Seq<Seq<char>>, block: Seq<char>, back: Seq<Seq<char>>) -> bool {
    &&& pieces(r) == front + pieces(block) + back
    &&& r == concat(front) + block + concat(back)
    &&& forall|k: int| 0 <= k < front.len() ==> !starts_with(#[trigger] front[k], begin_prefix())
}

proof fn lemma_framed_splice(r: Seq<char>, front: Seq<Seq<char>>, block: Seq<char>, back: Seq<Seq<char>>)
    requires
        well_formed_block(block),
        framed(r, front, block, back),
    ensures
        spliced(r, block) == r,
        first_with_prefix(pieces(r), begin_prefix()) == front.len(),
        block_end(pieces(r), front.len() as int) == front.len() + pieces(block).len() - 1,
{
    let ls = pieces(r);
    let bp = pieces(block);
    let b = front.len() as int;
    let n = bp.len() as int;
    assert forall|j: int| 0 <= j < b implies !starts_with(#[trigger] ls[j], begin_prefix()) by {
        assert(ls[j] == front[j]);
    }
    assert(ls[b] == bp[0]);
    lemma_first_with_prefix(ls, begin_prefix(), b);
    let rest = ls.skip(b);
    assert forall|j: int| 0 <= j < n - 1 implies !starts_with(#[trigger] rest[j], end_marker()) by {
        assert(rest[j] == bp[j]);
    }
    assert(rest[n - 1] == bp[n - 1]);
    lemma_first_with_prefix(rest, end_marker(), n - 1);
    let e = b + n - 1;
    assert(ls.take(b) =~= front);
    assert(ls.skip(e + 1) =~= back);
}

proof fn lemma_pieces_push_newline(s: Seq<char>)
    ensures
        s.len() == 0 ==> pieces(s.push('\n')) == seq![seq!['\n']],
        s.len() > 0 && s.last() == '\n' ==> pieces(s.push('\n')) == pieces(s).push(seq!['\n']),
        s.len() > 0 && s.last() != '\n' ==> pieces(s.push('\n')) == pieces(s).drop_last().push(pieces(s).last().push('\n')),
    decreases s.len(),
{
    let t = s.push('\n');
    assert(pieces(Seq::<char>::empty()) =~= Seq::<Seq<char>>::empty());
    if s.len() == 0 {
        assert(t =~= seq!['\n']);
        assert(index_of(t, '\n') == 0);
        assert(t.take(1) =~= t);
        assert(t.skip(1) =~= Seq::<char>::empty());
        assert(pieces(t) =~= seq![t] + pieces(Seq::<char>::empty()));
        assert(pieces(t) =~= seq![seq!['\n']]);
    } else {
        let i = index_of(s, '\n') as int;
        lemma_index_of(s, '\n');
        crate::text::lemma_index_of_append(s, seq!['\n'], '\n');
        assert(s + seq!['\n'] =~= t);
        if i < s.len() {
            let u = s.skip(i + 1);
            let h = s.take(i + 1);
            lemma_pieces_push_newline(u);
            assert(t.take(i + 1) =~= h);
            assert(t.skip(i + 1) =~= u.push('\n'));
            assert(pieces(t) =~= seq![h] + pieces(u.push('\n')));
            assert(pieces(s) =~= seq![h] + pieces(u));
            if u.len() == 0 {
                assert(pieces(u) =~= Seq::<Seq<char>>::empty());
                assert(s.last() == '\n');
                assert(pieces(t) =~= pieces(s).push(seq!['\n']));
            } else {
                assert(u.last() == s.last());
                if s.last() == '\n' {
                    assert(pieces(t) =~= pieces(s).push(seq!['\n']));
                } else {
                    crate::text::lemma_lines_pieces(u);
                    assert(pieces(u).len() > 0);
                    assert(pieces(t) =~= pieces(s).drop_last().push(pieces(s).last().push('\n')));
                }
            }
        } else {
            lemma_index_of(seq!['\n'], '\n');
            assert(index_of(t, '\n') == s.len());
            assert(t.take(s.len() + 1int) =~= t);
            assert(t.skip(s.len() + 1int) =~= Seq::<char>::empty());
            assert(s[s.len() - 1] != '\n');
            assert(pieces(s) =~= seq![s]);
            assert(pieces(t) =~= seq![t] + pieces(Seq::<char>::empty()));
            assert(pieces(t) =~= pieces(s).drop_last().push(pieces(s).last().push('\n')));
        }
    }
}

proof fn lemma_opens_with_after_newline(p: Seq<char>, m: Seq<char>)
    requires
        single_line(m),
        starts_with(p.push('\n'), m),
    ensures
        starts_with(p, m),
{
    if m.len() > p.len() {
        assert(p.push('\n').take(m.len() as int)[p.len() as int] == '\n');
        assert(m[p.len() as int] == '\n');
    } else {
        assert(p.take(m.len() as int) =~= p.push('\n').take(m.len() as int));
    }
}

/// Appending a newline to a file with no line opening a block leaves it with none.
proof fn lemma_no_begin_after_newline(s: Seq<char>)
    requires
        forall|k: int| 0 <= k < pieces(s).len() ==> !starts_with(#[trigger] pieces(s)[k], begin_prefix()),
    ensures
        forall|k: int| 0 <= k < pieces(s.push('\n')).len() ==> !starts_with(#[trigger] pieces(s.push('\n'))[k], begin_prefix()),
{
    lemma_pieces_push_newline(s);
    lemma_markers();
    let t = s.push('\n');
    let nl = seq!['\n'];
    assert(!starts_with(nl, begin_prefix())) by {
        if starts_with(nl, begin_prefix()) {
            assert(nl.take(begin_prefix().len() as int)[0] == begin_prefix()[0]);
        }
    }
    assert forall|k: int| 0 <= k < pieces(t).len() implies !starts_with(#[trigger] pieces(t)[k], begin_prefix()) by {
        if s.len() == 0 {
        } else if s.last() == '\n' {
            if k < pieces(s).len() {
                assert(pieces(t)[k] == pieces(s)[k]);
            }
        } else {
            let ps = pieces(s);
            if k < ps.len() - 1 {
                assert(pieces(t)[k] == ps[k]);
            } else {
                assert(pieces(t)[k] == ps.last().push('\n'));
                assert(!starts_with(ps[ps.len() - 1], begin_prefix()));
                if starts_with(pieces(t)[k], begin_prefix()) {
                    lemma_opens_with_after_newline(ps.last(), begin_prefix());
                }
            }
        }
    }
}

proof fn lemma_frame_replaced(existing: Seq<char>, block: Seq<char>)
    requires
        well_formed_block(block),
        first_with_prefix(pieces(existing), begin_prefix()) < pieces(existing).len(),
        block_end(pieces(existing), first_with_prefix(pieces(existing), begin_prefix()) as int) < pieces(existing).len(),
    ensures
        framed(spliced(existing, block),
            pieces(existing).take(first_with_prefix(pieces(existing), begin_prefix()) as int),
            block,
            pieces(existing).skip(block_end(pieces(existing), first_with_prefix(pieces(existing), begin_prefix()) as int) + 1)),
{
    let ls = pieces(existing);
    let b = first_with_prefix(ls, begin_prefix()) as int;
    let e = block_end(ls, b);
    let r = spliced(existing, block);
    crate::render::lemma_first_with_prefix_bound(ls, begin_prefix());
    crate::render::lemma_first_with_prefix_bound(ls.skip(b), end_marker());
    crate::text::lemma_lines_pieces(existing);
    let front = ls.take(b);
    let back = ls.skip(e + 1);
    let a = concat(front);
    let c = concat(back);
    crate::text::lemma_pieces_take(existing, b);
    if b > 0 {
        assert(front.last() == ls[b - 1]);
        lemma_concat_last(front);
    }
    lemma_pieces_tail(existing, e + 1);
    crate::text::lemma_pieces_append(a, block + c);
    crate::text::lemma_pieces_append(block, c);
    assert(a + (block + c) =~= a + block + c);
    assert(pieces(r) =~= front + pieces(block) + back);
    assert forall|k: int| 0 <= k < front.len() implies !starts_with(#[trigger] front[k], begin_prefix()) by {
        assert(front[k] == ls[k]);
    }
}

proof fn lemma_frame_appended(existing: Seq<char>, block: Seq<char>) -> (front: Seq<Seq<char>>)
    requires
        well_formed_block(block),
        first_with_prefix(pieces(existing), begin_prefix()) == pieces(existing).len(),
    ensures
        framed(spliced(existing, block), front, block, Seq::<Seq<char>>::empty()),
{
    let ls = pieces(existing);
    let r = spliced(existing, block);
    crate::render::lemma_first_with_prefix_bound(ls, begin_prefix());
    assert(concat(Seq::<Seq<char>>::empty()) =~= Seq::<char>::empty());
    if existing.len() == 0 {
        assert(r == block);
        assert(pieces(Seq::<char>::empty()) =~= Seq::<Seq<char>>::empty());
        assert(pieces(r) =~= Seq::<Seq<char>>::empty() + pieces(block) + Seq::<Seq<char>>::empty());
        assert(r =~= concat(Seq::<Seq<char>>::empty()) + block + concat(Seq::<Seq<char>>::empty()));
        Seq::<Seq<char>>::empty()
    } else {
        let x1 = existing.push('\n');
        lemma_no_begin_after_newline(existing);
        let xx = if existing.last() == '\n' { x1 } else { x1.push('\n') };
        if existing.last() != '\n' {
            lemma_no_begin_after_newline(x1);
            assert(xx =~= existing + seq!['\n', '\n']);
        } else {
            assert(xx =~= existing + seq!['\n']);
        }
        assert(r =~= xx + block);
        crate::text::lemma_pieces_append(xx, block);
        crate::text::lemma_concat_pieces(xx);
        assert(pieces(r) =~= pieces(xx) + pieces(block) + Seq::<Seq<char>>::empty());
        assert(r =~= concat(pieces(xx)) + block + concat(Seq::<Seq<char>>::empty()));
        pieces(xx)
    }
}

/// The pieces after the first `k` are the pieces of what follows them.
proof fn lemma_pieces_tail(s: Seq<char>, k: int)
    requires
        0 <= k <= pieces(s).len(),
    ensures
        pieces(concat(pieces(s).skip(k))) == pieces(s).skip(k),
    decreases s.len(),
{
    if k == 0 {
        assert(pieces(s).skip(0) =~= pieces(s));
        crate::text::lemma_concat_pieces(s);
    } else {
        let i = index_of(s, '\n') as int;
        lemma_index_of(s, '\n');
        if i < s.len() {
            let t = s.skip(i + 1);
            lemma_pieces_tail(t, k - 1);
            assert(pieces(s).skip(k) =~= pieces(t).skip(k - 1));
        } else {
            assert(pieces(s).skip(k) =~= Seq::<Seq<char>>::empty());
            assert(concat(Seq::<Seq<char>>::empty()) =~= Seq::<char>::empty());
            assert(pieces(Seq::<char>::empty()) =~= Seq::<Seq<char>>::empty());
        }
    }
}


proof fn lemma_line_opens_like_piece(p: Seq<char>, m: Seq<char>)
    requires
        single_line(m),
    ensures
        starts_with(crate::text::line_of_piece(p), m) == starts_with(p, m),
{
    let lp = crate::text::line_of_piece(p);
    assert(lp.len() <= p.len());
    assert forall|i: int| 0 <= i < lp.len() implies lp[i] == p[i] by {}
    if starts_with(lp, m) {
        assert(p.take(m.len() as int) =~= lp.take(m.len() as int));
    }
    if starts_with(p, m) {
        if m.len() > lp.len() {
            let k = lp.len() as int;
            assert(p.take(m.len() as int)[k] == m[k]);
            assert(p[k] == '\n' || p[k] == '\r');
        }
        assert(lp.take(m.len() as int) =~= p.take(m.len() as int));
    }
}

proof fn lemma_first_line_like_piece(s: Seq<char>, m: Seq<char>, from: int)
    requires
        single_line(m),
        0 <= from <= pieces(s).len(),
    ensures
        first_with_prefix(lines(s).skip(from), m) == first_with_prefix(pieces(s).skip(from), m),
{
    crate::text::lemma_lines_pieces(s);
    let ps = pieces(s).skip(from);
    let ls = lines(s).skip(from);
    crate::render::lemma_first_with_prefix_bound(ps, m);
    let f = first_with_prefix(ps, m) as int;
    assert forall|j: int| 0 <= j < f implies !starts_with(#[trigger] ls[j], m) by {
        lemma_line_opens_like_piece(ps[j], m);
        assert(ls[j] == crate::text::line_of_piece(ps[j]));
    }
    if f < ls.len() {
        lemma_line_opens_like_piece(ps[f], m);
        assert(ls[f] == crate::text::line_of_piece(ps[f]));
    }
    lemma_first_with_prefix(ls, m, f);
}

proof fn lemma_with_newlines_append(a: Seq<Seq<char>>, b: Seq<Seq<char>>)
    ensures
        with_newlines(a + b) == with_newlines(a) + with_newlines(b),
    decreases b.len(),
{
    if b.len() == 0 {
        assert(a + b =~= a);
        assert(with_newlines(b) =~= Seq::<char>::empty());
        assert(with_newlines(a) + with_newlines(b) =~= with_newlines(a));
    } else {
        lemma_with_newlines_append(a, b.drop_last());
        assert((a + b).drop_last() =~= a + b.drop_last());
        assert((a + b).last() == b.last());
        assert(with_newlines(a + b) =~= with_newlines(a) + with_newlines(b));
    }
}

/// No carriage return anywhere.
pub open spec fn no_cr(s: Seq<char>) -> bool {
    forall|i: int| 0 <= i < s.len() ==> s[i] != '\r'
}

proof fn lemma_with_newlines_lines(x: Seq<char>)
    requires
        x.len() == 0 || x.last() == '\n',
        no_cr(x),
    ensures
        with_newlines(lines(x)) == x,
    decreases x.len(),
{
    if x.len() == 0 {
        assert(lines(x) =~= Seq::<Seq<char>>::empty());
    } else {
        let i = index_of(x, '\n') as int;
        lemma_index_of(x, '\n');
        if i >= x.len() {
            assert(x[x.len() - 1] == '\n');
        }
        let t = x.skip(i + 1);
        if t.len() > 0 {
            assert(t.last() == x.last());
        }
        lemma_with_newlines_lines(t);
        let h = x.take(i);
        if h.len() > 0 {
            assert(h.last() == x[i - 1]);
        }
        assert(crate::text::strip_cr(h) == h);
        lemma_with_newlines_append(seq![h], lines(t));
        assert(seq![h].drop_last() =~= Seq::<Seq<char>>::empty());
        assert(with_newlines(Seq::<Seq<char>>::empty()) =~= Seq::<char>::empty());
        assert(seq![h].last() == h);
        assert(with_newlines(seq![h]) =~= h + seq!['\n']);
        assert(h + seq!['\n'] + t =~= x);
    }
}

proof fn lemma_framed_extract(r: Seq<char>, front: Seq<Seq<char>>, block: Seq<char>, back: Seq<Seq<char>>)
    requires
        well_formed_block(block),
        framed(r, front, block, back),
        no_cr(block),
    ensures
        crate::render::extracted(r) == Some(block),
{
    lemma_framed_splice(r, front, block, back);
    lemma_markers();
    let b = front.len() as int;
    let n = pieces(block).len() as int;
    lemma_first_line_like_piece(r, begin_prefix(), 0);
    assert(lines(r).skip(0) =~= lines(r));
    assert(pieces(r).skip(0) =~= pieces(r));
    lemma_first_line_like_piece(r, end_marker(), b);
    crate::text::lemma_lines_pieces(r);
    crate::text::lemma_lines_pieces(block);
    let lr = lines(r);
    assert(lr.subrange(b, b + n) =~= lines(block)) by {
        assert forall|k: int| 0 <= k < n implies lr.subrange(b, b + n)[k] == lines(block)[k] by {
            assert(pieces(r)[b + k] == pieces(block)[k]);
        }
    }
    lemma_with_newlines_lines(block);
}

proof fn lemma_splice_frame(existing: Seq<char>, block: Seq<char>) -> (fb: (Seq<Seq<char>>, Seq<Seq<char>>))
    requires
        well_formed_block(block),
        no_orphan_begin(existing),
    ensures
        framed(spliced(existing, block), fb.0, block, fb.1),
{
    let ls = pieces(existing);
    let b0 = first_with_prefix(ls, begin_prefix()) as int;
    crate::render::lemma_first_with_prefix_bound(ls, begin_prefix());
    if b0 < ls.len() {
        lemma_frame_replaced(existing, block);
        (ls.take(b0), ls.skip(block_end(ls, b0) + 1))
    } else {
        (lemma_frame_appended(existing, block), Seq::<Seq<char>>::empty())
    }
}

/// What one install writes, the next check reads back: after splicing a well-formed block
/// into a file, extracting the managed block from the file gives exactly that block, so
/// `check` reports it up to date.
pub proof fn law_check_after_install_is_up_to_date(existing: Seq<char>, block: Seq<char>)
    requires
        well_formed_block(block),
        no_orphan_begin(existing),
        no_cr(block),
    ensures
        crate::render::extracted(spliced(existing, block)) == Some(block),
        checked(Some(spliced(existing, block)), block) == 2,
{
    let (front, back) = lemma_splice_frame(existing, block);
    lemma_framed_extract(spliced(existing, block), front, block, back);
}

/// Installing twice is installing once: splicing a well-formed block into a file that already
/// holds it changes nothing. This is what makes `check` meaningful.
pub proof fn law_splicing_is_idempotent(existing: Seq<char>, block: Seq<char>)
    requires
        well_formed_block(block),
        no_orphan_begin(existing),
    ensures
        spliced(spliced(existing, block), block) == spliced(existing, block),
{
    let (front, back) = lemma_splice_frame(existing, block);
    lemma_framed_splice(spliced(existing, block), front, block, back);
}


/// Installing replaces the managed block and nothing else: a file of hand-written lines, a
/// block, and more hand-written lines keeps both runs of hand-written lines, byte for byte,
/// around the new block.
pub proof fn law_install_keeps_hand_written_lines(r: Seq<char>, front: Seq<Seq<char>>, old: Seq<char>,
    back: Seq<Seq<char>>, new: Seq<char>)
    requires
        well_formed_block(old),
        framed(r, front, old, back),
    ensures
        spliced(r, new) == concat(front) + new + concat(back),
{
    lemma_framed_splice(r, front, old, back);
    let ls = pieces(r);
    let b = front.len() as int;
    let e = b + pieces(old).len() - 1;
    assert(ls.take(b) =~= front);
    assert(ls.skip(e + 1) =~= back);
}

} // verus!
