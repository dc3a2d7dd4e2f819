//! The grammar's vocabulary, shared by every inspection binary: a tool supplies its verb
//! table, and this renders the flag list the parser accepts and the help text that advertises
//! exactly what the parser accepts.

use vstd::prelude::*;
use vstd::string::StringExecFns;

use crate::text::{decimal, is_ws, is_ws_char, join, str_views, trim_start, trim_start_len};

verus! {

pub struct Flag {
    /// The token as it must be typed.
    pub name: &'static str,
    pub takes_value: bool,
    /// The value placeholder for help, empty when the flag takes none.
    pub value: &'static str,
    pub one_line: &'static str,
}

pub struct Verb {
    pub name: &'static str,
    /// The question this verb answers, in the words a caller would ask it.
    pub question: &'static str,
    /// The canonical one-line invocation.
    pub usage: &'static str,
    /// What the answer counts, what it refuses, and what it does not do yet.
    pub notes: &'static str,
    pub flags: Vec<Flag>,
}

/// A binary's identity and its verbs — everything the help text needs.
pub struct Tool {
    pub name: &'static str,
    pub version: &'static str,
    /// One line, under the name in `help`.
    pub about: &'static str,
    /// What this binary does *not* do.
    pub promise: &'static str,
    pub verbs: Vec<Verb>,
}

/// A flag as plain text: its name, whether it takes a value, the value's placeholder, its line.
pub type FlagView = (Seq<char>, bool, Seq<char>, Seq<char>);

/// A verb as plain text: name, question, usage, notes, and its flags.
pub type VerbView = (Seq<char>, Seq<char>, Seq<char>, Seq<char>, Seq<FlagView>);

pub open spec fn flag_view(f: Flag) -> FlagView {
    (f.name@, f.takes_value, f.value@, f.one_line@)
}

pub open spec fn flag_views(fs: Seq<Flag>) -> Seq<FlagView> {
    fs.map_values(|f: Flag| flag_view(f))
}

pub open spec fn verb_view(v: Verb) -> VerbView {
    (v.name@, v.question@, v.usage@, v.notes@, flag_views(v.flags@))
}

pub open spec fn verb_views(vs: Seq<Verb>) -> Seq<VerbView> {
    vs.map_values(|v: Verb| verb_view(v))
}

/// `--summary`, shared by the verbs that can answer with the frame alone.
pub open spec fn summary_flag() -> FlagView {
    ("--summary"@, false, ""@, "The frame without the rows: what was read, what was cut, what to ask next"@)
}


/// The frame of an answer without its body: the header, the counts, the bounds and the exits,
/// and none of the rows.
pub fn summary() -> (r: Flag)
    ensures
        r.name@ == "--summary"@,
        !r.takes_value,
        flag_view(r) == summary_flag(),
{
    Flag {
        name: "--summary",
        takes_value: false,
        value: "",
        one_line: "The frame without the rows: what was read, what was cut, what to ask next",
    }
}

pub open spec fn verb_names(verbs: Seq<Verb>) -> Seq<Seq<char>> {
    verbs.map_values(|v: Verb| v.name@)
}

pub open spec fn flag_names_of(flags: Seq<Flag>) -> Seq<Seq<char>> {
    flags.map_values(|f: Flag| f.name@)
}

/// The verb with this name.
pub fn find<'a>(verbs: &'a Vec<Verb>, name: &str) -> (r: Option<&'a Verb>)
    ensures
        match r {
            Some(v) => exists|i: int| 0 <= i < verbs@.len() && verbs@[i] == *v && v.name@ == name@
                && forall|j: int| 0 <= j < i ==> (#[trigger] verbs@[j]).name@ != name@,
            None => forall|i: int| 0 <= i < verbs@.len() ==> (#[trigger] verbs@[i]).name@ != name@,
        },
{
    let target = crate::text::chars_of(name);
    let mut i: usize = 0;
    while i < verbs.len()
        invariant
            i <= verbs@.len(),
            target@ == name@,
            forall|j: int| 0 <= j < i ==> (#[trigger] verbs@[j]).name@ != name@,
        decreases verbs.len() - i,
    {
        if crate::text::eq_chars(&crate::text::chars_of(verbs[i].name), &target) {
            return Some(&verbs[i]);
        }
        i = i + 1;
    }
    None
}

pub open spec fn strs(parts: Seq<&'static str>) -> Seq<Seq<char>> {
    parts.map_values(|p: &'static str| p@)
}

fn join_strs(parts: &Vec<&'static str>, sep: &str) -> (r: String)
    ensures
        r@ == join(strs(parts@), sep@),
{
    let ghost pv = strs(parts@);
    let mut out = String::new();
    let mut i: usize = 0;
    assert(pv.take(0) =~= Seq::<Seq<char>>::empty());
    while i < parts.len()
        invariant
            i <= parts@.len(),
            pv == strs(parts@),
            out@ == join(pv.take(i as int), sep@),
        decreases parts.len() - i,
    {
        assert(pv.take(i + 1).drop_last() =~= pv.take(i as int));
        assert(pv.take(i + 1).last() == parts@[i as int]@);
        if i > 0 {
            out.append(sep);
        } else {
            assert(pv.take(1) =~= seq![pv[0]]);
        }
        out.append(parts[i]);
        i = i + 1;
    }
    assert(pv.take(parts@.len() as int) =~= pv);
    out
}

/// The verb names, comma-separated.
pub fn names(verbs: &Vec<Verb>) -> (r: String)
    ensures
        r@ == join(verb_names(verbs@), ", "@),
{
    let mut parts: Vec<&'static str> = Vec::new();
    let mut i: usize = 0;
    while i < verbs.len()
        invariant
            i <= verbs@.len(),
            strs(parts@) == verb_names(verbs@).take(i as int),
        decreases verbs.len() - i,
    {
        let ghost before = parts@;
        parts.push(verbs[i].name);
        assert(strs(parts@) =~= strs(before).push(verbs@[i as int].name@));
        assert(strs(parts@) =~= verb_names(verbs@).take(i + 1));
        i = i + 1;
    }
    assert(verb_names(verbs@).take(verbs@.len() as int) =~= verb_names(verbs@));
    join_strs(&parts, ", ")
}

/// The flags a verb accepts, comma-separated, with `-h` last.
pub fn flag_names(verb: &Verb) -> (r: String)
    ensures
        r@ == join(flag_names_of(verb.flags@).push("-h"@), ", "@),
{
    let mut parts: Vec<&'static str> = Vec::new();
    let mut i: usize = 0;
    while i < verb.flags.len()
        invariant
            i <= verb.flags@.len(),
            strs(parts@) == flag_names_of(verb.flags@).take(i as int),
        decreases verb.flags.len() - i,
    {
        let ghost before = parts@;
        parts.push(verb.flags[i].name);
        assert(strs(parts@) =~= strs(before).push(verb.flags@[i as int].name@));
        assert(strs(parts@) =~= flag_names_of(verb.flags@).take(i + 1));
        i = i + 1;
    }
    assert(flag_names_of(verb.flags@).take(verb.flags@.len() as int) =~= flag_names_of(verb.flags@));
    let ghost before = parts@;
    parts.push("-h");
    assert(strs(parts@) =~= strs(before).push("-h"@));
    join_strs(&parts, ", ")
}

pub open spec fn exit_code_table() -> Seq<(Seq<char>, Seq<char>)> {
    seq![
        ("0"@, "something was found and printed"@),
        ("1"@, "read successfully, nothing to show"@),
        ("2"@, "the command is not one this tool accepts"@),
        ("3"@, "the request was fine, the environment could not satisfy it"@),
        ("4"@, "refused: a path outside the root, or a secret-shaped path"@),
    ]
}

/// The exit codes, in one place so every tool's help and the catalogue describe them identically.
pub fn exit_codes() -> (r: Vec<(&'static str, &'static str)>)
    ensures
        r@.map_values(|e: (&'static str, &'static str)| (e.0@, e.1@)) == exit_code_table(),
{
    let mut r: Vec<(&'static str, &'static str)> = Vec::new();
    r.push(("0", "something was found and printed"));
    r.push(("1", "read successfully, nothing to show"));
    r.push(("2", "the command is not one this tool accepts"));
    r.push(("3", "the request was fine, the environment could not satisfy it"));
    r.push(("4", "refused: a path outside the root, or a secret-shaped path"));
    assert(r@.map_values(|e: (&'static str, &'static str)| (e.0@, e.1@)) =~= exit_code_table());
    r
}

/// `s` padded with spaces to at least `width` characters: `{:<width$}`.
pub open spec fn pad_right(s: Seq<char>, width: nat) -> Seq<char>
    decreases width,
{
    if s.len() >= width {
        s
    } else {
        pad_right(s, (width - 1) as nat) + seq![' ']
    }
}

/// `s` padded on the left with spaces to at least `width` characters: `{:>width$}`.
pub open spec fn pad_left(s: Seq<char>, width: nat) -> Seq<char>
    decreases width,
{
    if s.len() >= width {
        s
    } else {
        seq![' '] + pad_left(s, (width - 1) as nat)
    }
}

pub fn push_padded_right(out: &mut String, s: &str, width: usize)
    ensures
        final(out)@ == old(out)@ + pad_right(s@, width as nat),
    decreases width,
{
    if s.unicode_len() >= width {
        out.append(s);
    } else {
        push_padded_right(out, s, width - 1);
        crate::text::push_char(out, ' ');
        assert(final(out)@ =~= old(out)@ + pad_right(s@, width as nat));
    }
}

pub fn push_padded_left(out: &mut String, s: &str, width: usize)
    ensures
        final(out)@ == old(out)@ + pad_left(s@, width as nat),
    decreases width,
{
    if s.unicode_len() >= width {
        out.append(s);
    } else {
        crate::text::push_char(out, ' ');
        push_padded_left(out, s, width - 1);
        assert(final(out)@ =~= old(out)@ + pad_left(s@, width as nat));
    }
}

/// The two lines each verb gets in the catalogue: its name and question, then its usage.
pub open spec fn verb_line_pairs(verbs: Seq<Verb>) -> Seq<Seq<char>>
    decreases verbs.len(),
{
    if verbs.len() == 0 {
        seq![]
    } else {
        let v = verbs.last();
        verb_line_pairs(verbs.drop_last()).push("  "@ + pad_right(v.name@, 7) + " "@ + v.question@)
            .push("          "@ + v.usage@)
    }
}

/// A verb as the catalogue lists it: its name, its question, its usage.
pub type Row = (Seq<char>, Seq<char>, Seq<char>);

pub open spec fn rows_of(verbs: Seq<Verb>) -> Seq<Row> {
    verbs.map_values(|v: Verb| (v.name@, v.question@, v.usage@))
}

/// The two lines each row gets: its name and question, then its usage.
pub open spec fn row_line_pairs(rows: Seq<Row>) -> Seq<Seq<char>>
    decreases rows.len(),
{
    if rows.len() == 0 {
        seq![]
    } else {
        let r = rows.last();
        row_line_pairs(rows.drop_last()).push("  "@ + pad_right(r.0, 7) + " "@ + r.1).push("          "@ + r.2)
    }
}

/// The verb lines are the rows' lines: they read nothing else of a verb.
pub proof fn lemma_line_pairs_rows(verbs: Seq<Verb>)
    ensures
        verb_line_pairs(verbs) == row_line_pairs(rows_of(verbs)),
    decreases verbs.len(),
{
    if verbs.len() > 0 {
        lemma_line_pairs_rows(verbs.drop_last());
        assert(rows_of(verbs).drop_last() =~= rows_of(verbs.drop_last()));
    }
}

/// The help for a whole tool, from its identity and its rows.
pub open spec fn help_all_rows_text(name: Seq<char>, version: Seq<char>, about: Seq<char>, promise: Seq<char>, rows: Seq<Row>) -> Seq<char> {
    name + " "@ + version + " — "@ + about + "\n"@ + promise + "\n\n"@
        + line_block(row_line_pairs(rows))
        + "\nExit codes\n"@ + exit_code_lines(exit_code_table(), 6)
        + "\nA `# ` line in the output is metadata: what was read, and what was not.\n"@
        + "Run `at-describe` for the toolkit, `"@ + name + " help <verb>` for one verb.\n"@
}

pub proof fn lemma_help_all_rows(tool: Tool)
    ensures
        help_all_text(tool) == help_all_rows_text(tool.name@, tool.version@, tool.about@, tool.promise@, rows_of(tool.verbs@)),
{
    lemma_line_pairs_rows(tool.verbs@);
}

/// One line per verb, then its usage — the catalogue at the resolution an agent needs to pick a
/// verb rather than to run one.
pub fn verb_lines(verbs: &Vec<Verb>) -> (r: Vec<String>)
    ensures
        str_views(r@) == verb_line_pairs(verbs@),
{
    let mut lines: Vec<String> = Vec::new();
    let mut i: usize = 0;
    assert(str_views(lines@) =~= verb_line_pairs(verbs@.take(0)));
    while i < verbs.len()
        invariant
            i <= verbs@.len(),
            str_views(lines@) == verb_line_pairs(verbs@.take(i as int)),
        decreases verbs.len() - i,
    {
        assert(verbs@.take(i + 1).drop_last() =~= verbs@.take(i as int));
        let verb = &verbs[i];
        let mut first = String::from_str("  ");
        push_padded_right(&mut first, verb.name, 7);
        first.append(" ");
        first.append(verb.question);
        let mut second = String::from_str("          ");
        second.append(verb.usage);
        let ghost before = lines@;
        lines.push(first);
        lines.push(second);
        assert(str_views(lines@) =~= str_views(before).push(lines@[lines@.len() - 2]@).push(lines@.last()@));
        i = i + 1;
    }
    assert(verbs@.take(verbs@.len() as int) =~= verbs@);
    lines
}

// ---------------------------------------------------------------------------------------
// Wrapping
// ---------------------------------------------------------------------------------------

/// How many bytes a character takes in UTF-8.
pub open spec fn utf8_width(c: char) -> nat {
    if (c as int) < 0x80 { 1 } else if (c as int) < 0x800 { 2 } else if (c as int) < 0x10000 { 3 } else { 4 }
}

/// How many bytes a text takes in UTF-8: `str::len`.
pub open spec fn utf8_len(s: Seq<char>) -> nat
    decreases s.len(),
{
    if s.len() == 0 { 0 } else { utf8_len(s.drop_last()) + utf8_width(s.last()) }
}

/// The position of the first whitespace character, or the length.
pub open spec fn first_ws(s: Seq<char>) -> nat
    decreases s.len(),
{
    if s.len() == 0 {
        0
    } else if is_ws(s[0]) {
        0
    } else {
        1 + first_ws(s.drop_first())
    }
}

pub proof fn lemma_trim_start_len(s: Seq<char>)
    ensures
        trim_start(s).len() <= s.len(),
        trim_start(s) == s.skip(s.len() - trim_start(s).len()),
        trim_start(s).len() > 0 ==> !is_ws(trim_start(s)[0]),
    decreases s.len(),
{
    if s.len() > 0 && is_ws(s[0]) {
        lemma_trim_start_len(s.drop_first());
        assert(s.drop_first().skip(s.drop_first().len() - trim_start(s).len()) =~= s.skip(s.len() - trim_start(s).len()));
    } else {
        assert(s.skip(0) =~= s);
    }
}

pub proof fn lemma_first_ws(s: Seq<char>)
    ensures
        first_ws(s) <= s.len(),
        forall|i: int| 0 <= i < first_ws(s) ==> !is_ws(#[trigger] s[i]),
        first_ws(s) < s.len() ==> is_ws(s[first_ws(s) as int]),
    decreases s.len(),
{
    if s.len() > 0 && !is_ws(s[0]) {
        lemma_first_ws(s.drop_first());
        assert forall|i: int| 0 <= i < first_ws(s) implies !is_ws(#[trigger] s[i]) by {
            if i > 0 {
                assert(s[i] == s.drop_first()[i - 1]);
            }
        }
    }
}

/// The words of a text: maximal runs of non-whitespace, `split_whitespace`.
pub open spec fn words(s: Seq<char>) -> Seq<Seq<char>>
    decreases s.len(),
{
    let t = trim_start(s);
    if t.len() == 0 {
        seq![]
    } else {
        let n = first_ws(t) as int;
        proof {
            lemma_trim_start_len(s);
            lemma_first_ws(t);
        }
        if n <= 0 { seq![] } else { seq![t.take(n)] + words(t.skip(n)) }
    }
}

/// Words laid out in lines no wider than `width` bytes, and the column the last one ends at.
pub open spec fn wrapped(ws: Seq<Seq<char>>, width: nat) -> (Seq<char>, nat)
    decreases ws.len(),
{
    if ws.len() == 0 {
        (seq![], 0)
    } else {
        let (out, col) = wrapped(ws.drop_last(), width);
        let w = ws.last();
        if col > 0 && col + 1 + utf8_len(w) > width {
            (out + seq!['\n'] + w, utf8_len(w))
        } else if col > 0 {
            (out + seq![' '] + w, col + 1 + utf8_len(w))
        } else {
            (out + w, col + utf8_len(w))
        }
    }
}

fn utf8_width_exec(c: char) -> (r: usize)
    ensures
        r == utf8_width(c),
{
    let code = c as u32;
    if code < 0x80 { 1 } else if code < 0x800 { 2 } else if code < 0x10000 { 3 } else { 4 }
}

/// The words of `v`, each with its UTF-8 length.
pub open spec fn word_views(r: Seq<(Vec<char>, u128)>) -> Seq<Seq<char>> {
    r.map_values(|w: (Vec<char>, u128)| w.0@)
}

fn words_of(v: &[char]) -> (r: Vec<(Vec<char>, u128)>)
    ensures
        word_views(r@) == words(v@),
        forall|i: int| 0 <= i < r@.len() ==> (#[trigger] r@[i]).1 == utf8_len(r@[i].0@),
        forall|i: int| 0 <= i < r@.len() ==> (#[trigger] r@[i]).1 <= 4 * v@.len(),
{
    let mut r: Vec<(Vec<char>, u128)> = Vec::new();
    let mut pos: usize = 0;
    let n = v.len();
    assert(v@.skip(0) =~= v@);
    loop
        invariant
            pos <= v@.len(),
            v@.len() == n,
            words(v@) == word_views(r@) + words(v@.skip(pos as int)),
            forall|i: int| 0 <= i < r@.len() ==> (#[trigger] r@[i]).1 == utf8_len(r@[i].0@),
            forall|i: int| 0 <= i < r@.len() ==> (#[trigger] r@[i]).1 <= 4 * v@.len(),
        decreases v@.len() - pos,
    {
        let ghost rest = v@.skip(pos as int);
        let rest_v = crate::text::slice_of(v, pos, v.len());
        assert(rest_v@ =~= rest);
        let lead = trim_start_len(&rest_v);
        proof {
            lemma_trim_start_len(rest);
        }
        let start = pos + lead;
        if start == v.len() {
            assert(trim_start(rest).len() == 0);
            assert(word_views(r@) + words(rest) =~= word_views(r@));
            return r;
        }
        let ghost t = trim_start(rest);
        assert(t =~= v@.skip(start as int));
        let mut end = start;
        let mut bytes: u128 = 0;
        while end < v.len() && !is_ws_char(v[end])
            invariant
                start <= end <= v@.len(),
                v@.len() == n,
                bytes == utf8_len(v@.subrange(start as int, end as int)),
                bytes <= 4 * (end - start),
                forall|k: int| start <= k < end ==> !is_ws(#[trigger] v@[k]),
            decreases v@.len() - end,
        {
            assert(v@.subrange(start as int, end + 1).drop_last() =~= v@.subrange(start as int, end as int));
            let w = utf8_width_exec(v[end]);
            bytes = bytes + w as u128;
            end = end + 1;
        }
        proof {
            lemma_first_ws(t);
            assert forall|k: int| 0 <= k < end - start implies !is_ws(#[trigger] t[k]) by {
                assert(t[k] == v@[start + k]);
            }
            if end < v@.len() {
                assert(t[end - start] == v@[end as int]);
            }
            if first_ws(t) < end - start {
                assert(t[first_ws(t) as int] == v@[start + first_ws(t)]);
            }
            assert(first_ws(t) == end - start);
            assert(t.take(end - start) =~= v@.subrange(start as int, end as int));
            assert(t.skip(end - start) =~= v@.skip(end as int));
        }
        let word = crate::text::slice_of(v, start, end);
        let ghost before = r@;
        r.push((word, bytes));
        assert(word_views(r@) =~= word_views(before).push(word@));
        pos = end;
    }
}

/// Wrap to a width, because a help screen an agent reads has to fit one.
fn wrap(text: &str, width: usize) -> (r: String)
    ensures
        r@ == wrapped(words(text@), width as nat).0,
{
    let chars = crate::text::chars_of(text);
    let total = chars.len();
    let ws = words_of(&chars);
    let ghost wv = word_views(ws@);
    let mut out = String::new();
    let mut column: u128 = 0;
    let mut i: usize = 0;
    assert(wv.take(0) =~= Seq::<Seq<char>>::empty());
    while i < ws.len()
        invariant
            i <= ws@.len(),
            wv == word_views(ws@),
            forall|k: int| 0 <= k < ws@.len() ==> (#[trigger] ws@[k]).1 == utf8_len(ws@[k].0@),
            forall|k: int| 0 <= k < ws@.len() ==> (#[trigger] ws@[k]).1 <= 4 * total,
            (out@, column as nat) == wrapped(wv.take(i as int), width as nat),
            column <= 5 * total * (i as int) + i,
        decreases ws.len() - i,
    {
        assert(wv.take(i + 1).drop_last() =~= wv.take(i as int));
        assert(wv.take(i + 1).last() == ws@[i as int].0@);
        let word = &ws[i].0;
        let n = ws[i].1;
        assert(n <= 4 * total);
        assert(column + 1 + n <= 5 * total * (i + 1) + i + 1) by (nonlinear_arith)
            requires column <= 5 * total * (i as int) + i, n <= 4 * total, total >= 0, i >= 0;
        if column > 0 && column + 1 + n > width as u128 {
            crate::text::push_char(&mut out, '\n');
            column = 0;
        } else if column > 0 {
            crate::text::push_char(&mut out, ' ');
            column = column + 1;
        }
        crate::text::push_chars(&mut out, word);
        column = column + n;
        i = i + 1;
    }
    assert(wv.take(ws@.len() as int) =~= wv);
    out
}


// ---------------------------------------------------------------------------------------
// Help
// ---------------------------------------------------------------------------------------

/// Lines, each followed by a newline.
pub open spec fn line_block(ls: Seq<Seq<char>>) -> Seq<char>
    decreases ls.len(),
{
    if ls.len() == 0 { seq![] } else { line_block(ls.drop_last()) + ls.last() + "\n"@ }
}

pub open spec fn exit_code_lines(codes: Seq<(Seq<char>, Seq<char>)>, width: nat) -> Seq<char>
    decreases codes.len(),
{
    if codes.len() == 0 {
        seq![]
    } else {
        exit_code_lines(codes.drop_last(), width) + "  "@ + pad_right(codes.last().0, width) + " "@
            + codes.last().1 + "\n"@
    }
}

/// The help for a whole tool: what it is, what it promises, its verbs, and its exit codes.
pub open spec fn help_all_text(tool: Tool) -> Seq<char> {
    tool.name@ + " "@ + tool.version@ + " — "@ + tool.about@ + "\n"@ + tool.promise@ + "\n\n"@
        + line_block(verb_line_pairs(tool.verbs@))
        + "\nExit codes\n"@ + exit_code_lines(exit_code_table(), 6)
        + "\nA `# ` line in the output is metadata: what was read, and what was not.\n"@
        + "Run `at-describe` for the toolkit, `"@ + tool.name@ + " help <verb>` for one verb.\n"@
}

pub fn push_lines(out: &mut String, lines: &Vec<String>)
    ensures
        final(out)@ == old(out)@ + line_block(str_views(lines@)),
{
    let ghost start = out@;
    let ghost ls = str_views(lines@);
    let mut i: usize = 0;
    assert(ls.take(0) =~= Seq::<Seq<char>>::empty());
    assert(start + line_block(ls.take(0)) =~= start);
    while i < lines.len()
        invariant
            i <= lines@.len(),
            ls == str_views(lines@),
            out@ == start + line_block(ls.take(i as int)),
        decreases lines.len() - i,
    {
        assert(ls.take(i + 1).drop_last() =~= ls.take(i as int));
        assert(ls.take(i + 1).last() == lines@[i as int]@);
        out.append(lines[i].as_str());
        out.append("\n");
        assert(out@ =~= start + line_block(ls.take(i + 1)));
        i = i + 1;
    }
    assert(ls.take(lines@.len() as int) =~= ls);
}

pub fn push_exit_codes(out: &mut String, width: usize)
    ensures
        final(out)@ == old(out)@ + exit_code_lines(exit_code_table(), width as nat),
{
    let codes = exit_codes();
    let ghost table = exit_code_table();
    let ghost start = out@;
    let mut i: usize = 0;
    assert(table.take(0) =~= Seq::<(Seq<char>, Seq<char>)>::empty());
    assert(start + exit_code_lines(table.take(0), width as nat) =~= start);
    while i < codes.len()
        invariant
            i <= codes@.len(),
            codes@.map_values(|e: (&'static str, &'static str)| (e.0@, e.1@)) == table,
            table == exit_code_table(),
            out@ == start + exit_code_lines(table.take(i as int), width as nat),
        decreases codes.len() - i,
    {
        assert(table.take(i + 1).drop_last() =~= table.take(i as int));
        assert(table.take(i + 1).last() == (codes@[i as int].0@, codes@[i as int].1@));
        let (code, meaning) = codes[i];
        out.append("  ");
        push_padded_right(out, code, width);
        out.append(" ");
        out.append(meaning);
        out.append("\n");
        assert(out@ =~= start + exit_code_lines(table.take(i + 1), width as nat));
        i = i + 1;
    }
    assert(table.take(codes@.len() as int) =~= table);
}

/// The help for a whole tool.
pub fn help_all(tool: &Tool) -> (r: String)
    ensures
        r@ == help_all_text(*tool),
{
    let mut out = String::from_str(tool.name);
    out.append(" ");
    out.append(tool.version);
    out.append(" — ");
    out.append(tool.about);
    out.append("\n");
    out.append(tool.promise);
    out.append("\n\n");
    push_lines(&mut out, &verb_lines(&tool.verbs));
    out.append("\nExit codes\n");
    push_exit_codes(&mut out, 6);
    out.append("\nA `# ` line in the output is metadata: what was read, and what was not.\n");
    out.append("Run `at-describe` for the toolkit, `");
    out.append(tool.name);
    out.append(" help <verb>` for one verb.\n");
    out
}

/// One flag's line in a verb's help.
pub open spec fn flag_line_text(flag: Flag) -> Seq<char> {
    let head = if flag.takes_value { flag.name@ + " "@ + flag.value@ } else { flag.name@ };
    "  "@ + pad_right(head, 28) + " "@ + flag.one_line@ + "\n"@
}

pub open spec fn flag_lines(flags: Seq<Flag>) -> Seq<char>
    decreases flags.len(),
{
    if flags.len() == 0 { seq![] } else { flag_lines(flags.drop_last()) + flag_line_text(flags.last()) }
}

/// The help for one verb: its question, its usage, its notes wrapped to 76 bytes, and its flags.
pub open spec fn help_for_text(tool: Tool, verb: Verb) -> Seq<char> {
    tool.name@ + " "@ + verb.name@ + "\n\n  "@ + verb.question@ + "\n\n"@
        + "Usage\n  "@ + verb.usage@ + "\n\n"@
        + wrapped(words(verb.notes@), 76).0 + "\n\n"@
        + "Flags\n"@ + flag_lines(verb.flags@)
        + "  "@ + pad_right("-h"@, 28) + " "@ + "Same as --help"@ + "\n"@
}

pub open spec fn flag_view_line(f: FlagView) -> Seq<char> {
    let head = if f.1 { f.0 + " "@ + f.2 } else { f.0 };
    "  "@ + pad_right(head, 28) + " "@ + f.3 + "\n"@
}

pub open spec fn flag_view_lines(fs: Seq<FlagView>) -> Seq<char>
    decreases fs.len(),
{
    if fs.len() == 0 { seq![] } else { flag_view_lines(fs.drop_last()) + flag_view_line(fs.last()) }
}

/// The help for one verb, from the tool's name and the verb as plain text.
pub open spec fn help_for_view_text(tool: Seq<char>, v: VerbView) -> Seq<char> {
    tool + " "@ + v.0 + "\n\n  "@ + v.1 + "\n\n"@
        + "Usage\n  "@ + v.2 + "\n\n"@
        + wrapped(words(v.3), 76).0 + "\n\n"@
        + "Flags\n"@ + flag_view_lines(v.4)
        + "  "@ + pad_right("-h"@, 28) + " "@ + "Same as --help"@ + "\n"@
}

proof fn lemma_flag_lines_view(fs: Seq<Flag>)
    ensures
        flag_lines(fs) == flag_view_lines(flag_views(fs)),
    decreases fs.len(),
{
    if fs.len() > 0 {
        lemma_flag_lines_view(fs.drop_last());
        assert(flag_views(fs).drop_last() =~= flag_views(fs.drop_last()));
    }
}

/// A verb's help reads nothing of the verb but its plain text.
pub proof fn lemma_help_for_view(tool: Tool, verb: Verb)
    ensures
        help_for_text(tool, verb) == help_for_view_text(tool.name@, verb_view(verb)),
{
    lemma_flag_lines_view(verb.flags@);
}

fn flag_line(flag: &Flag) -> (r: String)
    ensures
        r@ == flag_line_text(*flag),
{
    let mut head = String::from_str(flag.name);
    if flag.takes_value {
        head.append(" ");
        head.append(flag.value);
    }
    let mut out = String::from_str("  ");
    push_padded_right(&mut out, head.as_str(), 28);
    out.append(" ");
    out.append(flag.one_line);
    out.append("\n");
    out
}

pub fn help_for(tool: &Tool, verb: &Verb) -> (r: String)
    ensures
        r@ == help_for_text(*tool, *verb),
{
    let mut out = String::from_str(tool.name);
    out.append(" ");
    out.append(verb.name);
    out.append("\n\n  ");
    out.append(verb.question);
    out.append("\n\n");
    out.append("Usage\n  ");
    out.append(verb.usage);
    out.append("\n\n");
    let notes = wrap(verb.notes, 76);
    out.append(notes.as_str());
    out.append("\n\n");
    out.append("Flags\n");
    let ghost start = out@;
    let ghost fs = verb.flags@;
    let mut i: usize = 0;
    assert(fs.take(0) =~= Seq::<Flag>::empty());
    assert(start + flag_lines(fs.take(0)) =~= start);
    while i < verb.flags.len()
        invariant
            i <= verb.flags@.len(),
            fs == verb.flags@,
            out@ == start + flag_lines(fs.take(i as int)),
        decreases verb.flags.len() - i,
    {
        assert(fs.take(i + 1).drop_last() =~= fs.take(i as int));
        let line = flag_line(&verb.flags[i]);
        out.append(line.as_str());
        assert(out@ =~= start + flag_lines(fs.take(i + 1)));
        i = i + 1;
    }
    assert(fs.take(verb.flags@.len() as int) =~= fs);
    out.append("  ");
    push_padded_right(&mut out, "-h", 28);
    out.append(" ");
    out.append("Same as --help");
    out.append("\n");
    out
}

} // verus!
