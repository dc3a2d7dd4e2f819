//! `at-peek stat` — how big is it, and when did it change.
//!
//! The verb for "did the write land". A binary file is reported as binary rather than
//! counted, because a line count for one is a number that means nothing.

use vstd::prelude::*;
use vstd::string::StringExecFns;

use crate::catalogue::{pad_left, pad_right, push_padded_left, push_padded_right};
use crate::contract::{bound_line, counted, header_line, iso8601, iso8601_utc, next_line, plural, Outcome, Report, MAX_LIMIT};
use crate::peek::paths::last_index;
use crate::peek::paths::last_index_of;
use crate::peek::verbs::{again, again_text, Opened, Opts};
use crate::peek::verbs::slice::clamp_bounds;
use crate::text::{chars_of, decimal, decimal_text, eq_chars, lines, slice_of, str_views};

verus! {

/// The part of a path after its last `.`, or the whole path when it has none.
pub open spec fn extension(path: Seq<char>) -> Seq<char> {
    match last_index(path, '.') {
        Some(k) => path.skip(k + 1),
        None => path,
    }
}

/// Language from the extension. A mapping, not a claim about the file's contents: an unknown
/// extension is `-` rather than a guess.
pub open spec fn language_of(ext: Seq<char>) -> Seq<char> {
    if ext == "rs"@ { "rust"@ }
    else if ext == "toml"@ { "toml"@ }
    else if ext == "md"@ { "markdown"@ }
    else if ext == "sh"@ || ext == "bash"@ { "shell"@ }
    else if ext == "json"@ { "json"@ }
    else if ext == "yaml"@ || ext == "yml"@ { "yaml"@ }
    else if ext == "nix"@ { "nix"@ }
    else if ext == "py"@ { "python"@ }
    else if ext == "ts"@ || ext == "tsx"@ { "typescript"@ }
    else if ext == "js"@ || ext == "jsx"@ { "javascript"@ }
    else if ext == "html"@ { "html"@ }
    else if ext == "css"@ { "css"@ }
    else if ext == "sql"@ { "sql"@ }
    else if ext == "lock"@ { "lock"@ }
    else if ext == "conf"@ || ext == "cfg"@ || ext == "ini"@ { "config"@ }
    else if ext == "txt"@ { "text"@ }
    else { "-"@ }
}

proof fn lemma_extension_after_last_dot(stem: Seq<char>, ext: Seq<char>)
    requires
        !ext.contains('.'),
    ensures
        last_index(stem.push('.') + ext, '.') == Some(stem.len() as int),
    decreases ext.len(),
{
    let s = stem.push('.') + ext;
    if ext.len() > 0 {
        assert(s.last() == ext.last());
        assert(!ext.drop_last().contains('.')) by {
            if ext.drop_last().contains('.') {
                let i = choose|i: int| 0 <= i < ext.drop_last().len() && ext.drop_last()[i] == '.';
                assert(ext[i] == '.');
            }
        }
        lemma_extension_after_last_dot(stem, ext.drop_last());
        assert(s.drop_last() =~= stem.push('.') + ext.drop_last());
    } else {
        assert(s =~= stem.push('.'));
    }
}

/// A path's language is named by the text after its last `.`, and by nothing before it: each
/// extension of the table names its language (`py` is python, `rs` is rust, ...), and an
/// extension outside the table is `-`.
pub proof fn law_language_follows_the_extension(stem: Seq<char>, ext: Seq<char>)
    requires
        !ext.contains('.'),
    ensures
        extension(stem.push('.') + ext) == ext,
        ext == "rs"@ ==> language_of(ext) == "rust"@,
        ext == "toml"@ ==> language_of(ext) == "toml"@,
        ext == "md"@ ==> language_of(ext) == "markdown"@,
        ext == "sh"@ ==> language_of(ext) == "shell"@,
        ext == "bash"@ ==> language_of(ext) == "shell"@,
        ext == "json"@ ==> language_of(ext) == "json"@,
        ext == "yaml"@ ==> language_of(ext) == "yaml"@,
        ext == "yml"@ ==> language_of(ext) == "yaml"@,
        ext == "nix"@ ==> language_of(ext) == "nix"@,
        ext == "py"@ ==> language_of(ext) == "python"@,
        ext == "ts"@ ==> language_of(ext) == "typescript"@,
        ext == "tsx"@ ==> language_of(ext) == "typescript"@,
        ext == "js"@ ==> language_of(ext) == "javascript"@,
        ext == "jsx"@ ==> language_of(ext) == "javascript"@,
        ext == "html"@ ==> language_of(ext) == "html"@,
        ext == "css"@ ==> language_of(ext) == "css"@,
        ext == "sql"@ ==> language_of(ext) == "sql"@,
        ext == "lock"@ ==> language_of(ext) == "lock"@,
        ext == "conf"@ ==> language_of(ext) == "config"@,
        ext == "cfg"@ ==> language_of(ext) == "config"@,
        ext == "ini"@ ==> language_of(ext) == "config"@,
        ext == "txt"@ ==> language_of(ext) == "text"@,
        (ext != "rs"@ && ext != "toml"@ && ext != "md"@ && ext != "sh"@ && ext != "bash"@ && ext != "json"@ && ext != "yaml"@ && ext != "yml"@ && ext != "nix"@ && ext != "py"@ && ext != "ts"@ && ext != "tsx"@ && ext != "js"@ && ext != "jsx"@ && ext != "html"@ && ext != "css"@ && ext != "sql"@ && ext != "lock"@ && ext != "conf"@ && ext != "cfg"@ && ext != "ini"@ && ext != "txt"@) ==> language_of(ext) == "-"@,
{
    reveal_strlit("rs");
    reveal_strlit("toml");
    reveal_strlit("md");
    reveal_strlit("sh");
    reveal_strlit("bash");
    reveal_strlit("json");
    reveal_strlit("yaml");
    reveal_strlit("yml");
    reveal_strlit("nix");
    reveal_strlit("py");
    reveal_strlit("ts");
    reveal_strlit("tsx");
    reveal_strlit("js");
    reveal_strlit("jsx");
    reveal_strlit("html");
    reveal_strlit("css");
    reveal_strlit("sql");
    reveal_strlit("lock");
    reveal_strlit("conf");
    reveal_strlit("cfg");
    reveal_strlit("ini");
    reveal_strlit("txt");
    lemma_extension_after_last_dot(stem, ext);
    assert((stem.push('.') + ext).skip(stem.len() + 1int) =~= ext);
    assert(ext == "rs"@ ==> language_of(ext) == "rust"@) by {
        if ext == "rs"@ {
            assert(ext.len() == 2 && ext[0] == 'r' && ext[1] == 's');
        }
    }
    assert(ext == "toml"@ ==> language_of(ext) == "toml"@) by {
        if ext == "toml"@ {
            assert(ext.len() == 4 && ext[0] == 't' && ext[1] == 'o' && ext[2] == 'm' && ext[3] == 'l');
        }
    }
    assert(ext == "md"@ ==> language_of(ext) == "markdown"@) by {
        if ext == "md"@ {
            assert(ext.len() == 2 && ext[0] == 'm' && ext[1] == 'd');
        }
    }
    assert(ext == "sh"@ ==> language_of(ext) == "shell"@) by {
        if ext == "sh"@ {
            assert(ext.len() == 2 && ext[0] == 's' && ext[1] == 'h');
        }
    }
    assert(ext == "bash"@ ==> language_of(ext) == "shell"@) by {
        if ext == "bash"@ {
            assert(ext.len() == 4 && ext[0] == 'b' && ext[1] == 'a' && ext[2] == 's' && ext[3] == 'h');
        }
    }
    assert(ext == "json"@ ==> language_of(ext) == "json"@) by {
        if ext == "json"@ {
            assert(ext.len() == 4 && ext[0] == 'j' && ext[1] == 's' && ext[2] == 'o' && ext[3] == 'n');
        }
    }
    assert(ext == "yaml"@ ==> language_of(ext) == "yaml"@) by {
        if ext == "yaml"@ {
            assert(ext.len() == 4 && ext[0] == 'y' && ext[1] == 'a' && ext[2] == 'm' && ext[3] == 'l');
        }
    }
    assert(ext == "yml"@ ==> language_of(ext) == "yaml"@) by {
        if ext == "yml"@ {
            assert(ext.len() == 3 && ext[0] == 'y' && ext[1] == 'm' && ext[2] == 'l');
        }
    }
    assert(ext == "nix"@ ==> language_of(ext) == "nix"@) by {
        if ext == "nix"@ {
            assert(ext.len() == 3 && ext[0] == 'n' && ext[1] == 'i' && ext[2] == 'x');
        }
    }
    assert(ext == "py"@ ==> language_of(ext) == "python"@) by {
        if ext == "py"@ {
            assert(ext.len() == 2 && ext[0] == 'p' && ext[1] == 'y');
        }
    }
    assert(ext == "ts"@ ==> language_of(ext) == "typescript"@) by {
        if ext == "ts"@ {
            assert(ext.len() == 2 && ext[0] == 't' && ext[1] == 's');
        }
    }
    assert(ext == "tsx"@ ==> language_of(ext) == "typescript"@) by {
        if ext == "tsx"@ {
            assert(ext.len() == 3 && ext[0] == 't' && ext[1] == 's' && ext[2] == 'x');
        }
    }
    assert(ext == "js"@ ==> language_of(ext) == "javascript"@) by {
        if ext == "js"@ {
            assert(ext.len() == 2 && ext[0] == 'j' && ext[1] == 's');
        }
    }
    assert(ext == "jsx"@ ==> language_of(ext) == "javascript"@) by {
        if ext == "jsx"@ {
            assert(ext.len() == 3 && ext[0] == 'j' && ext[1] == 's' && ext[2] == 'x');
        }
    }
    assert(ext == "html"@ ==> language_of(ext) == "html"@) by {
        if ext == "html"@ {
            assert(ext.len() == 4 && ext[0] == 'h' && ext[1] == 't' && ext[2] == 'm' && ext[3] == 'l');
        }
    }
    assert(ext == "css"@ ==> language_of(ext) == "css"@) by {
        if ext == "css"@ {
            assert(ext.len() == 3 && ext[0] == 'c' && ext[1] == 's' && ext[2] == 's');
        }
    }
    assert(ext == "sql"@ ==> language_of(ext) == "sql"@) by {
        if ext == "sql"@ {
            assert(ext.len() == 3 && ext[0] == 's' && ext[1] == 'q' && ext[2] == 'l');
        }
    }
    assert(ext == "lock"@ ==> language_of(ext) == "lock"@) by {
        if ext == "lock"@ {
            assert(ext.len() == 4 && ext[0] == 'l' && ext[1] == 'o' && ext[2] == 'c' && ext[3] == 'k');
        }
    }
    assert(ext == "conf"@ ==> language_of(ext) == "config"@) by {
        if ext == "conf"@ {
            assert(ext.len() == 4 && ext[0] == 'c' && ext[1] == 'o' && ext[2] == 'n' && ext[3] == 'f');
        }
    }
    assert(ext == "cfg"@ ==> language_of(ext) == "config"@) by {
        if ext == "cfg"@ {
            assert(ext.len() == 3 && ext[0] == 'c' && ext[1] == 'f' && ext[2] == 'g');
        }
    }
    assert(ext == "ini"@ ==> language_of(ext) == "config"@) by {
        if ext == "ini"@ {
            assert(ext.len() == 3 && ext[0] == 'i' && ext[1] == 'n' && ext[2] == 'i');
        }
    }
    assert(ext == "txt"@ ==> language_of(ext) == "text"@) by {
        if ext == "txt"@ {
            assert(ext.len() == 3 && ext[0] == 't' && ext[1] == 'x' && ext[2] == 't');
        }
    }

}

fn is(ext: &Vec<char>, word: &str) -> (r: bool)
    ensures
        r == (ext@ == word@),
{
    eq_chars(ext, &chars_of(word))
}

/// The language a path's extension names, or `-`.
pub fn language(path: &str) -> (r: &'static str)
    ensures
        r@ == language_of(extension(path@)),
{
    let v = chars_of(path);
    let n = v.len();
    let ext = match last_index_of(&v, '.') {
        Some(k) => slice_of(&v, k + 1, n),
        None => v,
    };
    proof {
        assert(ext@ == extension(path@));
    }
    if is(&ext, "rs") { "rust" }
    else if is(&ext, "toml") { "toml" }
    else if is(&ext, "md") { "markdown" }
    else if is(&ext, "sh") || is(&ext, "bash") { "shell" }
    else if is(&ext, "json") { "json" }
    else if is(&ext, "yaml") || is(&ext, "yml") { "yaml" }
    else if is(&ext, "nix") { "nix" }
    else if is(&ext, "py") { "python" }
    else if is(&ext, "ts") || is(&ext, "tsx") { "typescript" }
    else if is(&ext, "js") || is(&ext, "jsx") { "javascript" }
    else if is(&ext, "html") { "html" }
    else if is(&ext, "css") { "css" }
    else if is(&ext, "sql") { "sql" }
    else if is(&ext, "lock") { "lock" }
    else if is(&ext, "conf") || is(&ext, "cfg") || is(&ext, "ini") { "config" }
    else if is(&ext, "txt") { "text" }
    else { "-" }
}

/// One row of the table, each column as text.
pub struct Row {
    pub rel: String,
    pub lines: String,
    pub bytes: String,
    pub kind: String,
    pub modified: String,
}

/// A row as plain text: path, lines, bytes, kind, modified.
pub type RowView = (Seq<char>, Seq<char>, Seq<char>, Seq<char>, Seq<char>);

pub open spec fn row_view(r: Row) -> RowView {
    (r.rel@, r.lines@, r.bytes@, r.kind@, r.modified@)
}

pub open spec fn row_views(rows: Seq<Row>) -> Seq<RowView> {
    rows.map_values(|r: Row| row_view(r))
}

/// The row an opened file gets.
pub open spec fn row_of(o: Opened) -> RowView {
    let (count, kind) = match o.binary {
        Some(_) => ("-"@, "binary"@),
        None => (decimal(lines(o.text@).len()), language_of(extension(o.rel@))),
    };
    (o.rel@, count, decimal(o.len as nat) + " B"@, kind,
        match o.modified { Some(secs) => iso8601(secs as nat), None => "-"@ })
}

pub open spec fn rows_of(os: Seq<Opened>) -> Seq<RowView> {
    os.map_values(|o: Opened| row_of(o))
}

/// The row for one opened file.
pub fn row(o: &Opened) -> (r: Row)
    ensures
        row_view(r) == row_of(*o),
{
    let (count, kind) = match o.binary {
        Some(_) => (String::from_str("-"), String::from_str("binary")),
        None => (decimal_text(o.lines() as u64), String::from_str(language(o.rel.as_str()))),
    };
    let mut bytes = decimal_text(o.len);
    bytes.append(" B");
    let modified = match o.modified {
        Some(secs) => iso8601_utc(secs),
        None => String::from_str("-"),
    };
    Row { rel: o.rel.clone(), lines: count, bytes, kind, modified }
}

/// What `str::len` counts: UTF-8 bytes.
pub open spec fn byte_len(s: Seq<char>) -> nat {
    (vstd::utf8::encode_utf8(s).len() as usize) as nat
}

pub open spec fn max(a: nat, b: nat) -> nat {
    if a >= b { a } else { b }
}

/// Column widths, computed from the rows so the output is as narrow as the data allows and
/// identical for identical input.
pub struct Widths {
    pub rel: usize,
    pub lines: usize,
    pub bytes: usize,
    pub kind: usize,
}

pub open spec fn widths_of(rows: Seq<RowView>) -> (nat, nat, nat, nat)
    decreases rows.len(),
{
    if rows.len() == 0 {
        (0, 1, 0, 4)
    } else {
        let w = widths_of(rows.drop_last());
        let r = rows.last();
        (max(w.0, byte_len(r.0)), max(w.1, byte_len(r.1)), max(w.2, byte_len(r.2)), max(w.3, byte_len(r.3)))
    }
}

/// A row laid out in the widths.
pub open spec fn row_text(w: (nat, nat, nat, nat), r: RowView) -> Seq<char> {
    pad_right(r.0, w.0) + "  "@ + pad_left(r.1, w.1) + " lines  "@ + pad_left(r.2, w.2) + "  "@
        + pad_right(r.3, w.3) + "  "@ + r.4
}

pub open spec fn row_texts(w: (nat, nat, nat, nat), rows: Seq<RowView>) -> Seq<Seq<char>>
    decreases rows.len(),
{
    if rows.len() == 0 {
        seq![]
    } else {
        row_texts(w, rows.drop_last()).push(row_text(w, rows.last()))
    }
}

pub fn wider(a: usize, b: usize) -> (r: usize)
    ensures
        r as nat == max(a as nat, b as nat),
{
    if a >= b { a } else { b }
}

impl Widths {
    pub open spec fn view_of(&self) -> (nat, nat, nat, nat) {
        (self.rel as nat, self.lines as nat, self.bytes as nat, self.kind as nat)
    }

    pub fn of(rows: &Vec<Row>) -> (r: Widths)
        ensures
            r.view_of() == widths_of(row_views(rows@)),
    {
        let ghost rv = row_views(rows@);
        let mut width = Widths { rel: 0, lines: 1, bytes: 0, kind: 4 };
        let mut i: usize = 0;
        assert(rv.take(0) =~= Seq::<RowView>::empty());
        while i < rows.len()
            invariant
                i <= rows@.len(),
                rv == row_views(rows@),
                width.view_of() == widths_of(rv.take(i as int)),
            decreases rows.len() - i,
        {
            assert(rv.take(i + 1).drop_last() =~= rv.take(i as int));
            assert(rv.take(i + 1).last() == row_view(rows@[i as int]));
            let row = &rows[i];
            width.rel = wider(width.rel, row.rel.as_str().len());
            width.lines = wider(width.lines, row.lines.as_str().len());
            width.bytes = wider(width.bytes, row.bytes.as_str().len());
            width.kind = wider(width.kind, row.kind.as_str().len());
            i = i + 1;
        }
        assert(rv.take(rows@.len() as int) =~= rv);
        width
    }

    /// The row laid out in these widths.
    pub fn row(&self, row: &Row) -> (r: String)
        ensures
            r@ == row_text(self.view_of(), row_view(*row)),
    {
        let mut out = String::new();
        push_padded_right(&mut out, row.rel.as_str(), self.rel);
        out.append("  ");
        push_padded_left(&mut out, row.lines.as_str(), self.lines);
        out.append(" lines  ");
        push_padded_left(&mut out, row.bytes.as_str(), self.bytes);
        out.append("  ");
        push_padded_right(&mut out, row.kind.as_str(), self.kind);
        out.append("  ");
        out.append(row.modified.as_str());
        out
    }
}

/// The line that says how many paths were shown.
pub open spec fn shown_bound(shown: nat, total: nat, limit: nat) -> Seq<char> {
    if shown == total {
        bound_line(counted(total, "path"@, "path"@ + "s"@))
    } else {
        bound_line(decimal(shown) + " of "@ + counted(total, "path"@, "path"@ + "s"@) + " · --limit "@ + decimal(limit))
    }
}

/// The exit that widens the answer, when the limit cut it.
pub open spec fn stat_next(shown: nat, targets: Seq<Seq<char>>) -> Seq<Seq<char>> {
    let total = targets.len();
    if shown < total {
        let wide = if total <= MAX_LIMIT { total } else { MAX_LIMIT as nat };
        seq![next_line(again_text("stat"@, targets, seq!["--limit "@ + decimal(wide)]),
            "all "@ + counted(total, "path"@, "path"@ + "s"@))]
    } else {
        seq![]
    }
}

/// The whole answer, from the files the program opened: the first `--limit` of the targets.
pub open spec fn stat_lines(os: Seq<Opened>, targets: Seq<Seq<char>>, root: Seq<char>, limit: nat, clamped: Option<usize>) -> Seq<Seq<char>> {
    let rows = rows_of(os);
    clamp_bounds(clamped)
        + seq![header_line(crate::peek::TOOL@, "stat"@, root, counted(targets.len(), "path"@, "path"@ + "s"@))]
        + row_texts(widths_of(rows), rows)
        + seq![shown_bound(os.len(), targets.len(), limit)]
        + stat_next(os.len(), targets)
}

/// `at-peek stat`: one row per opened file, then how many of the targets were shown.
pub fn run(opened: &Vec<Opened>, targets: &Vec<String>, opts: &Opts) -> (r: Outcome)
    requires
        opened@.len() == (if targets@.len() <= opts.limit { targets@.len() } else { opts.limit as nat }),
    ensures
        r.report@.0 == stat_lines(opened@, str_views(targets@), opts.root.name_view(), opts.limit as nat, opts.limit_clamped_from),
        r.report@.1 == opened@.len(),
{
    let mut report = Report::new();
    crate::peek::verbs::slice::clamp_bound(&mut report, opts.limit_clamped_from);
    let ghost l0 = report@.0;
    report.header(crate::peek::TOOL, "stat", opts.root.name(), plural(targets.len(), "path").as_str());
    let ghost l1 = report@.0;
    let mut rows: Vec<Row> = Vec::new();
    let mut i: usize = 0;
    while i < opened.len()
        invariant
            i <= opened@.len(),
            rows@.len() == i,
            row_views(rows@) == rows_of(opened@.take(i as int)),
        decreases opened.len() - i,
    {
        let r = row(&opened[i]);
        let ghost before = rows@;
        rows.push(r);
        assert forall|j: int| 0 <= j < i + 1 implies row_view(#[trigger] rows@[j]) == row_of(opened@.take(i + 1)[j]) by {
            if j < i {
                assert(row_view(before[j]) == row_views(before)[j]);
                assert(row_of(opened@.take(i as int)[j]) == rows_of(opened@.take(i as int))[j]);
            }
        }
        assert(row_views(rows@) =~= rows_of(opened@.take(i + 1)));
        i = i + 1;
    }
    assert(opened@.take(opened@.len() as int) =~= opened@);
    let width = Widths::of(&rows);
    let ghost w = width.view_of();
    let ghost rv = row_views(rows@);
    let mut k: usize = 0;
    assert(rv.take(0) =~= Seq::<RowView>::empty());
    while k < rows.len()
        invariant
            k <= rows@.len(),
            rows@.len() == opened@.len(),
            rv == row_views(rows@),
            w == width.view_of(),
            report@.0 == l1 + row_texts(w, rv.take(k as int)),
            report@.1 == k,
        decreases rows.len() - k,
    {
        assert(rv.take(k + 1).drop_last() =~= rv.take(k as int));
        assert(rv.take(k + 1).last() == row_view(rows@[k as int]));
        report.content(width.row(&rows[k]));
        assert(report@.0 =~= l1 + row_texts(w, rv.take(k + 1)));
        k = k + 1;
    }
    assert(rv.take(rows@.len() as int) =~= rv);
    let shown = opened.len();
    let total = targets.len();
    let ghost l2 = report@.0;
    if shown == total {
        report.bound(plural(total, "path"));
    } else {
        let mut m = decimal_text(shown as u64);
        m.append(" of ");
        m.append(plural(total, "path").as_str());
        m.append(" · --limit ");
        m.append(decimal_text(opts.limit as u64).as_str());
        report.bound(m);
    }
    let ghost l3 = report@.0;
    if shown < total {
        let wide = if total <= MAX_LIMIT { total } else { MAX_LIMIT };
        let mut flag = String::from_str("--limit ");
        flag.append(decimal_text(wide as u64).as_str());
        let flags = vec![flag];
        let command = again("stat", targets, &flags);
        let mut why = String::from_str("all ");
        why.append(plural(total, "path").as_str());
        proof {
            assert(str_views(flags@) =~= seq!["--limit "@ + decimal(wide as nat)]);
        }
        report.next(command, why);
        assert(report@.0 =~= l3 + stat_next(shown as nat, str_views(targets@)));
    } else {
        assert(report@.0 =~= l3 + stat_next(shown as nat, str_views(targets@)));
    }
    assert(report@.0 =~= stat_lines(opened@, str_views(targets@), opts.root.name_view(), opts.limit as nat, opts.limit_clamped_from));
    Outcome::from_report(report)
}

} // verus!
