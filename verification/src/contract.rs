//! The output contract of the inspection toolkit — the invariants that make it cheap to read
//! and safe to allowlist.
//!
//! Every verb answers with a [`Report`] and the [`Exit`] it implies, so "nothing was found" is
//! a fact a caller can branch on rather than an empty success. A line beginning `# ` is
//! metadata: a header naming what was read, a bound saying what was not, or the next question
//! as the command that asks it. Everything else is content.

use vstd::prelude::*;
use vstd::string::StringExecFns;

use crate::text::{
    ends_with_exec, find_exec, starts_with_exec, chars_of, contains, decimal, decimal_text, ends_with, push_chars, slice_of, starts_with,
    string_of,
};

verus! {

/// Lines one invocation may print before it has to announce the cut.
pub const DEFAULT_LIMIT: usize = 200;

/// The ceiling `--limit` cannot raise. A caller can never ask for an unbounded read.
pub const MAX_LIMIT: usize = 2000;

/// Files a walk may consider before it stops and says so.
pub const DEFAULT_MAX_FILES: usize = 20000;

/// The ceiling `--max-files` cannot raise.
pub const MAX_FILES: usize = 200000;

/// Characters a single output line may carry before it is truncated and flagged.
pub const MAX_LINE_WIDTH: usize = 500;

/// Exit codes. `Nothing` and `Refused` are the two an agent needs to distinguish a fact from
/// a guess: "there is nothing there" is not "that failed".
#[derive(Debug, Clone, Copy, PartialEq, Eq, Structural)]
pub enum Exit {
    /// Something was found and printed.
    Results,
    /// Read successfully, nothing to show.
    Nothing,
    /// The command was not one this tool accepts.
    Usage,
    /// The request was fine; the environment could not satisfy it.
    Environment,
    /// The tool declined: a path outside the root, or a secret-shaped path.
    Refused,
}

pub open spec fn exit_number(e: Exit) -> int {
    match e {
        Exit::Results => 0,
        Exit::Nothing => 1,
        Exit::Usage => 2,
        Exit::Environment => 3,
        Exit::Refused => 4,
    }
}

impl Exit {
    /// The process exit code.
    pub fn code(self) -> (r: i32)
        ensures
            r == exit_number(self),
    {
        match self {
            Exit::Results => 0,
            Exit::Nothing => 1,
            Exit::Usage => 2,
            Exit::Environment => 3,
            Exit::Refused => 4,
        }
    }
}

/// A failure that carries the exit code it should produce.
#[derive(Debug)]
pub struct Fail {
    pub exit: Exit,
    pub message: String,
}

impl Fail {
    pub fn usage(message: String) -> (r: Fail)
        ensures
            r.exit == Exit::Usage,
            r.message@ == message@,
    {
        Fail { exit: Exit::Usage, message }
    }

    pub fn environment(message: String) -> (r: Fail)
        ensures
            r.exit == Exit::Environment,
            r.message@ == message@,
    {
        Fail { exit: Exit::Environment, message }
    }

    pub fn refused(message: String) -> (r: Fail)
        ensures
            r.exit == Exit::Refused,
            r.message@ == message@,
    {
        Fail { exit: Exit::Refused, message }
    }
}

/// Output as it will be printed: the lines, and how many of them are content.
pub struct Report {
    lines: Vec<String>,
    content: usize,
}

impl View for Report {
    type V = (Seq<Seq<char>>, nat);

    closed spec fn view(&self) -> (Seq<Seq<char>>, nat) {
        (self.lines@.map_values(|l: String| l@), self.content as nat)
    }
}

/// The lines, each followed by a newline.
pub open spec fn rendered_lines(ls: Seq<Seq<char>>) -> Seq<char>
    decreases ls.len(),
{
    if ls.len() == 0 {
        seq![]
    } else {
        rendered_lines(ls.drop_last()) + ls.last() + seq!['\n']
    }
}

pub open spec fn header_line(tool: Seq<char>, verb: Seq<char>, root: Seq<char>, target: Seq<char>) -> Seq<char> {
    "# "@ + tool + " "@ + verb + " · "@ + root + " · "@ + target
}

pub open spec fn bound_line(line: Seq<char>) -> Seq<char> {
    "# "@ + line
}

pub open spec fn next_line(command: Seq<char>, why: Seq<char>) -> Seq<char> {
    "# next: "@ + command + " · "@ + why
}

/// One call that writes a line to a report, with what it was given.
pub ghost enum ReportCall {
    Header(Seq<char>, Seq<char>, Seq<char>, Seq<char>),
    Content(Seq<char>),
    Note(Seq<char>),
    Bound(Seq<char>),
    Next(Seq<char>, Seq<char>),
}

/// The line a call writes.
pub open spec fn call_line(c: ReportCall) -> Seq<char> {
    match c {
        ReportCall::Header(tool, verb, root, target) => header_line(tool, verb, root, target),
        ReportCall::Content(l) => l,
        ReportCall::Note(l) => l,
        ReportCall::Bound(l) => bound_line(l),
        ReportCall::Next(command, why) => next_line(command, why),
    }
}

/// What a new report holds after `calls`, one by one, as each method's contract says.
pub open spec fn after_calls(calls: Seq<ReportCall>) -> (Seq<Seq<char>>, nat)
    decreases calls.len(),
{
    if calls.len() == 0 {
        (seq![], 0)
    } else {
        let v = after_calls(calls.drop_last());
        match calls.last() {
            ReportCall::Header(tool, verb, root, target) => (v.0.push(header_line(tool, verb, root, target)), v.1),
            ReportCall::Content(l) => (v.0.push(l), v.1 + 1),
            ReportCall::Note(l) => (v.0.push(l), v.1),
            ReportCall::Bound(l) => (v.0.push(bound_line(l)), v.1),
            ReportCall::Next(command, why) => (v.0.push(next_line(command, why)), v.1),
        }
    }
}

/// How many of `calls` are content calls.
pub open spec fn content_calls(calls: Seq<ReportCall>) -> nat
    decreases calls.len(),
{
    if calls.len() == 0 {
        0
    } else {
        content_calls(calls.drop_last()) + if calls.last() is Content { 1nat } else { 0nat }
    }
}

/// Each call's line followed by a newline, in call order.
pub open spec fn rendered_calls(calls: Seq<ReportCall>) -> Seq<char>
    decreases calls.len(),
{
    if calls.len() == 0 {
        seq![]
    } else {
        rendered_calls(calls.drop_last()) + call_line(calls.last()) + seq!['\n']
    }
}

/// A report made by a sequence of header, content, note, bound and next calls on a new report
/// counts exactly its content calls, and renders every call's line, in call order, each
/// followed by a newline.
pub proof fn law_report_renders_its_calls_in_order(calls: Seq<ReportCall>)
    ensures
        after_calls(calls).0 == calls.map_values(|c: ReportCall| call_line(c)),
        after_calls(calls).1 == content_calls(calls),
        rendered_lines(after_calls(calls).0) == rendered_calls(calls),
    decreases calls.len(),
{
    if calls.len() > 0 {
        law_report_renders_its_calls_in_order(calls.drop_last());
        assert(calls.map_values(|c: ReportCall| call_line(c)) =~= calls.drop_last().map_values(|c: ReportCall| call_line(c)).push(call_line(calls.last())));
        let ls = after_calls(calls).0;
        assert(ls.drop_last() =~= after_calls(calls.drop_last()).0);
    } else {
        assert(calls.map_values(|c: ReportCall| call_line(c)) =~= Seq::<Seq<char>>::empty());
    }
}

impl Report {
    pub fn new() -> (r: Report)
        ensures
            r@ == (Seq::<Seq<char>>::empty(), 0nat),
            r@ == after_calls(seq![]),
    {
        let r = Report { lines: Vec::new(), content: 0 };
        assert(r@.0 =~= Seq::<Seq<char>>::empty());
        r
    }

    fn push_line(&mut self, line: String)
        ensures
            final(self)@ == (old(self)@.0.push(line@), old(self)@.1),
    {
        let ghost before = self.lines@;
        self.lines.push(line);
        assert(self.lines@.map_values(|l: String| l@) =~= before.map_values(|l: String| l@).push(line@));
    }

    /// `# at-peek slice · root · target` — names the tool, the verb, the root and what was read.
    pub fn header(&mut self, tool: &str, verb: &str, root: &str, target: &str)
        ensures
            final(self)@ == (old(self)@.0.push(header_line(tool@, verb@, root@, target@)), old(self)@.1),
            forall|calls: Seq<ReportCall>| old(self)@ == #[trigger] after_calls(calls)
                ==> final(self)@ == after_calls(calls.push(ReportCall::Header(tool@, verb@, root@, target@))),
    {
        let mut line = String::from_str("# ");
        line.append(tool);
        line.append(" ");
        line.append(verb);
        line.append(" · ");
        line.append(root);
        line.append(" · ");
        line.append(target);
        self.push_line(line);
        proof {
            assert forall|calls: Seq<ReportCall>| old(self)@ == #[trigger] after_calls(calls)
                implies self@ == after_calls(calls.push(ReportCall::Header(tool@, verb@, root@, target@))) by {
                assert(calls.push(ReportCall::Header(tool@, verb@, root@, target@)).drop_last() =~= calls);
            }
        }
    }

    /// A line of the answer.
    pub fn content(&mut self, line: String)
        requires
            old(self)@.1 < usize::MAX,
        ensures
            final(self)@ == (old(self)@.0.push(line@), old(self)@.1 + 1),
            forall|calls: Seq<ReportCall>| old(self)@ == #[trigger] after_calls(calls)
                ==> final(self)@ == after_calls(calls.push(ReportCall::Content(line@))),
    {
        let ghost lv = line@;
        self.push_line(line);
        self.content = self.content + 1;
        proof {
            assert forall|calls: Seq<ReportCall>| old(self)@ == #[trigger] after_calls(calls)
                implies self@ == after_calls(calls.push(ReportCall::Content(lv))) by {
                assert(calls.push(ReportCall::Content(lv)).drop_last() =~= calls);
            }
        }
    }

    /// A line that is neither content nor metadata.
    pub fn note(&mut self, line: String)
        ensures
            final(self)@ == (old(self)@.0.push(line@), old(self)@.1),
            forall|calls: Seq<ReportCall>| old(self)@ == #[trigger] after_calls(calls)
                ==> final(self)@ == after_calls(calls.push(ReportCall::Note(line@))),
    {
        let ghost lv = line@;
        self.push_line(line);
        proof {
            assert forall|calls: Seq<ReportCall>| old(self)@ == #[trigger] after_calls(calls)
                implies self@ == after_calls(calls.push(ReportCall::Note(lv))) by {
                assert(calls.push(ReportCall::Note(lv)).drop_last() =~= calls);
            }
        }
    }

    /// A bound or a caveat. Prefixed so a reader can separate it from content, and never
    /// optional: every output that was cut, clamped or widened says so through here.
    pub fn bound(&mut self, line: String)
        ensures
            final(self)@ == (old(self)@.0.push(bound_line(line@)), old(self)@.1),
            forall|calls: Seq<ReportCall>| old(self)@ == #[trigger] after_calls(calls)
                ==> final(self)@ == after_calls(calls.push(ReportCall::Bound(line@))),
    {
        let mut out = String::from_str("# ");
        out.append(line.as_str());
        self.push_line(out);
        proof {
            assert forall|calls: Seq<ReportCall>| old(self)@ == #[trigger] after_calls(calls)
                implies self@ == after_calls(calls.push(ReportCall::Bound(line@))) by {
                assert(calls.push(ReportCall::Bound(line@)).drop_last() =~= calls);
            }
        }
    }

    /// The next question, printed as the command that asks it: not content, not a bound.
    pub fn next(&mut self, command: String, why: String)
        ensures
            final(self)@ == (old(self)@.0.push(next_line(command@, why@)), old(self)@.1),
            forall|calls: Seq<ReportCall>| old(self)@ == #[trigger] after_calls(calls)
                ==> final(self)@ == after_calls(calls.push(ReportCall::Next(command@, why@))),
    {
        let mut out = String::from_str("# next: ");
        out.append(command.as_str());
        out.append(" · ");
        out.append(why.as_str());
        self.push_line(out);
        proof {
            assert forall|calls: Seq<ReportCall>| old(self)@ == #[trigger] after_calls(calls)
                implies self@ == after_calls(calls.push(ReportCall::Next(command@, why@))) by {
                assert(calls.push(ReportCall::Next(command@, why@)).drop_last() =~= calls);
            }
        }
    }

    /// How many content lines were produced. Zero means "nothing found", which is an exit
    /// code rather than an empty success.
    pub fn content_lines(&self) -> (r: usize)
        ensures
            r == self@.1,
    {
        self.content
    }

    /// The report as printed: every line, each followed by a newline.
    pub fn render(&self) -> (r: String)
        ensures
            r@ == rendered_lines(self@.0),
    {
        let ghost ls = self@.0;
        let mut out = String::new();
        let mut i: usize = 0;
        assert(ls.take(0) =~= Seq::<Seq<char>>::empty());
        while i < self.lines.len()
            invariant
                i <= self.lines@.len(),
                ls == self.lines@.map_values(|l: String| l@),
                out@ == rendered_lines(ls.take(i as int)),
            decreases self.lines.len() - i,
        {
            assert(ls.take(i + 1).drop_last() =~= ls.take(i as int));
            assert(ls.take(i + 1).last() == self.lines@[i as int]@);
            out.append(self.lines[i].as_str());
            out.append("\n");
            proof {
                reveal_strlit("\n");
            }
            i = i + 1;
        }
        assert(ls.take(self.lines@.len() as int) =~= ls);
        out
    }
}

/// A verb's answer, and the exit code it implies.
pub struct Outcome {
    pub report: Report,
    pub exit: Exit,
}

impl Outcome {
    /// Exit 0 when something was printed, 1 when the read succeeded and found nothing.
    pub fn from_report(report: Report) -> (r: Outcome)
        ensures
            r.report@ == report@,
            r.exit == (if report@.1 > 0 { Exit::Results } else { Exit::Nothing }),
    {
        let exit = if report.content_lines() > 0 { Exit::Results } else { Exit::Nothing };
        Outcome { report, exit }
    }

    /// For a verb whose answer is its frame, because the body was withheld on request.
    pub fn from_frame(report: Report) -> (r: Outcome)
        ensures
            r.report@ == report@,
            r.exit == Exit::Results,
    {
        Outcome { report, exit: Exit::Results }
    }
}

/// A count and its noun: `1 path`, `3 paths`.
pub open spec fn counted(count: nat, singular: Seq<char>, plural: Seq<char>) -> Seq<char> {
    if count == 1 {
        "1 "@ + singular
    } else {
        decimal(count) + " "@ + plural
    }
}

/// `1 path` / `3 paths`, because "1 path(s)" reads like a tool that is not sure.
pub fn plural(count: usize, noun: &str) -> (r: String)
    ensures
        r@ == counted(count as nat, noun@, noun@ + "s"@),
{
    let mut s = String::from_str(noun);
    s.append("s");
    plural_of(count, noun, s.as_str())
}

/// The same, for a noun whose plural is not `+s`.
pub fn plural_of(count: usize, singular: &str, plural: &str) -> (r: String)
    ensures
        r@ == counted(count as nat, singular@, plural@),
{
    if count == 1 {
        let mut s = String::from_str("1 ");
        s.append(singular);
        s
    } else {
        let mut s = decimal_text(count as u64);
        s.append(" ");
        s.append(plural);
        s
    }
}


// ---------------------------------------------------------------------------------------
// The deny-list
// ---------------------------------------------------------------------------------------

/// A character's ASCII lowercase form; every other character is itself.
pub open spec fn lower_char(c: char) -> char {
    if 'A' <= c && c <= 'Z' { ((c as int) + 32) as char } else { c }
}

/// The text with its ASCII letters in lower case. For the words the deny-list looks for this
/// finds exactly what full Unicode lowercasing finds: no other character lowercases to one of
/// their letters next to a letter of theirs.
pub open spec fn ascii_lower(s: Seq<char>) -> Seq<char> {
    s.map_values(|c: char| lower_char(c))
}

/// The rule a file name matches, if it is secret-shaped.
pub open spec fn secret_rule(name: Seq<char>) -> Option<Seq<char>> {
    if name == ".env.example"@ || name == ".env.sample"@ || name == ".env.template"@ {
        None
    } else if name == ".env"@ || name == ".netrc"@ || name == ".git-credentials"@ {
        Some("a secret-shaped name"@)
    } else if starts_with(name, "id_rsa"@) || starts_with(name, "id_ed25519"@)
        || starts_with(name, "id_ecdsa"@) || starts_with(name, "id_dsa"@) {
        Some("a private-key name"@)
    } else if ends_with(name, ".pem"@) {
        Some(".pem"@)
    } else if ends_with(name, ".key"@) {
        Some(".key"@)
    } else if ends_with(name, ".p12"@) {
        Some(".p12"@)
    } else if ends_with(name, ".pfx"@) {
        Some(".pfx"@)
    } else if starts_with(name, ".env."@) {
        Some("a dotenv file that is not a template"@)
    } else if crate::text::find(ascii_lower(name), "secret"@) is Some {
        Some("a name containing `secret`"@)
    } else if crate::text::find(ascii_lower(name), "credential"@) is Some {
        Some("a name containing `credential`"@)
    } else {
        None
    }
}

fn lower_exec(c: char) -> (r: char)
    ensures
        r == lower_char(c),
{
    if 'A' <= c && c <= 'Z' {
        let code: u8 = (c as u32 + 32) as u8;
        code as char
    } else {
        c
    }
}

pub fn lowered(v: &[char]) -> (r: Vec<char>)
    ensures
        r@ == ascii_lower(v@),
{
    let mut r: Vec<char> = Vec::new();
    let mut i: usize = 0;
    while i < v.len()
        invariant
            i <= v@.len(),
            r@ == ascii_lower(v@.take(i as int)),
        decreases v.len() - i,
    {
        r.push(lower_exec(v[i]));
        i = i + 1;
        assert(r@ =~= ascii_lower(v@.take(i as int)));
    }
    assert(v@.take(v@.len() as int) =~= v@);
    r
}

fn is(v: &[char], text: &str) -> (r: bool)
    ensures
        r == (v@ == text@),
{
    crate::text::eq_chars(v, &chars_of(text))
}

/// Whether a file name is secret-shaped, and which rule matched.
///
/// This is a guard rail, not a boundary: it stops an accidental `slice .env` and an accidental
/// sweep over a key file, and `--include-secret-paths` reads one anyway. A committed template
/// — `.env.example` — is deliberately not secret-shaped.
pub fn secret_shaped(file_name: &str) -> (r: Option<&'static str>)
    ensures
        match r {
            Some(rule) => secret_rule(file_name@) == Some(rule@),
            None => secret_rule(file_name@) is None,
        },
{
    let v = chars_of(file_name);
    if is(&v, ".env.example") || is(&v, ".env.sample") || is(&v, ".env.template") {
        return None;
    }
    if is(&v, ".env") || is(&v, ".netrc") || is(&v, ".git-credentials") {
        return Some("a secret-shaped name");
    }
    if starts_with_exec(&v, &chars_of("id_rsa")) || starts_with_exec(&v, &chars_of("id_ed25519"))
        || starts_with_exec(&v, &chars_of("id_ecdsa")) || starts_with_exec(&v, &chars_of("id_dsa")) {
        return Some("a private-key name");
    }
    if ends_with_exec(&v, &chars_of(".pem")) {
        return Some(".pem");
    }
    if ends_with_exec(&v, &chars_of(".key")) {
        return Some(".key");
    }
    if ends_with_exec(&v, &chars_of(".p12")) {
        return Some(".p12");
    }
    if ends_with_exec(&v, &chars_of(".pfx")) {
        return Some(".pfx");
    }
    if starts_with_exec(&v, &chars_of(".env.")) {
        return Some("a dotenv file that is not a template");
    }
    let lower = lowered(&v);
    if find_exec(&lower, &chars_of("secret")).is_some() {
        return Some("a name containing `secret`");
    }
    if find_exec(&lower, &chars_of("credential")).is_some() {
        return Some("a name containing `credential`");
    }
    None
}

// ---------------------------------------------------------------------------------------
// Width
// ---------------------------------------------------------------------------------------

/// A line cut at the width cap, with the cut announced, and whether it was cut.
pub open spec fn truncated(line: Seq<char>) -> (Seq<char>, bool) {
    if line.len() > MAX_LINE_WIDTH {
        (line.take(MAX_LINE_WIDTH as int) + " ...(+"@ + decimal((line.len() - MAX_LINE_WIDTH) as nat)
            + " characters)"@, true)
    } else {
        (line, false)
    }
}

/// Cut a line at the width cap and say so, rather than silently shortening it.
pub fn truncate(line: &str) -> (r: (String, bool))
    ensures
        (r.0@, r.1) == truncated(line@),
{
    truncate_chars(&chars_of(line))
}

pub(crate) fn truncate_chars(v: &[char]) -> (r: (String, bool))
    ensures
        (r.0@, r.1) == truncated(v@),
{
    if v.len() > MAX_LINE_WIDTH {
        let mut out = string_of(&slice_of(v, 0, MAX_LINE_WIDTH));
        assert(v@.subrange(0, MAX_LINE_WIDTH as int) =~= v@.take(MAX_LINE_WIDTH as int));
        out.append(" ...(+");
        let extra = decimal_text((v.len() - MAX_LINE_WIDTH) as u64);
        out.append(extra.as_str());
        out.append(" characters)");
        (out, true)
    } else {
        (string_of(v), false)
    }
}

// ---------------------------------------------------------------------------------------
// Time
// ---------------------------------------------------------------------------------------

/// Days since the Unix epoch to a civil date, `(year, month, day)`: Howard Hinnant's
/// `civil_from_days`, for a day on or after the epoch.
pub open spec fn civil_from_days(days: int) -> (int, int, int) {
    let z = days + 719468;
    let era = z / 146097;
    let doe = z - era * 146097;
    let yoe = (doe - doe / 1460 + doe / 36524 - doe / 146096) / 365;
    let y = yoe + era * 400;
    let doy = doe - (365 * yoe + yoe / 4 - yoe / 100);
    let mp = (5 * doy + 2) / 153;
    let d = doy - (153 * mp + 2) / 5 + 1;
    let m = if mp < 10 { mp + 3 } else { mp - 9 };
    (if m <= 2 { y + 1 } else { y }, m, d)
}

/// A number written with at least `width` digits, zero-padded: `{n:0width$}`.
pub open spec fn padded(n: nat, width: nat) -> Seq<char>
    decreases width,
{
    if decimal(n).len() >= width {
        decimal(n)
    } else {
        seq!['0'] + padded(n, (width - 1) as nat)
    }
}

/// `YYYY-MM-DDTHH:MM:SSZ` for a time `secs` seconds after the epoch.
pub open spec fn iso8601(secs: nat) -> Seq<char> {
    let (y, m, d) = civil_from_days((secs / 86400) as int);
    let rem = secs % 86400;
    padded(y as nat, 4) + "-"@ + padded(m as nat, 2) + "-"@ + padded(d as nat, 2) + "T"@
        + padded(rem / 3600, 2) + ":"@ + padded((rem % 3600) / 60, 2) + ":"@ + padded(rem % 60, 2) + "Z"@
}

proof fn lemma_civil_ranges(days: int)
    requires
        0 <= days,
    ensures
        civil_from_days(days).0 >= 0,
        1 <= civil_from_days(days).1 <= 12,
        1 <= civil_from_days(days).2 <= 31,
{
    let z = days + 719468;
    let era = z / 146097;
    let doe = z - era * 146097;
    assert(0 <= doe < 146097) by (nonlinear_arith)
        requires z >= 0, era == z / 146097, doe == z - era * 146097;
    assert(era >= 0) by (nonlinear_arith)
        requires z >= 0, era == z / 146097;
    let yoe = (doe - doe / 1460 + doe / 36524 - doe / 146096) / 365;
    assert(0 <= yoe <= 399);
    let doy = doe - (365 * yoe + yoe / 4 - yoe / 100);
    assert(0 <= doy <= 365);
    let mp = (5 * doy + 2) / 153;
    assert(0 <= mp <= 11);
    let d = doy - (153 * mp + 2) / 5 + 1;
    assert(1 <= d <= 31);
}

fn push_padded(out: &mut String, n: u64, width: usize)
    ensures
        final(out)@ == old(out)@ + padded(n as nat, width as nat),
    decreases width,
{
    let digits = decimal_text(n);
    if digits.as_str().unicode_len() >= width {
        out.append(digits.as_str());
    } else {
        out.append("0");
        proof {
            reveal_strlit("0");
        }
        let ghost mid = out@;
        push_padded(out, n, width - 1);
        assert(out@ =~= old(out)@ + padded(n as nat, width as nat));
    }
}

/// UTC, ISO-8601, seconds resolution, for a time `secs` seconds after the Unix epoch; the
/// caller reads a time before the epoch as the epoch itself.
pub fn iso8601_utc(secs: u64) -> (r: String)
    ensures
        r@ == iso8601(secs as nat),
{
    let days: u64 = secs / 86400;
    let rem: u64 = secs % 86400;
    proof {
        lemma_civil_ranges(days as int);
    }
    let z: u64 = days + 719468;
    let era: u64 = z / 146097;
    let doe: u64 = z - era * 146097;
    let yoe: u64 = (doe - doe / 1460 + doe / 36524 - doe / 146096) / 365;
    let y: u64 = yoe + era * 400;
    let doy: u64 = doe - (365 * yoe + yoe / 4 - yoe / 100);
    let mp: u64 = (5 * doy + 2) / 153;
    let d: u64 = doy - (153 * mp + 2) / 5 + 1;
    let m: u64 = if mp < 10 { mp + 3 } else { mp - 9 };
    let year: u64 = if m <= 2 { y + 1 } else { y };
    let mut out = String::new();
    push_padded(&mut out, year, 4);
    out.append("-");
    push_padded(&mut out, m, 2);
    out.append("-");
    push_padded(&mut out, d, 2);
    out.append("T");
    push_padded(&mut out, rem / 3600, 2);
    out.append(":");
    push_padded(&mut out, (rem % 3600) / 60, 2);
    out.append(":");
    push_padded(&mut out, rem % 60, 2);
    out.append("Z");
    out
}


// ---------------------------------------------------------------------------------------
// Quoting an exit's arguments
// ---------------------------------------------------------------------------------------

/// A character a shell word may hold without quotes.
pub open spec fn shell_plain(c: char) -> bool {
    ('a' <= c && c <= 'z') || ('A' <= c && c <= 'Z') || ('0' <= c && c <= '9')
        || c == '.' || c == '_' || c == '/' || c == '-' || c == '~' || c == '=' || c == ':'
        || c == ',' || c == '+' || c == '^' || c == '@' || c == '{' || c == '}' || c == '('
        || c == ')' || c == '[' || c == ']'
}

/// The text with each `'` replaced by `'\''`: close the quote, an escaped quote, reopen.
pub open spec fn quote_escaped(s: Seq<char>) -> Seq<char>
    decreases s.len(),
{
    if s.len() == 0 {
        seq![]
    } else {
        quote_escaped(s.drop_last()) + if s.last() == '\'' { seq!['\'', '\\', '\'', '\''] } else { seq![s.last()] }
    }
}

/// A part of a command as a person would type it: bare when a shell needs no quotes for it,
/// else in single quotes.
pub open spec fn quoted_text(part: Seq<char>) -> Seq<char> {
    if forall|i: int| 0 <= i < part.len() ==> shell_plain(#[trigger] part[i]) {
        part
    } else {
        seq!['\''] + quote_escaped(part) + seq!['\'']
    }
}

/// How a POSIX shell reads one word: single quotes hold everything up to the next single quote,
/// and outside them a backslash takes the next character literally.
pub open spec fn shell_read(w: Seq<char>, in_quote: bool) -> Seq<char>
    decreases w.len(),
{
    if w.len() == 0 {
        seq![]
    } else if in_quote {
        if w[0] == '\'' { shell_read(w.drop_first(), false) } else { seq![w[0]] + shell_read(w.drop_first(), true) }
    } else if w[0] == '\'' {
        shell_read(w.drop_first(), true)
    } else if w[0] == '\\' && w.len() > 1 {
        seq![w[1]] + shell_read(w.skip(2), false)
    } else {
        seq![w[0]] + shell_read(w.drop_first(), false)
    }
}

proof fn lemma_read_plain(s: Seq<char>)
    requires
        forall|i: int| 0 <= i < s.len() ==> shell_plain(#[trigger] s[i]),
    ensures
        shell_read(s, false) == s,
    decreases s.len(),
{
    if s.len() > 0 {
        assert(shell_plain(s[0]));
        lemma_read_plain(s.drop_first());
        assert(seq![s[0]] + s.drop_first() =~= s);
    }
}

proof fn lemma_read_escaped(s: Seq<char>, rest: Seq<char>)
    ensures
        shell_read(quote_escaped(s) + rest, true) == s + shell_read(rest, true),
    decreases s.len(),
{
    if s.len() == 0 {
        assert(quote_escaped(s) + rest =~= rest);
        assert(s + shell_read(rest, true) =~= shell_read(rest, true));
    } else {
        let c = s.last();
        let piece: Seq<char> = if c == '\'' { seq!['\'', '\\', '\'', '\''] } else { seq![c] };
        lemma_read_escaped(s.drop_last(), piece + rest);
        assert(quote_escaped(s) + rest =~= quote_escaped(s.drop_last()) + (piece + rest));
        if c == '\'' {
            let w = piece + rest;
            let a = w.drop_first();
            assert(a =~= seq!['\\', '\'', '\''] + rest);
            assert(w[0] == '\'');
            assert(shell_read(w, true) == shell_read(a, false));
            assert(a[0] == '\\' && a.len() > 1 && a[1] == '\'');
            assert(shell_read(a, false) == seq![a[1]] + shell_read(a.skip(2), false));
            let b = a.skip(2);
            assert(b =~= seq!['\''] + rest);
            assert(b[0] == '\'');
            assert(shell_read(b, false) == shell_read(b.drop_first(), true));
            assert(b.drop_first() =~= rest);
            assert(shell_read(w, true) == seq!['\''] + shell_read(rest, true));
        } else {
            assert((piece + rest).drop_first() =~= rest);
        }
        assert(s.drop_last() + (seq![c] + shell_read(rest, true)) =~= s + shell_read(rest, true));
    }
}

/// The exits run exactly as printed: a shell reads a quoted part back as the part itself,
/// quotes and all.
pub proof fn law_a_quoted_part_reads_back(part: Seq<char>)
    ensures
        shell_read(quoted_text(part), false) == part,
{
    if forall|i: int| 0 <= i < part.len() ==> shell_plain(#[trigger] part[i]) {
        lemma_read_plain(part);
    } else {
        let q = quoted_text(part);
        assert(q =~= seq!['\''] + quote_escaped(part) + seq!['\'']);
        assert(q[0] == '\'');
        assert(q.drop_first() =~= quote_escaped(part) + seq!['\'']);
        assert(shell_read(q, false) == shell_read(q.drop_first(), true));
        lemma_read_escaped(part, seq!['\'']);
        let e = seq!['\''];
        assert(e[0] == '\'');
        assert(e.drop_first() =~= Seq::<char>::empty());
        assert(shell_read(e, true) == shell_read(e.drop_first(), false));
        assert(shell_read(Seq::<char>::empty(), false) == Seq::<char>::empty());
        assert(part + Seq::<char>::empty() =~= part);
    }
}

fn shell_plain_char(c: char) -> (r: bool)
    ensures
        r == shell_plain(c),
{
    ('a' <= c && c <= 'z') || ('A' <= c && c <= 'Z') || ('0' <= c && c <= '9')
        || c == '.' || c == '_' || c == '/' || c == '-' || c == '~' || c == '=' || c == ':'
        || c == ',' || c == '+' || c == '^' || c == '@' || c == '{' || c == '}' || c == '('
        || c == ')' || c == '[' || c == ']'
}

/// Single quotes when a shell would need them, and only then: an exit should read like the
/// command a person would type, not like a serialised argument list.
pub fn quoted(part: &str) -> (r: String)
    ensures
        r@ == quoted_text(part@),
{
    let v = crate::text::chars_of(part);
    let mut plain = true;
    let mut i: usize = 0;
    while i < v.len()
        invariant
            i <= v@.len(),
            plain == forall|k: int| 0 <= k < i ==> shell_plain(#[trigger] v@[k]),
        decreases v.len() - i,
    {
        if !shell_plain_char(v[i]) {
            plain = false;
        }
        i = i + 1;
    }
    if plain {
        return String::from_str(part);
    }
    let mut out = String::from_str("'");
    proof {
        reveal_strlit("'");
    }
    let ghost first = out@;
    let mut k: usize = 0;
    assert(v@.take(0) =~= Seq::<char>::empty());
    while k < v.len()
        invariant
            k <= v@.len(),
            first == seq!['\''],
            out@ == first + quote_escaped(v@.take(k as int)),
        decreases v.len() - k,
    {
        assert(v@.take(k + 1).drop_last() =~= v@.take(k as int));
        if v[k] == '\'' {
            crate::text::push_char(&mut out, '\'');
            crate::text::push_char(&mut out, '\\');
            crate::text::push_char(&mut out, '\'');
            crate::text::push_char(&mut out, '\'');
        } else {
            crate::text::push_char(&mut out, v[k]);
        }
        assert(out@ =~= first + quote_escaped(v@.take(k + 1)));
        k = k + 1;
    }
    assert(v@.take(v@.len() as int) =~= v@);
    crate::text::push_char(&mut out, '\'');
    out
}

} // verus!
