//! The verbs.
//!
//! Each returns an [`Outcome`] — a report and the exit code it implies — so that "nothing
//! found" is a fact the caller can branch on rather than an empty success. Any target that
//! fails fails the whole invocation: a partial result that looks complete is the failure this
//! toolkit exists to remove.

use vstd::prelude::*;
use vstd::string::StringExecFns;

use crate::contract::{quoted, quoted_text, secret_rule, secret_shaped, Exit, Fail};
use crate::peek::paths::{Range, Root, Target};
use crate::text::{lines, str_views};

pub mod search;
pub mod slice;
pub mod stat;

verus! {

/// What a verb needs that is not its own arguments.
pub struct Opts {
    pub root: Root,
    pub limit: usize,
    /// Set when the caller asked for more than the ceiling, so the clamp can be announced
    /// rather than silently applied.
    pub limit_clamped_from: Option<usize>,
    /// Files a walk may consider before it stops and says so.
    pub max_files: usize,
    pub max_files_clamped_from: Option<usize>,
    pub include_secret_paths: bool,
}

/// A target that resolved, survived the deny-list, and read as text.
pub struct Opened {
    pub target: Target,
    /// Relative to the root, forward slashes — the form a transcript can cite.
    pub rel: String,
    pub text: String,
    pub len: u64,
    /// Seconds since the Unix epoch, when the file system reported a time.
    pub modified: Option<u64>,
    /// Byte offset of the first NUL, when the file is not line-addressable.
    pub binary: Option<usize>,
}

impl Opened {
    /// Lines as a reader counts them: a trailing newline does not add one.
    pub fn lines(&self) -> (r: usize)
        ensures
            r == lines(self.text@).len(),
    {
        let ls = crate::text::lines_of(&crate::text::chars_of(self.text.as_str()));
        proof {
            assert(crate::text::views(ls@).len() == ls@.len());
        }
        ls.len()
    }
}

/// What reading a file produced. A binary or non-UTF-8 file is a fact about the file rather
/// than a failure.
pub enum Content {
    Text(String),
    Binary(usize),
    NotUtf8(usize),
}

/// How far into a file a NUL byte is looked for: past this, a file is read as text.
pub const BINARY_PROBE: usize = 8192;

/// Where the first NUL byte is, if any.
pub open spec fn first_zero(s: Seq<u8>) -> Option<nat>
    decreases s.len(),
{
    if s.len() == 0 {
        None
    } else if s[0] == 0 {
        Some(0)
    } else {
        match first_zero(s.drop_first()) {
            Some(k) => Some(k + 1),
            None => None,
        }
    }
}

/// The length of the longest prefix of `bytes` that is valid UTF-8 is `n`.
pub open spec fn valid_up_to(bytes: Seq<u8>, n: nat) -> bool {
    &&& n <= bytes.len()
    &&& vstd::utf8::valid_utf8(bytes.take(n as int))
    &&& forall|m: int| n < m <= bytes.len() ==> !vstd::utf8::valid_utf8(#[trigger] bytes.take(m))
}

/// `String::from_utf8`: the text when the bytes are valid UTF-8, else how far they were.
#[verifier::external_body]
fn utf8_string(bytes: Vec<u8>) -> (r: Result<String, usize>)
    ensures
        match r {
            Ok(t) => vstd::utf8::valid_utf8(bytes@) && t@ == vstd::utf8::decode_utf8(bytes@),
            Err(n) => !vstd::utf8::valid_utf8(bytes@) && valid_up_to(bytes@, n as nat),
        },
{
    match String::from_utf8(bytes) {
        Ok(text) => Ok(text),
        Err(e) => Err(e.utf8_error().valid_up_to()),
    }
}

/// What a file's bytes are: binary when a NUL byte sits within the first [`BINARY_PROBE`] of
/// them, else text when they are UTF-8, else where the UTF-8 stops.
pub fn classify(bytes: Vec<u8>) -> (r: Content)
    ensures
        match first_zero(bytes@.take(if bytes@.len() < BINARY_PROBE { bytes@.len() as int } else { BINARY_PROBE as int })) {
            Some(k) => r == Content::Binary(k as usize),
            None => if vstd::utf8::valid_utf8(bytes@) {
                r matches Content::Text(t) && t@ == vstd::utf8::decode_utf8(bytes@)
            } else {
                r matches Content::NotUtf8(n) && valid_up_to(bytes@, n as nat)
            },
        },
{
    let end = if bytes.len() < BINARY_PROBE { bytes.len() } else { BINARY_PROBE };
    let ghost head = bytes@.take(end as int);
    let mut i: usize = 0;
    assert(head.skip(0) =~= head);
    while i < end
        invariant
            i <= end,
            end <= bytes@.len(),
            head == bytes@.take(end as int),
            end as int == if bytes@.len() < BINARY_PROBE { bytes@.len() as int } else { BINARY_PROBE as int },
            first_zero(head) == match first_zero(head.skip(i as int)) { Some(k) => Some((k + i) as nat), None => None::<nat> },
        decreases end - i,
    {
        assert(head.skip(i as int)[0] == bytes@[i as int]);
        if bytes[i] == 0 {
            assert(first_zero(head.skip(i as int)) == Some(0nat));
            return Content::Binary(i);
        }
        assert(head.skip(i as int).drop_first() =~= head.skip(i + 1));
        i = i + 1;
    }
    assert(head.skip(end as int).len() == 0);
    match utf8_string(bytes) {
        Ok(text) => Content::Text(text),
        Err(n) => Content::NotUtf8(n),
    }
}

/// Refuse a secret-shaped file unless the caller asked for it by flag.
pub fn refuse_secret(rel: &str, file_name: &str, include_secret_paths: bool) -> (r: Result<(), Fail>)
    ensures
        match r {
            Ok(()) => include_secret_paths || secret_rule(file_name@) is None,
            Err(f) => !include_secret_paths && f.exit == Exit::Refused && (secret_rule(file_name@) matches Some(rule)
                && f.message@ == rel@ + " is refused: "@ + rule + " · --include-secret-paths reads it anyway"@),
        },
{
    if !include_secret_paths {
        if let Some(rule) = secret_shaped(file_name) {
            let mut m = crate::load::text3(rel, " is refused: ", rule);
            m.append(" · --include-secret-paths reads it anyway");
            return Err(Fail::refused(m));
        }
    }
    Ok(())
}

/// A target the program resolved, found inside the root and not refused, from what it found
/// there: whether it is a directory, its size and time, and what reading it produced.
pub fn open(target: Target, rel: String, is_dir: bool, len: u64, modified: Option<u64>, content: Content) -> (r: Result<Opened, Fail>)
    ensures
        match r {
            Ok(o) => !is_dir && o.rel@ == rel@ && o.target.path@ == target.path@ && o.target.range == target.range
                && o.len == len && o.modified == modified && match content {
                    Content::Text(t) => o.text@ == t@ && o.binary is None,
                    Content::Binary(offset) => o.text@.len() == 0 && o.binary == Some(offset),
                    Content::NotUtf8(_) => false,
                },
            Err(f) => f.exit == Exit::Environment && (is_dir && f.message@ == rel@ + " is a directory, not a file"@
                || (!is_dir && (content matches Content::NotUtf8(offset) && f.message@ == rel@ + " is not UTF-8 text (first bad byte at offset "@
                    + crate::text::decimal(offset as nat) + ")"@))),
        },
{
    if is_dir {
        let mut m = String::from_str(rel.as_str());
        m.append(" is a directory, not a file");
        return Err(Fail::environment(m));
    }
    match content {
        Content::Text(text) => Ok(Opened { target, rel, text, len, modified, binary: None }),
        Content::Binary(offset) => Ok(Opened { target, rel, text: String::new(), len, modified, binary: Some(offset) }),
        Content::NotUtf8(offset) => {
            let mut m = String::from_str(rel.as_str());
            m.append(" is not UTF-8 text (first bad byte at offset ");
            m.append(crate::text::decimal_text(offset as u64).as_str());
            m.append(")");
            Err(Fail::environment(m))
        },
    }
}

/// The parts, each after a space.
pub open spec fn spaced(parts: Seq<Seq<char>>) -> Seq<char>
    decreases parts.len(),
{
    if parts.len() == 0 {
        seq![]
    } else {
        spaced(parts.drop_last()) + seq![' '] + parts.last()
    }
}

/// The parts, each after a space and quoted as a shell needs it.
pub open spec fn spaced_quoted(parts: Seq<Seq<char>>) -> Seq<char>
    decreases parts.len(),
{
    if parts.len() == 0 {
        seq![]
    } else {
        spaced_quoted(parts.drop_last()) + seq![' '] + quoted_text(parts.last())
    }
}

/// The command `again` builds.
pub open spec fn again_text(verb: Seq<char>, targets: Seq<Seq<char>>, flags: Seq<Seq<char>>) -> Seq<char> {
    crate::peek::TOOL@ + seq![' '] + verb + spaced_quoted(targets) + spaced(flags)
}

/// The caller's own invocation, asked again with flags added: rebuilt from the parts the
/// caller supplied, so an exit cannot describe a command the parser would refuse.
pub fn again(verb: &str, targets: &Vec<String>, flags: &Vec<String>) -> (r: String)
    ensures
        r@ == again_text(verb@, str_views(targets@), str_views(flags@)),
{
    let mut out = String::from_str(crate::peek::TOOL);
    crate::text::push_char(&mut out, ' ');
    out.append(verb);
    let ghost head = out@;
    let mut i: usize = 0;
    assert(str_views(targets@).take(0) =~= Seq::<Seq<char>>::empty());
    while i < targets.len()
        invariant
            i <= targets@.len(),
            out@ == head + spaced_quoted(str_views(targets@).take(i as int)),
        decreases targets.len() - i,
    {
        assert(str_views(targets@).take(i + 1).drop_last() =~= str_views(targets@).take(i as int));
        crate::text::push_char(&mut out, ' ');
        out.append(quoted(targets[i].as_str()).as_str());
        assert(out@ =~= head + spaced_quoted(str_views(targets@).take(i + 1)));
        i = i + 1;
    }
    assert(str_views(targets@).take(targets@.len() as int) =~= str_views(targets@));
    let ghost mid = out@;
    let mut j: usize = 0;
    assert(str_views(flags@).take(0) =~= Seq::<Seq<char>>::empty());
    while j < flags.len()
        invariant
            j <= flags@.len(),
            out@ == mid + spaced(str_views(flags@).take(j as int)),
        decreases flags.len() - j,
    {
        assert(str_views(flags@).take(j + 1).drop_last() =~= str_views(flags@).take(j as int));
        crate::text::push_char(&mut out, ' ');
        out.append(flags[j].as_str());
        assert(out@ =~= mid + spaced(str_views(flags@).take(j + 1)));
        j = j + 1;
    }
    assert(str_views(flags@).take(flags@.len() as int) =~= str_views(flags@));
    out
}

} // verus!
