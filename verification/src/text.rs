//! Text as sequences of characters: the vocabulary every parser in this crate is
//! specified in, and the executable operations that implement it.

use vstd::prelude::*;
use vstd::relations::{sorted_by, total_ordering};

verus! {

broadcast use vstd::string::group_string_axioms;

// ---------------------------------------------------------------------------------------
// Specifications
// ---------------------------------------------------------------------------------------

/// Unicode `White_Space`, the set `char::is_whitespace` and `str::trim` use.
pub open spec fn is_ws(c: char) -> bool {
    ||| c == '\t' || c == '\n' || c == '\u{0B}' || c == '\u{0C}' || c == '\r' || c == ' '
    ||| c == '\u{85}' || c == '\u{A0}' || c == '\u{1680}'
    ||| ('\u{2000}' <= c && c <= '\u{200A}')
    ||| c == '\u{2028}' || c == '\u{2029}' || c == '\u{202F}' || c == '\u{205F}'
    ||| c == '\u{3000}'
}

/// `s` with its leading whitespace removed.
pub open spec fn trim_start(s: Seq<char>) -> Seq<char>
    decreases s.len(),
{
    if s.len() > 0 && is_ws(s[0]) {
        trim_start(s.drop_first())
    } else {
        s
    }
}

/// `s` with its trailing whitespace removed.
pub open spec fn trim_end(s: Seq<char>) -> Seq<char>
    decreases s.len(),
{
    if s.len() > 0 && is_ws(s.last()) {
        trim_end(s.drop_last())
    } else {
        s
    }
}

pub open spec fn trim(s: Seq<char>) -> Seq<char> {
    trim_end(trim_start(s))
}

pub open spec fn starts_with(s: Seq<char>, p: Seq<char>) -> bool {
    p.len() <= s.len() && s.take(p.len() as int) == p
}

pub open spec fn ends_with(s: Seq<char>, p: Seq<char>) -> bool {
    p.len() <= s.len() && s.skip(s.len() - p.len()) == p
}

/// `p` occurs in `s` at `i`.
pub open spec fn occurs_at(s: Seq<char>, p: Seq<char>, i: int) -> bool {
    0 <= i && i + p.len() <= s.len() && s.subrange(i, i + p.len()) == p
}

pub open spec fn contains(s: Seq<char>, p: Seq<char>) -> bool {
    exists|i: int| occurs_at(s, p, i)
}

/// The first position at which `p` occurs in `s`, if any: `str::find`.
pub open spec fn find(s: Seq<char>, p: Seq<char>) -> Option<int>
    decreases s.len(),
{
    if p.len() > s.len() {
        None
    } else if s.take(p.len() as int) == p {
        Some(0)
    } else if s.len() == 0 {
        None
    } else {
        match find(s.drop_first(), p) {
            Some(i) => Some(i + 1),
            None => None,
        }
    }
}

/// The position of the first `c` in `s`, or `s.len()` when there is none.
pub open spec fn index_of(s: Seq<char>, c: char) -> nat
    decreases s.len(),
{
    if s.len() == 0 {
        0
    } else if s[0] == c {
        0
    } else {
        1 + index_of(s.drop_first(), c)
    }
}

/// `str::split_once`: the text before and after the first occurrence of `p`.
pub open spec fn split_once(s: Seq<char>, p: Seq<char>) -> Option<(Seq<char>, Seq<char>)> {
    match find(s, p) {
        Some(i) => Some((s.take(i), s.skip(i + p.len()))),
        None => None,
    }
}

/// The line `str::lines` yields for a piece that ended in a newline: one `\r` is dropped.
pub open spec fn strip_cr(s: Seq<char>) -> Seq<char> {
    if s.len() > 0 && s.last() == '\r' {
        s.drop_last()
    } else {
        s
    }
}

/// `str::split_inclusive('\n')`: the pieces of `s`, each keeping its newline.
pub open spec fn pieces(s: Seq<char>) -> Seq<Seq<char>>
    decreases s.len(),
{
    let i = index_of(s, '\n') as int;
    if s.len() == 0 {
        seq![]
    } else if i < s.len() {
        seq![s.take(i + 1)] + pieces(s.skip(i + 1))
    } else {
        seq![s]
    }
}

/// `str::lines`: the pieces of `s`, each without its newline and the `\r` before it.
pub open spec fn lines(s: Seq<char>) -> Seq<Seq<char>>
    decreases s.len(),
{
    let i = index_of(s, '\n') as int;
    if s.len() == 0 {
        seq![]
    } else if i < s.len() {
        seq![strip_cr(s.take(i))] + lines(s.skip(i + 1))
    } else {
        seq![s]
    }
}

/// `str::split(c)`: the pieces between occurrences of `c`; there is always at least one.
pub open spec fn split_on(s: Seq<char>, c: char) -> Seq<Seq<char>>
    decreases s.len(),
{
    let i = index_of(s, c) as int;
    if i < s.len() {
        seq![s.take(i)] + split_on(s.skip(i + 1), c)
    } else {
        seq![s]
    }
}

pub open spec fn digit(d: int) -> char {
    if d == 0 { '0' }
    else if d == 1 { '1' }
    else if d == 2 { '2' }
    else if d == 3 { '3' }
    else if d == 4 { '4' }
    else if d == 5 { '5' }
    else if d == 6 { '6' }
    else if d == 7 { '7' }
    else if d == 8 { '8' }
    else { '9' }
}

/// A number in decimal, as `Display` writes it.
pub open spec fn decimal(n: nat) -> Seq<char>
    decreases n,
{
    if n < 10 {
        seq![digit(n as int)]
    } else {
        decimal(n / 10) + seq![digit((n % 10) as int)]
    }
}

/// The concatenation of a sequence of texts.
pub open spec fn concat(parts: Seq<Seq<char>>) -> Seq<char>
    decreases parts.len(),
{
    if parts.len() == 0 {
        seq![]
    } else {
        concat(parts.drop_last()) + parts.last()
    }
}

/// The texts of `parts` with `sep` between each pair: `[T]::join`.
pub open spec fn join(parts: Seq<Seq<char>>, sep: Seq<char>) -> Seq<char>
    decreases parts.len(),
{
    if parts.len() == 0 {
        seq![]
    } else if parts.len() == 1 {
        parts[0]
    } else {
        join(parts.drop_last(), sep) + sep + parts.last()
    }
}

/// The texts behind a sequence of character vectors.
pub open spec fn views(v: Seq<Vec<char>>) -> Seq<Seq<char>> {
    v.map_values(|x: Vec<char>| x@)
}

/// The texts behind a sequence of strings.
pub open spec fn str_views(v: Seq<String>) -> Seq<Seq<char>> {
    v.map_values(|x: String| x@)
}

/// The order `String` sorts by: lexicographic over characters.
pub open spec fn lex_lt(a: Seq<char>, b: Seq<char>) -> bool
    decreases a.len(),
{
    if a.len() == 0 {
        b.len() > 0
    } else if b.len() == 0 {
        false
    } else if a[0] == b[0] {
        lex_lt(a.drop_first(), b.drop_first())
    } else {
        (a[0] as int) < (b[0] as int)
    }
}

/// The order `String` sorts by, as a total order: `a` is not after `b`.
pub open spec fn lex_le(a: Seq<char>, b: Seq<char>) -> bool {
    !lex_lt(b, a)
}

/// A decimal digit.
pub open spec fn is_digit(c: char) -> bool {
    '0' <= c && c <= '9'
}

pub open spec fn all_digits(s: Seq<char>) -> bool {
    forall|i: int| 0 <= i < s.len() ==> is_digit(#[trigger] s[i])
}

/// The number a run of decimal digits spells.
pub open spec fn digits_value(s: Seq<char>) -> nat
    decreases s.len(),
{
    if s.len() == 0 {
        0
    } else {
        digits_value(s.drop_last()) * 10 + ((s.last() as int) - ('0' as int)) as nat
    }
}

/// What an unsigned integer's `from_str` reads: an optional `+`, then one or more digits.
pub open spec fn unsigned_of(s: Seq<char>) -> Option<nat> {
    let d = if s.len() > 0 && s[0] == '+' { s.drop_first() } else { s };
    if d.len() > 0 && all_digits(d) {
        Some(digits_value(d))
    } else {
        None
    }
}

/// What a signed integer's `from_str` reads: an optional `+` or `-`, then one or more digits.
pub open spec fn signed_of(s: Seq<char>) -> Option<int> {
    if s.len() > 0 && s[0] == '-' {
        let d = s.drop_first();
        if d.len() > 0 && all_digits(d) {
            Some(-(digits_value(d) as int))
        } else {
            None
        }
    } else {
        match unsigned_of(s) {
            Some(n) => Some(n as int),
            None => None,
        }
    }
}

// ---------------------------------------------------------------------------------------
// Lemmas
// ---------------------------------------------------------------------------------------

pub proof fn lemma_concat_append(a: Seq<Seq<char>>, b: Seq<Seq<char>>)
    ensures
        concat(a + b) == concat(a) + concat(b),
    decreases b.len(),
{
    if b.len() == 0 {
        assert(a + b =~= a);
        assert(concat(a) + concat(b) =~= concat(a));
    } else {
        lemma_concat_append(a, b.drop_last());
        assert((a + b).drop_last() =~= a + b.drop_last());
        assert(concat(a + b) =~= concat(a) + concat(b));
    }
}

pub proof fn lemma_concat_single(x: Seq<char>)
    ensures
        concat(seq![x]) == x,
{
    assert(seq![x].drop_last() =~= Seq::<Seq<char>>::empty());
    assert(concat(Seq::<Seq<char>>::empty()) =~= Seq::<char>::empty());
    assert(concat(seq![x]) =~= x);
}

pub proof fn lemma_concat_pieces(s: Seq<char>)
    ensures
        concat(pieces(s)) == s,
    decreases s.len(),
{
    let i = index_of(s, '\n') as int;
    lemma_index_of(s, '\n');
    if s.len() == 0 {
    } else if i < s.len() {
        lemma_concat_pieces(s.skip(i + 1));
        lemma_concat_append(seq![s.take(i + 1)], pieces(s.skip(i + 1)));
        lemma_concat_single(s.take(i + 1));
        assert(s.take(i + 1) + s.skip(i + 1) =~= s);
    } else {
        lemma_concat_single(s);
    }
}

pub proof fn lemma_index_of(s: Seq<char>, c: char)
    ensures
        index_of(s, c) <= s.len(),
        forall|j: int| 0 <= j < index_of(s, c) ==> s[j] != c,
        index_of(s, c) < s.len() ==> s[index_of(s, c) as int] == c,
    decreases s.len(),
{
    if s.len() > 0 && s[0] != c {
        lemma_index_of(s.drop_first(), c);
        assert forall|j: int| 0 <= j < index_of(s, c) implies s[j] != c by {
            if j > 0 {
                assert(s[j] == s.drop_first()[j - 1]);
            }
        }
    }
}

pub proof fn lemma_lex_irreflexive(a: Seq<char>)
    ensures
        !lex_lt(a, a),
    decreases a.len(),
{
    if a.len() > 0 {
        lemma_lex_irreflexive(a.drop_first());
    }
}

pub proof fn lemma_lex_total(a: Seq<char>, b: Seq<char>)
    ensures
        a == b || lex_lt(a, b) || lex_lt(b, a),
        !(lex_lt(a, b) && lex_lt(b, a)),
    decreases a.len(),
{
    if a.len() > 0 && b.len() > 0 {
        lemma_lex_total(a.drop_first(), b.drop_first());
        if a[0] == b[0] && a.drop_first() == b.drop_first() {
            assert(a =~= seq![a[0]] + a.drop_first());
            assert(b =~= seq![b[0]] + b.drop_first());
        }
        if a[0] != b[0] {
            assert((a[0] as int) != (b[0] as int));
        }
    } else if a.len() == 0 && b.len() == 0 {
        assert(a =~= b);
    }
}

pub proof fn lemma_lex_transitive(a: Seq<char>, b: Seq<char>, c: Seq<char>)
    requires
        lex_lt(a, b),
        lex_lt(b, c),
    ensures
        lex_lt(a, c),
    decreases a.len(),
{
    if a.len() > 0 && b.len() > 0 && c.len() > 0 {
        if a[0] == b[0] && b[0] == c[0] {
            lemma_lex_transitive(a.drop_first(), b.drop_first(), c.drop_first());
        }
    }
}


pub proof fn lemma_lex_le_total()
    ensures
        total_ordering(|a: Seq<char>, b: Seq<char>| lex_le(a, b)),
{
    let leq = |a: Seq<char>, b: Seq<char>| lex_le(a, b);
    assert forall|x: Seq<char>| #[trigger] leq(x, x) by {
        lemma_lex_irreflexive(x);
    }
    assert forall|x: Seq<char>, y: Seq<char>| #[trigger] leq(x, y) && #[trigger] leq(y, x) implies x == y by {
        lemma_lex_total(x, y);
    }
    assert forall|x: Seq<char>, y: Seq<char>, z: Seq<char>| #[trigger] leq(x, y) && #[trigger] leq(y, z) implies leq(x, z) by {
        lemma_lex_total(x, y);
        lemma_lex_total(y, z);
        lemma_lex_total(x, z);
        if lex_lt(z, x) {
            if lex_lt(x, y) {
                lemma_lex_transitive(z, x, y);
            }
            if x == y {
                assert(lex_lt(z, y));
            }
        }
    }
    assert forall|x: Seq<char>, y: Seq<char>| #[trigger] leq(x, y) || #[trigger] leq(y, x) by {
        lemma_lex_total(x, y);
    }
}

/// A run of digits is worth at least any of its prefixes.
pub proof fn lemma_digits_prefix(s: Seq<char>, k: int)
    requires
        0 <= k <= s.len(),
        all_digits(s),
    ensures
        digits_value(s.take(k)) <= digits_value(s),
    decreases s.len() - k,
{
    if k < s.len() {
        lemma_digits_prefix(s, k + 1);
        assert(s.take(k + 1).drop_last() =~= s.take(k));
        assert(is_digit(s[k]));
    } else {
        assert(s.take(k) =~= s);
    }
}


/// Where `c` first occurs in `x + y`.
pub proof fn lemma_index_of_append(x: Seq<char>, y: Seq<char>, c: char)
    ensures
        index_of(x, c) < x.len() ==> index_of(x + y, c) == index_of(x, c),
        index_of(x, c) >= x.len() ==> index_of(x + y, c) == x.len() + index_of(y, c),
    decreases x.len(),
{
    lemma_index_of(x, c);
    if x.len() == 0 {
        assert(x + y =~= y);
    } else {
        assert((x + y)[0] == x[0]);
        if x[0] != c {
            lemma_index_of_append(x.drop_first(), y, c);
            assert((x + y).drop_first() =~= x.drop_first() + y);
        }
    }
}

/// A text ending in a newline splits into pieces independently of what follows it.
pub proof fn lemma_pieces_append(x: Seq<char>, y: Seq<char>)
    requires
        x.len() == 0 || x.last() == '\n',
    ensures
        pieces(x + y) == pieces(x) + pieces(y),
    decreases x.len(),
{
    if x.len() == 0 {
        assert(x + y =~= y);
        assert(pieces(x) + pieces(y) =~= pieces(y));
    } else {
        let i = index_of(x, '\n') as int;
        lemma_index_of(x, '\n');
        if i >= x.len() {
            assert(x[x.len() - 1] == '\n');
        }
        lemma_index_of_append(x, y, '\n');
        assert((x + y).take(i + 1) =~= x.take(i + 1));
        assert((x + y).skip(i + 1) =~= x.skip(i + 1) + y);
        let t = x.skip(i + 1);
        if t.len() > 0 {
            assert(t.last() == x.last());
        }
        lemma_pieces_append(t, y);
        assert(pieces(x + y) =~= seq![x.take(i + 1)] + pieces(t + y));
        assert(pieces(x) =~= seq![x.take(i + 1)] + pieces(t));
    }
}

/// A text ending in a newline splits into lines independently of what follows it.
pub proof fn lemma_lines_append(x: Seq<char>, y: Seq<char>)
    requires
        x.len() == 0 || x.last() == '\n',
    ensures
        lines(x + y) == lines(x) + lines(y),
    decreases x.len(),
{
    if x.len() == 0 {
        assert(x + y =~= y);
        assert(lines(x) + lines(y) =~= lines(y));
    } else {
        let i = index_of(x, '\n') as int;
        lemma_index_of(x, '\n');
        if i >= x.len() {
            assert(x[x.len() - 1] == '\n');
        }
        lemma_index_of_append(x, y, '\n');
        assert((x + y).take(i) =~= x.take(i));
        assert((x + y).skip(i + 1) =~= x.skip(i + 1) + y);
        let t = x.skip(i + 1);
        if t.len() > 0 {
            assert(t.last() == x.last());
        }
        lemma_lines_append(t, y);
        assert(lines(x + y) =~= seq![strip_cr(x.take(i))] + lines(t + y));
        assert(lines(x) =~= seq![strip_cr(x.take(i))] + lines(t));
    }
}

/// The line a piece holds: the piece without its newline and the `\r` before it.
pub open spec fn line_of_piece(p: Seq<char>) -> Seq<char> {
    if p.len() > 0 && p.last() == '\n' { strip_cr(p.drop_last()) } else { p }
}

/// The lines of a text are its pieces, each read as a line; every piece but the last ends in
/// a newline, and the last does too when the text does.
pub proof fn lemma_lines_pieces(s: Seq<char>)
    ensures
        lines(s).len() == pieces(s).len(),
        forall|k: int| 0 <= k < pieces(s).len() ==> lines(s)[k] == line_of_piece(#[trigger] pieces(s)[k]),
        forall|k: int| 0 <= k < pieces(s).len() ==> (#[trigger] pieces(s)[k]).len() > 0,
        forall|k: int| 0 <= k < pieces(s).len() - 1 ==> (#[trigger] pieces(s)[k]).last() == '\n',
        s.len() > 0 && s.last() == '\n' ==> pieces(s).last().last() == '\n',
    decreases s.len(),
{
    if s.len() > 0 {
        let i = index_of(s, '\n') as int;
        lemma_index_of(s, '\n');
        if i < s.len() {
            let t = s.skip(i + 1);
            lemma_lines_pieces(t);
            let h = s.take(i + 1);
            assert(h.drop_last() =~= s.take(i));
            assert(h.last() == '\n');
            assert forall|k: int| 0 <= k < pieces(s).len() implies lines(s)[k] == line_of_piece(#[trigger] pieces(s)[k]) by {
                if k > 0 {
                    assert(pieces(s)[k] == pieces(t)[k - 1]);
                    assert(lines(s)[k] == lines(t)[k - 1]);
                }
            }
            assert forall|k: int| 0 <= k < pieces(s).len() implies (#[trigger] pieces(s)[k]).len() > 0 by {
                if k > 0 {
                    assert(pieces(s)[k] == pieces(t)[k - 1]);
                }
            }
            assert forall|k: int| 0 <= k < pieces(s).len() - 1 implies (#[trigger] pieces(s)[k]).last() == '\n' by {
                if k > 0 {
                    assert(pieces(s)[k] == pieces(t)[k - 1]);
                }
            }
            if s.last() == '\n' && t.len() > 0 {
                assert(t.last() == s.last());
            }
        } else {
            assert(s.last() != '\n' ==> line_of_piece(s) == s);
            if s.last() == '\n' {
                assert(s[s.len() - 1] == '\n');
            }
        }
    }
}

/// The first `k` pieces of a text are the pieces of their concatenation.
pub proof fn lemma_pieces_take(s: Seq<char>, k: int)
    requires
        0 <= k <= pieces(s).len(),
    ensures
        pieces(concat(pieces(s).take(k))) == pieces(s).take(k),
    decreases s.len(),
{
    if k == 0 {
        assert(pieces(s).take(0) =~= Seq::<Seq<char>>::empty());
        assert(concat(Seq::<Seq<char>>::empty()) =~= Seq::<char>::empty());
        assert(pieces(Seq::<char>::empty()) =~= Seq::<Seq<char>>::empty());
    } else {
        let i = index_of(s, '\n') as int;
        lemma_index_of(s, '\n');
        if i < s.len() {
            let h = s.take(i + 1);
            let t = s.skip(i + 1);
            lemma_pieces_take(t, k - 1);
            let rest = pieces(t).take(k - 1);
            assert(pieces(s).take(k) =~= seq![h] + rest);
            lemma_concat_append(seq![h], rest);
            lemma_concat_single(h);
            let x = concat(rest);
            assert(concat(pieces(s).take(k)) == h + x);
            lemma_index_of_append(h, x, '\n');
            lemma_index_of(h, '\n');
            assert(index_of(h, '\n') == i) by {
                assert forall|j: int| 0 <= j < i implies h[j] != '\n' by {
                    assert(h[j] == s[j]);
                }
                lemma_index_of_is(h, '\n', i);
            }
            assert((h + x).take(i + 1) =~= h);
            assert((h + x).skip(i + 1) =~= x);
            assert(pieces(h + x) =~= seq![h] + pieces(x));
        } else {
            assert(pieces(s) =~= seq![s]);
            assert(pieces(s).take(k) =~= seq![s]);
            lemma_concat_single(s);
        }
    }
}

/// `index_of` is the first position of `c`.
pub proof fn lemma_index_of_is(s: Seq<char>, c: char, i: int)
    requires
        0 <= i < s.len(),
        s[i] == c,
        forall|j: int| 0 <= j < i ==> s[j] != c,
    ensures
        index_of(s, c) == i,
    decreases i,
{
    if i > 0 {
        lemma_index_of_is(s.drop_first(), c, i - 1);
    }
}

// ---------------------------------------------------------------------------------------
// Conversions
// ---------------------------------------------------------------------------------------

/// `String::push`.
#[verifier::external_body]
pub(crate) fn push_char(s: &mut String, c: char)
    ensures
        final(s)@ == old(s)@.push(c),
{
    s.push(c);
}

/// The characters of a string, in order.
pub fn chars_of(s: &str) -> (v: Vec<char>)
    ensures
        v@ == s@,
{
    let mut v: Vec<char> = Vec::new();
    for c in it: s.chars()
        invariant
            v@ == it.seq().take(it.index() as int),
    {
        v.push(c);
        assert(v@ == it.seq().take(it.index() + 1));
    }
    v
}

fn digit_exec(d: u64) -> (c: char)
    requires
        d < 10,
    ensures
        c == digit(d as int),
{
    if d == 0 { '0' }
    else if d == 1 { '1' }
    else if d == 2 { '2' }
    else if d == 3 { '3' }
    else if d == 4 { '4' }
    else if d == 5 { '5' }
    else if d == 6 { '6' }
    else if d == 7 { '7' }
    else if d == 8 { '8' }
    else { '9' }
}

/// A number in decimal.
pub fn decimal_chars(n: u64) -> (r: Vec<char>)
    ensures
        r@ == decimal(n as nat),
    decreases n,
{
    if n < 10 {
        let mut r = Vec::new();
        r.push(digit_exec(n));
        assert(r@ =~= seq![digit(n as int)]);
        r
    } else {
        let mut r = decimal_chars(n / 10);
        r.push(digit_exec(n % 10));
        r
    }
}

/// A number in decimal, as a string.
pub fn decimal_text(n: u64) -> (r: String)
    ensures
        r@ == decimal(n as nat),
{
    string_of(&decimal_chars(n))
}

/// Append characters to a string.
pub fn push_chars(s: &mut String, v: &[char])
    ensures
        final(s)@ == old(s)@ + v@,
{
    let ghost start = s@;
    let mut i: usize = 0;
    while i < v.len()
        invariant
            0 <= i <= v@.len(),
            s@ == start + v@.take(i as int),
        decreases v.len() - i,
    {
        push_char(s, v[i]);
        i = i + 1;
        assert(s@ =~= start + v@.take(i as int));
    }
    assert(v@.take(v@.len() as int) =~= v@);
}

/// A string holding exactly the given characters.
pub fn string_of(v: &[char]) -> (s: String)
    ensures
        s@ == v@,
{
    let mut s = String::new();
    let mut i: usize = 0;
    while i < v.len()
        invariant
            0 <= i <= v@.len(),
            s@ == v@.take(i as int),
        decreases v.len() - i,
    {
        push_char(&mut s, v[i]);
        i = i + 1;
        assert(s@ =~= v@.take(i as int));
    }
    assert(v@.take(v@.len() as int) =~= v@);
    s
}

// ---------------------------------------------------------------------------------------
// Operations
// ---------------------------------------------------------------------------------------

pub fn is_ws_char(c: char) -> (r: bool)
    ensures
        r == is_ws(c),
{
    c == '\t' || c == '\n' || c == '\u{0B}' || c == '\u{0C}' || c == '\r' || c == ' '
        || c == '\u{85}' || c == '\u{A0}' || c == '\u{1680}'
        || ('\u{2000}' <= c && c <= '\u{200A}')
        || c == '\u{2028}' || c == '\u{2029}' || c == '\u{202F}' || c == '\u{205F}'
        || c == '\u{3000}'
}

/// The characters `v[from..to]`.
pub fn slice_of(v: &[char], from: usize, to: usize) -> (r: Vec<char>)
    requires
        from <= to <= v@.len(),
    ensures
        r@ == v@.subrange(from as int, to as int),
{
    let mut r: Vec<char> = Vec::new();
    let mut i = from;
    while i < to
        invariant
            from <= i <= to <= v@.len(),
            r@ == v@.subrange(from as int, i as int),
        decreases to - i,
    {
        r.push(v[i]);
        i = i + 1;
        assert(r@ =~= v@.subrange(from as int, i as int));
    }
    r
}

pub fn eq_chars(a: &[char], b: &[char]) -> (r: bool)
    ensures
        r == (a@ == b@),
{
    if a.len() != b.len() {
        return false;
    }
    let mut i: usize = 0;
    while i < a.len()
        invariant
            a@.len() == b@.len(),
            0 <= i <= a@.len(),
            forall|j: int| 0 <= j < i ==> a@[j] == b@[j],
        decreases a.len() - i,
    {
        if a[i] != b[i] {
            return false;
        }
        i = i + 1;
    }
    assert(a@ =~= b@);
    true
}

pub fn lex_less(a: &[char], b: &[char]) -> (r: bool)
    ensures
        r == lex_lt(a@, b@),
{
    let mut i: usize = 0;
    assert(a@.skip(0) =~= a@);
    assert(b@.skip(0) =~= b@);
    while i < a.len() && i < b.len() && a[i] == b[i]
        invariant
            i <= a@.len(),
            i <= b@.len(),
            lex_lt(a@, b@) == lex_lt(a@.skip(i as int), b@.skip(i as int)),
        decreases a.len() - i,
    {
        assert(a@.skip(i as int).drop_first() =~= a@.skip(i + 1));
        assert(b@.skip(i as int).drop_first() =~= b@.skip(i + 1));
        i = i + 1;
    }
    if i == a.len() {
        i < b.len()
    } else if i == b.len() {
        false
    } else {
        a[i] < b[i]
    }
}

/// The first position at which `p` occurs in `v`: `str::find`.
pub fn find_exec(v: &[char], p: &[char]) -> (r: Option<usize>)
    ensures
        match r {
            Some(i) => find(v@, p@) == Some(i as int),
            None => find(v@, p@) is None,
        },
{
    let mut i: usize = 0;
    assert(v@.skip(0) =~= v@);
    loop
        invariant
            i <= v@.len(),
            find(v@, p@) == (match find(v@.skip(i as int), p@) {
                Some(k) => Some(k + i),
                None => None::<int>,
            }),
        decreases v.len() - i,
    {
        let ghost s = v@.skip(i as int);
        if p.len() > v.len() - i {
            return None;
        }
        if occurs_at_exec(v, p, i) {
            assert(s.take(p@.len() as int) =~= v@.subrange(i as int, i + p@.len()));
            return Some(i);
        }
        assert(s.take(p@.len() as int) =~= v@.subrange(i as int, i + p@.len()));
        if i == v.len() {
            return None;
        }
        assert(s.drop_first() =~= v@.skip(i + 1));
        i = i + 1;
    }
}

/// Whether `p` occurs in `v` at `at`.
pub fn occurs_at_exec(v: &[char], p: &[char], at: usize) -> (r: bool)
    ensures
        r == occurs_at(v@, p@, at as int),
{
    if at > v.len() || p.len() > v.len() - at {
        return false;
    }
    let mut i: usize = 0;
    while i < p.len()
        invariant
            at + p@.len() <= v@.len(),
            v@.len() <= usize::MAX,
            0 <= i <= p@.len(),
            forall|j: int| 0 <= j < i ==> v@[at + j] == p@[j],
        decreases p.len() - i,
    {
        if v[at + i] != p[i] {
            assert(v@.subrange(at as int, at + p@.len())[i as int] != p@[i as int]);
            return false;
        }
        i = i + 1;
    }
    assert(v@.subrange(at as int, at + p@.len()) =~= p@);
    true
}

pub fn starts_with_exec(v: &[char], p: &[char]) -> (r: bool)
    ensures
        r == starts_with(v@, p@),
{
    let r = occurs_at_exec(v, p, 0);
    assert(v@.subrange(0, p@.len() as int) =~= v@.take(p@.len() as int));
    r
}

pub fn ends_with_exec(v: &[char], p: &[char]) -> (r: bool)
    ensures
        r == ends_with(v@, p@),
{
    if p.len() > v.len() {
        return false;
    }
    let r = occurs_at_exec(v, p, v.len() - p.len());
    assert(v@.subrange(v@.len() - p@.len(), v@.len() as int) =~= v@.skip(v@.len() - p@.len()));
    r
}

/// The position of the first `c` at or after `start`, or `v.len()`.
pub fn index_of_from(v: &[char], start: usize, c: char) -> (r: usize)
    requires
        start <= v@.len(),
    ensures
        start <= r <= v@.len(),
        r == start + index_of(v@.skip(start as int), c),
        forall|j: int| start <= j < r ==> v@[j] != c,
        r < v@.len() ==> v@[r as int] == c,
{
    let mut i = start;
    while i < v.len() && v[i] != c
        invariant
            start <= i <= v@.len(),
            forall|j: int| start <= j < i ==> v@[j] != c,
            index_of(v@.skip(start as int), c) == (i - start) + index_of(v@.skip(i as int), c),
        decreases v.len() - i,
    {
        assert(v@.skip(i as int).drop_first() =~= v@.skip(i + 1));
        i = i + 1;
    }
    i
}

/// Trailing whitespace is at `v[r..]`: `trim_end(v) == v[..r]`.
pub fn trim_end_len(v: &[char]) -> (r: usize)
    ensures
        r <= v@.len(),
        trim_end(v@) == v@.take(r as int),
{
    let mut k = v.len();
    assert(v@.take(k as int) =~= v@);
    while k > 0 && is_ws_char(v[k - 1])
        invariant
            k <= v@.len(),
            trim_end(v@) == trim_end(v@.take(k as int)),
        decreases k,
    {
        assert(v@.take(k as int).drop_last() =~= v@.take(k - 1));
        k = k - 1;
    }
    k
}

/// Leading whitespace is at `v[..r]`: `trim_start(v) == v[r..]`.
pub fn trim_start_len(v: &[char]) -> (r: usize)
    ensures
        r <= v@.len(),
        trim_start(v@) == v@.skip(r as int),
{
    let mut k: usize = 0;
    assert(v@.skip(0) =~= v@);
    while k < v.len() && is_ws_char(v[k])
        invariant
            k <= v@.len(),
            trim_start(v@) == trim_start(v@.skip(k as int)),
        decreases v.len() - k,
    {
        assert(v@.skip(k as int).drop_first() =~= v@.skip(k + 1));
        k = k + 1;
    }
    k
}

pub fn trim_exec(v: &[char]) -> (r: Vec<char>)
    ensures
        r@ == trim(v@),
{
    let a = trim_start_len(v);
    let rest = slice_of(v, a, v.len());
    assert(rest@ =~= v@.skip(a as int));
    let b = trim_end_len(&rest);
    slice_of(&rest, 0, b)
}

/// `parts` joined with `sep` between each pair.
pub fn join_exec(parts: &Vec<Vec<char>>, sep: &[char]) -> (r: Vec<char>)
    ensures
        r@ == join(views(parts@), sep@),
{
    let mut r: Vec<char> = Vec::new();
    let mut i: usize = 0;
    while i < parts.len()
        invariant
            i <= parts@.len(),
            r@ == join(views(parts@).take(i as int), sep@),
        decreases parts.len() - i,
    {
        let ghost pv = views(parts@);
        assert(pv.take(i + 1).drop_last() =~= pv.take(i as int));
        assert(parts@[i as int]@ == pv[i as int]);
        if i > 0 {
            append_chars(&mut r, sep);
        } else {
            assert(pv.take(1) =~= seq![pv[0]]);
        }
        append_chars(&mut r, &parts[i]);
        i = i + 1;
    }
    assert(views(parts@).take(parts@.len() as int) =~= views(parts@));
    r
}

/// Append characters to a vector of characters.
pub fn append_chars(r: &mut Vec<char>, v: &[char])
    ensures
        final(r)@ == old(r)@ + v@,
{
    let ghost start = r@;
    let mut i: usize = 0;
    while i < v.len()
        invariant
            0 <= i <= v@.len(),
            r@ == start + v@.take(i as int),
        decreases v.len() - i,
    {
        r.push(v[i]);
        i = i + 1;
        assert(r@ =~= start + v@.take(i as int));
    }
    assert(v@.take(v@.len() as int) =~= v@);
}

/// The pieces `str::split(c)` yields.
pub fn split_char(v: &[char], c: char) -> (r: Vec<Vec<char>>)
    ensures
        views(r@) == split_on(v@, c),
{
    let mut r: Vec<Vec<char>> = Vec::new();
    let mut pos: usize = 0;
    assert(v@.skip(0) =~= v@);
    loop
        invariant
            pos <= v@.len(),
            split_on(v@, c) == views(r@) + split_on(v@.skip(pos as int), c),
        decreases v.len() - pos,
    {
        let ghost rest = v@.skip(pos as int);
        let ghost before = r@;
        let e = index_of_from(v, pos, c);
        if e < v.len() {
            let piece = slice_of(v, pos, e);
            assert(piece@ =~= rest.take(e - pos));
            assert(rest.skip(e - pos + 1) =~= v@.skip(e + 1));
            r.push(piece);
            assert(views(r@) =~= views(before).push(piece@));
            assert(views(before) + split_on(rest, c) =~= views(r@) + split_on(v@.skip(e + 1), c));
            pos = e + 1;
        } else {
            let piece = slice_of(v, pos, v.len());
            assert(piece@ =~= rest);
            r.push(piece);
            assert(views(r@) =~= views(before).push(piece@));
            assert(views(before) + split_on(rest, c) =~= views(r@));
            return r;
        }
    }
}

/// The lines `str::lines` yields.
pub fn lines_of(v: &[char]) -> (r: Vec<Vec<char>>)
    ensures
        views(r@) == lines(v@),
{
    let mut r: Vec<Vec<char>> = Vec::new();
    let mut pos: usize = 0;
    assert(v@.skip(0) =~= v@);
    while pos < v.len()
        invariant
            pos <= v@.len(),
            lines(v@) == views(r@) + lines(v@.skip(pos as int)),
        decreases v.len() - pos,
    {
        let ghost rest = v@.skip(pos as int);
        let ghost before = r@;
        let e = index_of_from(v, pos, '\n');
        if e < v.len() {
            let mut end = e;
            if end > pos && v[end - 1] == '\r' {
                end = end - 1;
            }
            let piece = slice_of(v, pos, end);
            assert(piece@ =~= strip_cr(rest.take(e - pos)));
            assert(rest.skip(e - pos + 1) =~= v@.skip(e + 1));
            r.push(piece);
            assert(views(r@) =~= views(before).push(piece@));
            assert(views(before) + lines(rest) =~= views(r@) + lines(v@.skip(e + 1)));
            pos = e + 1;
        } else {
            let piece = slice_of(v, pos, v.len());
            assert(piece@ =~= rest);
            r.push(piece);
            assert(views(r@) =~= views(before).push(piece@));
            assert(v@.skip(v@.len() as int) =~= Seq::<char>::empty());
            assert(views(before) + lines(rest) =~= views(r@) + lines(v@.skip(v@.len() as int)));
            pos = v.len();
        }
    }
    assert(v@.skip(v@.len() as int) =~= Seq::<char>::empty());
    assert(views(r@) + seq![] =~= views(r@));
    r
}

/// The pieces `str::split_inclusive('\n')` yields.
pub fn pieces_of(v: &[char]) -> (r: Vec<Vec<char>>)
    ensures
        views(r@) == pieces(v@),
{
    let mut r: Vec<Vec<char>> = Vec::new();
    let mut pos: usize = 0;
    assert(v@.skip(0) =~= v@);
    while pos < v.len()
        invariant
            pos <= v@.len(),
            pieces(v@) == views(r@) + pieces(v@.skip(pos as int)),
        decreases v.len() - pos,
    {
        let ghost rest = v@.skip(pos as int);
        let ghost before = r@;
        let e = index_of_from(v, pos, '\n');
        proof {
            assert(index_of(rest, '\n') == e - pos);
        }
        if e < v.len() {
            let piece = slice_of(v, pos, e + 1);
            assert(piece@ =~= rest.take(e - pos + 1));
            assert(rest.skip(e - pos + 1) =~= v@.skip(e + 1));
            r.push(piece);
            assert(views(r@) =~= views(before).push(piece@));
            assert(pieces(rest) == seq![piece@] + pieces(v@.skip(e + 1)));
            assert(views(before) + pieces(rest) =~= views(r@) + pieces(v@.skip(e + 1)));
            pos = e + 1;
        } else {
            let piece = slice_of(v, pos, v.len());
            assert(piece@ =~= rest);
            r.push(piece);
            assert(views(r@) =~= views(before).push(piece@));
            assert(v@.skip(v@.len() as int) =~= Seq::<char>::empty());
            assert(views(before) + pieces(rest) =~= views(r@) + pieces(v@.skip(v@.len() as int)));
            pos = v.len();
        }
    }
    assert(v@.skip(v@.len() as int) =~= Seq::<char>::empty());
    assert(views(r@) + seq![] =~= views(r@));
    r
}


/// The value of the digits `v[from..]`, when every one is a digit and the value is at most
/// `max`.
pub fn digits_at_most(v: &[char], from: usize, max: u64) -> (r: Option<u64>)
    requires
        from <= v@.len(),
    ensures
        match r {
            Some(n) => all_digits(v@.skip(from as int)) && n == digits_value(v@.skip(from as int))
                && n <= max,
            None => !all_digits(v@.skip(from as int)) || digits_value(v@.skip(from as int)) > max,
        },
{
    let ghost d = v@.skip(from as int);
    let mut acc: u64 = 0;
    let mut i = from;
    assert(d.take(0) =~= Seq::<char>::empty());
    while i < v.len()
        invariant
            from <= i <= v@.len(),
            d == v@.skip(from as int),
            all_digits(d.take(i - from)),
            acc == digits_value(d.take(i - from)),
            acc <= max,
        decreases v.len() - i,
    {
        let c = v[i];
        assert(d[i - from] == c);
        if c < '0' || c > '9' {
            assert(!is_digit(d[i - from]));
            return None;
        }
        assert(d.take(i - from + 1).drop_last() =~= d.take(i - from));
        assert(d.take(i - from + 1).last() == c);
        let digit: u64 = ((c as u32) - ('0' as u32)) as u64;
        assert(digit as int == (c as int) - ('0' as int));
        let next = match acc.checked_mul(10) {
            Some(t) => t.checked_add(digit),
            None => None,
        };
        match next {
            Some(n) if n <= max => {
                acc = n;
            },
            _ => {
                proof {
                    if all_digits(d) {
                        lemma_digits_prefix(d, i - from + 1);
                    }
                }
                return None;
            },
        }
        i = i + 1;
        assert forall|j: int| 0 <= j < i - from implies is_digit(#[trigger] d.take(i - from)[j]) by {
            if j < i - from - 1 {
                assert(d.take(i - from)[j] == d.take(i - from - 1)[j]);
            }
        }
    }
    assert(d.take(i - from) =~= d);
    Some(acc)
}

/// `usize::from_str`.
pub fn parse_usize(v: &[char]) -> (r: Option<usize>)
    ensures
        match r {
            Some(n) => unsigned_of(v@) == Some(n as nat),
            None => unsigned_of(v@) matches Some(n) ==> n > usize::MAX,
        },
{
    let from: usize = if v.len() > 0 && v[0] == '+' { 1 } else { 0 };
    assert(from == 1 ==> v@.skip(1) =~= v@.drop_first());
    assert(v@.skip(0) =~= v@);
    if from == v.len() {
        return None;
    }
    match digits_at_most(v, from, usize::MAX as u64) {
        Some(n) => Some(n as usize),
        None => None,
    }
}

/// `u64::from_str`.
pub fn parse_u64(v: &[char]) -> (r: Option<u64>)
    ensures
        match r {
            Some(n) => unsigned_of(v@) == Some(n as nat),
            None => unsigned_of(v@) matches Some(n) ==> n > u64::MAX,
        },
{
    let from: usize = if v.len() > 0 && v[0] == '+' { 1 } else { 0 };
    assert(from == 1 ==> v@.skip(1) =~= v@.drop_first());
    assert(v@.skip(0) =~= v@);
    if from == v.len() {
        return None;
    }
    digits_at_most(v, from, u64::MAX)
}

/// `i32::from_str`.
pub fn parse_i32(v: &[char]) -> (r: Option<i32>)
    ensures
        match r {
            Some(n) => signed_of(v@) == Some(n as int),
            None => signed_of(v@) matches Some(n) ==> (n < i32::MIN || n > i32::MAX),
        },
{
    if v.len() > 0 && v[0] == '-' {
        assert(v@.skip(1) =~= v@.drop_first());
        if v.len() == 1 {
            return None;
        }
        match digits_at_most(v, 1, 2147483648) {
            Some(n) => {
                let m: i64 = 0 - (n as i64);
                Some(m as i32)
            },
            None => None,
        }
    } else {
        let from: usize = if v.len() > 0 && v[0] == '+' { 1 } else { 0 };
        assert(from == 1 ==> v@.skip(1) =~= v@.drop_first());
        assert(v@.skip(0) =~= v@);
        if from == v.len() {
            return None;
        }
        match digits_at_most(v, from, 2147483647) {
            Some(n) => Some(n as i32),
            None => None,
        }
    }
}

/// Strings in the order `sort` puts them.
pub fn sort_strings(v: &Vec<String>) -> (r: Vec<String>)
    ensures
        str_views(r@) == str_views(v@).sort_by(|a: Seq<char>, b: Seq<char>| lex_le(a, b)),
{
    let ghost leq = |a: Seq<char>, b: Seq<char>| lex_le(a, b);
    let mut r: Vec<String> = Vec::new();
    let mut i: usize = 0;
    proof {
        lemma_lex_le_total();
        assert(str_views(v@).take(0) =~= Seq::<Seq<char>>::empty());
        assert(str_views(r@) =~= Seq::<Seq<char>>::empty());
    }
    while i < v.len()
        invariant
            i <= v@.len(),
            leq == (|a: Seq<char>, b: Seq<char>| lex_le(a, b)),
            total_ordering(leq),
            sorted_by(str_views(r@), leq),
            str_views(r@).to_multiset() == str_views(v@).take(i as int).to_multiset(),
        decreases v.len() - i,
    {
        let x = v[i].clone();
        let xc = chars_of(x.as_str());
        let mut pos: usize = 0;
        while pos < r.len() && !lex_less(&xc, &chars_of(r[pos].as_str()))
            invariant
                pos <= r@.len(),
                xc@ == x@,
                forall|j: int| 0 <= j < pos ==> lex_le(#[trigger] r@[j]@, x@),
            decreases r.len() - pos,
        {
            pos = pos + 1;
        }
        let ghost before = str_views(r@);
        r.insert(pos, x);
        proof {
            assert(str_views(r@) =~= before.insert(pos as int, x@));
            vstd::seq_lib::to_multiset_insert(before, pos as int, x@);
            assert(str_views(v@).take(i + 1) =~= str_views(v@).take(i as int).push(x@));
            vstd::seq_lib::to_multiset_build(str_views(v@).take(i as int), x@);
            let rv = str_views(r@);
            assert forall|a: int, b: int| 0 <= a < b < rv.len() implies #[trigger] leq(rv[a], rv[b]) by {
                if b < pos {
                    assert(rv[a] == before[a] && rv[b] == before[b]);
                } else if b == pos {
                    assert(rv[a] == before[a]);
                    assert(lex_le(r@[a]@, x@));
                } else if a == pos {
                    assert(rv[b] == before[b - 1]);
                    assert(lex_lt(x@, before[pos as int]));
                    if b - 1 > pos {
                        assert(leq(before[pos as int], before[b - 1]));
                    }
                    lemma_lex_total(x@, before[b - 1]);
                    lemma_lex_total(before[pos as int], before[b - 1]);
                    if lex_lt(before[b - 1], x@) {
                        if lex_lt(before[pos as int], before[b - 1]) {
                            lemma_lex_transitive(before[pos as int], before[b - 1], x@);
                        }
                        lemma_lex_total(x@, before[pos as int]);
                    }
                } else if a < pos {
                    assert(rv[a] == before[a] && rv[b] == before[b - 1]);
                } else {
                    assert(rv[a] == before[a - 1] && rv[b] == before[b - 1]);
                }
            }
        }
        i = i + 1;
    }
    proof {
        assert(str_views(v@).take(v@.len() as int) =~= str_views(v@));
        str_views(v@).lemma_sort_by_ensures(leq);
        vstd::seq_lib::lemma_sorted_unique(str_views(r@), str_views(v@).sort_by(leq), leq);
    }
    r
}

/// A copy of a list of strings.
pub fn copy_strings(v: &Vec<String>) -> (r: Vec<String>)
    ensures
        str_views(r@) == str_views(v@),
{
    let mut r: Vec<String> = Vec::new();
    let mut i: usize = 0;
    while i < v.len()
        invariant
            i <= v@.len(),
            str_views(r@) == str_views(v@).take(i as int),
        decreases v.len() - i,
    {
        let ghost before = r@;
        let c = v[i].clone();
        assert(c == v@[i as int]);
        assert(str_views(before).len() == i);
        r.push(c);
        assert(r@ == before.push(c));
        assert forall|j: int| 0 <= j <= i implies #[trigger] str_views(r@)[j] == str_views(v@).take(i + 1)[j] by {
            if j < i {
                assert(r@[j] == before[j]);
                assert(str_views(before)[j] == str_views(v@).take(i as int)[j]);
            }
        }
        assert(str_views(r@) =~= str_views(v@).take(i + 1));
        i = i + 1;
    }
    assert(str_views(v@).take(v@.len() as int) =~= str_views(v@));
    r
}

/// Split at the first occurrence of `p`: `str::split_once`.
pub fn split_once_exec(v: &[char], p: &[char]) -> (r: Option<(Vec<char>, Vec<char>)>)
    ensures
        match r {
            Some((a, b)) => split_once(v@, p@) == Some((a@, b@)),
            None => split_once(v@, p@) is None,
        },
{
    proof {
        crate::render::lemma_find_bounds_pub(v@, p@);
    }
    match find_exec(v, p) {
        Some(i) => {
            let n = v.len();
            let a = slice_of(v, 0, i);
            let b = slice_of(v, i + p.len(), n);
            assert(a@ =~= v@.take(i as int));
            assert(b@ =~= v@.skip(i + p@.len()));
            Some((a, b))
        },
        None => None,
    }
}

/// Where the last occurrence of `p` in `s` starts: `str::rfind`.
pub open spec fn rfind(s: Seq<char>, p: Seq<char>) -> Option<int>
    decreases s.len(),
{
    if ends_with(s, p) {
        Some(s.len() - p.len())
    } else if s.len() == 0 {
        None
    } else {
        rfind(s.drop_last(), p)
    }
}

/// Split at the last occurrence of `p`: `str::rsplit_once`.
pub open spec fn rsplit_once(s: Seq<char>, p: Seq<char>) -> Option<(Seq<char>, Seq<char>)> {
    match rfind(s, p) {
        Some(i) => Some((s.take(i), s.skip(i + p.len()))),
        None => None,
    }
}

proof fn lemma_rfind_bounds(s: Seq<char>, p: Seq<char>)
    ensures
        rfind(s, p) matches Some(i) ==> 0 <= i && i + p.len() <= s.len(),
    decreases s.len(),
{
    if !ends_with(s, p) && s.len() > 0 {
        lemma_rfind_bounds(s.drop_last(), p);
    }
}

pub fn rsplit_once_exec(v: &[char], p: &[char]) -> (r: Option<(Vec<char>, Vec<char>)>)
    ensures
        match r {
            Some((a, b)) => rsplit_once(v@, p@) == Some((a@, b@)),
            None => rsplit_once(v@, p@) is None,
        },
{
    let n = v.len();
    let mut k = n;
    assert(v@.take(k as int) =~= v@);
    while k > 0 && !ends_with_exec(&slice_of(v, 0, k), p)
        invariant
            k <= n,
            n == v@.len(),
            rfind(v@, p@) == rfind(v@.take(k as int), p@),
        decreases k,
    {
        assert(v@.take(k as int).drop_last() =~= v@.take(k - 1));
        k = k - 1;
    }
    let head = slice_of(v, 0, k);
    assert(head@ =~= v@.take(k as int));
    proof {
        lemma_rfind_bounds(v@, p@);
    }
    if ends_with_exec(&head, p) {
        let i = k - p.len();
        let a = slice_of(v, 0, i);
        let b = slice_of(v, k, n);
        assert(a@ =~= v@.take(i as int));
        assert(b@ =~= v@.skip(i + p@.len()));
        Some((a, b))
    } else {
        None
    }
}

/// Strictly increasing in character order: a set of strings, listed in the order it iterates.
pub open spec fn strictly_sorted(s: Seq<Seq<char>>) -> bool {
    forall|i: int, j: int| 0 <= i < j < s.len() ==> lex_lt(#[trigger] s[i], #[trigger] s[j])
}

/// Add a string to a sorted set of strings: `BTreeSet::insert`.
pub fn sorted_insert(set: &mut Vec<String>, x: String) -> (added: bool)
    requires
        strictly_sorted(str_views(old(set)@)),
    ensures
        strictly_sorted(str_views(final(set)@)),
        added == !str_views(old(set)@).contains(x@),
        str_views(final(set)@).to_set() == str_views(old(set)@).to_set().insert(x@),
        str_views(final(set)@).len() == str_views(old(set)@).len() + if added { 1int } else { 0int },
{
    let ghost old_set = str_views(set@);
    let xv = chars_of(x.as_str());
    let mut i: usize = 0;
    while i < set.len() && lex_less(&chars_of(set[i].as_str()), &xv)
        invariant
            i <= set@.len(),
            str_views(set@) == old_set,
            strictly_sorted(old_set),
            xv@ == x@,
            forall|k: int| 0 <= k < i ==> lex_lt(#[trigger] old_set[k], x@),
        decreases set.len() - i,
    {
        i = i + 1;
    }
    proof {
        assert forall|k: int| i <= k < old_set.len() implies !lex_lt(#[trigger] old_set[k], x@) by {
            if k > i {
                assert(lex_lt(old_set[i as int], old_set[k]));
                if lex_lt(old_set[k], x@) {
                    lemma_lex_transitive(old_set[i as int], old_set[k], x@);
                }
            }
        }
    }
    if i < set.len() && set[i] == x {
        proof {
            assert(old_set[i as int] == x@);
            assert(old_set.to_set().insert(x@) =~= old_set.to_set());
        }
        return false;
    }
    proof {
        assert forall|k: int| 0 <= k < old_set.len() implies old_set[k] != x@ by {
            if k < i {
                lemma_lex_irreflexive(x@);
            } else if k == i {
                assert(set@[k]@ == old_set[k]);
            } else {
                assert(lex_lt(old_set[i as int], old_set[k]));
                if old_set[k] == x@ {
                    lemma_lex_total(old_set[i as int], x@);
                }
            }
        }
        if i < old_set.len() {
            lemma_lex_total(old_set[i as int], x@);
            assert(set@[i as int]@ == old_set[i as int]);
            assert(lex_lt(x@, old_set[i as int]));
        }
    }
    let ghost p = x@;
    set.insert(i, x);
    proof {
        let nf = str_views(set@);
        assert(nf =~= old_set.insert(i as int, p));
        assert forall|a: int, b: int| 0 <= a < b < nf.len() implies lex_lt(#[trigger] nf[a], #[trigger] nf[b]) by {
            if b < i {
            } else if a < i && b == i {
            } else if a < i && b > i {
                assert(nf[b] == old_set[b - 1]);
                if i < old_set.len() {
                    lemma_lex_transitive(nf[a], p, old_set[i as int]);
                    if b - 1 > i {
                        lemma_lex_transitive(nf[a], old_set[i as int], old_set[b - 1]);
                    }
                }
            } else if a == i {
                assert(nf[b] == old_set[b - 1]);
                if b - 1 > i {
                    lemma_lex_transitive(p, old_set[i as int], old_set[b - 1]);
                }
            } else {
                assert(nf[a] == old_set[a - 1]);
                assert(nf[b] == old_set[b - 1]);
            }
        }
        assert(nf.to_set() =~= old_set.to_set().insert(p)) by {
            assert forall|y: Seq<char>| nf.to_set().contains(y) <==> old_set.to_set().insert(p).contains(y) by {
                if nf.to_set().contains(y) {
                    let k = choose|k: int| 0 <= k < nf.len() && nf[k] == y;
                    if k < i {
                        assert(old_set[k] == y);
                    } else if k > i {
                        assert(old_set[k - 1] == y);
                    }
                }
                if old_set.to_set().contains(y) {
                    let k = choose|k: int| 0 <= k < old_set.len() && old_set[k] == y;
                    if k < i {
                        assert(nf[k] == y);
                    } else {
                        assert(nf[k + 1] == y);
                    }
                }
                if y == p {
                    assert(nf[i as int] == y);
                }
            }
        }
    }
    true
}


/// The texts joined with a separator between each two.
pub fn join_strings(parts: &Vec<String>, sep: &str) -> (r: String)
    ensures
        r@ == join(str_views(parts@), sep@),
{
    let ghost pv = str_views(parts@);
    let mut out = String::new();
    let mut i: usize = 0;
    assert(pv.take(0) =~= Seq::<Seq<char>>::empty());
    while i < parts.len()
        invariant
            i <= parts@.len(),
            pv == str_views(parts@),
            out@ == join(pv.take(i as int), sep@),
        decreases parts.len() - i,
    {
        assert(pv.take(i + 1).drop_last() =~= pv.take(i as int));
        assert(pv.take(i + 1).last() == parts@[i as int]@);
        if i > 0 {
            out.append(sep);
        }
        out.append(parts[i].as_str());
        proof {
            if i == 0 {
                assert(pv.take(1).len() == 1);
            }
        }
        i = i + 1;
    }
    assert(pv.take(parts@.len() as int) =~= pv);
    out
}

} // verus!
