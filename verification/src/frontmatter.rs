//! Flat `key: value` readers for rule frontmatter and `.conf` files.
//!
//! The format is deliberately flat. A rule should be readable by a person and parseable
//! by a program in a screenful; nesting, block sequences and multi-line strings are not
//! supported. If a rule needs structure, it needs to be a reference file instead.

use vstd::prelude::*;

use vstd::string::StrSliceExecFns;

use crate::text::{
    chars_of, concat, eq_chars, index_of, index_of_from, is_ws, is_ws_char, lemma_concat_append,
    lemma_concat_pieces, lemma_lex_irreflexive, lemma_lex_total, lemma_lex_transitive, lex_less,
    lex_lt, lines, lines_of, pieces, pieces_of, slice_of, split_char, split_on, string_of, trim,
    str_views, trim_exec, trim_start, trim_start_len, views,
};

verus! {

// ---------------------------------------------------------------------------------------
// The field map
// ---------------------------------------------------------------------------------------

/// Keys mapped to values, iterated in key order.
pub struct Fields {
    entries: Vec<(String, String)>,
}

impl Fields {
    /// The keys, in the order they are stored.
    pub closed spec fn key_seq(self) -> Seq<Seq<char>> {
        self.entries@.map_values(|e: (String, String)| e.0@)
    }

    /// Stored in strictly increasing key order, so each key is stored once.
    pub closed spec fn sorted(self) -> bool {
        forall|i: int, j: int|
            0 <= i < j < self.entries@.len() ==> lex_lt(
                #[trigger] self.entries@[i].0@,
                #[trigger] self.entries@[j].0@,
            )
    }

    closed spec fn slot(self, k: Seq<char>) -> int {
        choose|i: int| 0 <= i < self.entries@.len() && self.entries@[i].0@ == k
    }
}

impl View for Fields {
    type V = Map<Seq<char>, Seq<char>>;

    closed spec fn view(&self) -> Map<Seq<char>, Seq<char>> {
        Map::new(
            |k: Seq<char>| exists|i: int| 0 <= i < self.entries@.len() && self.entries@[i].0@ == k,
            |k: Seq<char>| self.entries@[self.slot(k)].1@,
        )
    }
}

/// Keys in strictly increasing order, each once.
pub open spec fn increasing(ks: Seq<Seq<char>>) -> bool {
    forall|i: int, j: int| 0 <= i < j < ks.len() ==> lex_lt(#[trigger] ks[i], #[trigger] ks[j])
}

/// The keys of a field map in the order they are iterated: increasing.
pub open spec fn key_order(m: Map<Seq<char>, Seq<char>>) -> Seq<Seq<char>> {
    choose|ks: Seq<Seq<char>>| increasing(ks) && forall|k: Seq<char>| #[trigger] ks.contains(k) <==> m.contains_key(k)
}

/// Two increasing sequences holding the same keys are the same sequence.
pub proof fn lemma_increasing_unique(a: Seq<Seq<char>>, b: Seq<Seq<char>>)
    requires
        increasing(a),
        increasing(b),
        forall|k: Seq<char>| #![trigger a.contains(k)] #![trigger b.contains(k)] a.contains(k) <==> b.contains(k),
    ensures
        a == b,
    decreases a.len() + b.len(),
{
    if a.len() == 0 || b.len() == 0 {
        if a.len() > 0 {
            assert(a.contains(a[0]));
        }
        if b.len() > 0 {
            assert(b.contains(b[0]));
        }
        assert(a =~= b);
    } else {
        assert(a.contains(a[0]));
        assert(b.contains(b[0]));
        let i = choose|i: int| 0 <= i < b.len() && b[i] == a[0];
        let j = choose|j: int| 0 <= j < a.len() && a[j] == b[0];
        if i > 0 {
            assert(lex_lt(b[0], b[i]));
            if j > 0 {
                assert(lex_lt(a[0], a[j]));
                lemma_lex_transitive(b[0], b[i], b[0]);
                lemma_lex_irreflexive(b[0]);
            } else {
                lemma_lex_irreflexive(b[0]);
            }
        }
        assert(a[0] == b[0]);
        let a1 = a.drop_first();
        let b1 = b.drop_first();
        assert forall|k: Seq<char>| #![trigger a1.contains(k)] #![trigger b1.contains(k)] a1.contains(k) <==> b1.contains(k) by {
            if a1.contains(k) {
                let x = choose|x: int| 0 <= x < a1.len() && a1[x] == k;
                assert(a[x + 1] == k);
                assert(lex_lt(a[0], a[x + 1]));
                assert(a.contains(k));
                let y = choose|y: int| 0 <= y < b.len() && b[y] == k;
                if y == 0 {
                    lemma_lex_irreflexive(k);
                }
                assert(b1[y - 1] == k);
            }
            if b1.contains(k) {
                let x = choose|x: int| 0 <= x < b1.len() && b1[x] == k;
                assert(b[x + 1] == k);
                assert(lex_lt(b[0], b[x + 1]));
                assert(b.contains(k));
                let y = choose|y: int| 0 <= y < a.len() && a[y] == k;
                if y == 0 {
                    lemma_lex_irreflexive(k);
                }
                assert(a1[y - 1] == k);
            }
        }
        lemma_increasing_unique(a1, b1);
        assert(a =~= seq![a[0]] + a1);
        assert(b =~= seq![b[0]] + b1);
    }
}

/// An increasing sequence holding exactly the keys of `m` is their order.
pub proof fn lemma_key_order(m: Map<Seq<char>, Seq<char>>, ks: Seq<Seq<char>>)
    requires
        increasing(ks),
        forall|k: Seq<char>| #[trigger] ks.contains(k) <==> m.contains_key(k),
    ensures
        key_order(m) == ks,
{
    let o = key_order(m);
    assert(increasing(o) && forall|k: Seq<char>| #[trigger] o.contains(k) <==> m.contains_key(k));
    lemma_increasing_unique(o, ks);
}

impl Fields {
    proof fn lemma_slot(self, i: int)
        requires
            self.sorted(),
            0 <= i < self.entries@.len(),
        ensures
            self.slot(self.entries@[i].0@) == i,
            self@.contains_key(self.entries@[i].0@),
            self@[self.entries@[i].0@] == self.entries@[i].1@,
    {
        let k = self.entries@[i].0@;
        assert(exists|j: int| 0 <= j < self.entries@.len() && self.entries@[j].0@ == k);
        let j = self.slot(k);
        if j < i {
            assert(lex_lt(self.entries@[j].0@, self.entries@[i].0@));
            lemma_lex_irreflexive(k);
        }
        if j > i {
            assert(lex_lt(self.entries@[i].0@, self.entries@[j].0@));
            lemma_lex_irreflexive(k);
        }
    }

    pub fn new() -> (r: Fields)
        ensures
            r.sorted(),
            r@ == Map::<Seq<char>, Seq<char>>::empty(),
    {
        let r = Fields { entries: Vec::new() };
        assert(r@ =~= Map::<Seq<char>, Seq<char>>::empty());
        r
    }

    /// Set `key` to `value`, replacing what it held.
    pub fn insert(&mut self, key: String, value: String)
        requires
            old(self).sorted(),
        ensures
            final(self).sorted(),
            final(self)@ == old(self)@.insert(key@, value@),
    {
        let ghost before = *self;
        let kc = chars_of(key.as_str());
        let mut i: usize = 0;
        while i < self.entries.len() && lex_less(&chars_of(self.entries[i].0.as_str()), &kc)
            invariant
                *self == before,
                before.sorted(),
                kc@ == key@,
                i <= self.entries@.len(),
                forall|j: int| 0 <= j < i ==> lex_lt(#[trigger] self.entries@[j].0@, key@),
            decreases self.entries.len() - i,
        {
            i = i + 1;
        }
        let n = self.entries.len();
        if i < n && eq_chars(&chars_of(self.entries[i].0.as_str()), &kc) {
            let mut entries: Vec<(String, String)> = Vec::new();
            std::mem::swap(&mut entries, &mut self.entries);
            entries.set(i, (key, value));
            let after = Fields { entries };
            proof {
                assert forall|a: int, b: int|
                    0 <= a < b < after.entries@.len() implies lex_lt(
                    #[trigger] after.entries@[a].0@,
                    #[trigger] after.entries@[b].0@,
                ) by {
                    assert(lex_lt(before.entries@[a].0@, before.entries@[b].0@));
                }
                assert forall|k: Seq<char>| #[trigger] after@.contains_key(k) == before@.insert(key@, value@).contains_key(k) by {
                    if after@.contains_key(k) {
                        let j = choose|j: int| 0 <= j < after.entries@.len() && after.entries@[j].0@ == k;
                        if j != i {
                            assert(before.entries@[j].0@ == k);
                        }
                    }
                    if before@.contains_key(k) {
                        let j = choose|j: int| 0 <= j < before.entries@.len() && before.entries@[j].0@ == k;
                        if j != i {
                            assert(after.entries@[j].0@ == k);
                        }
                        else {
                            assert(after.entries@[j].0@ == k);
                        }
                    }
                    if k == key@ {
                        assert(after.entries@[i as int].0@ == k);
                    }
                }
                assert forall|k: Seq<char>| after@.contains_key(k) implies #[trigger] after@[k] == before@.insert(key@, value@)[k] by {
                    let j = choose|j: int| 0 <= j < after.entries@.len() && after.entries@[j].0@ == k;
                    after.lemma_slot(j);
                    if j != i {
                        before.lemma_slot(j);
                    }
                }
                assert(after@ =~= before@.insert(key@, value@));
            }
            self.entries = after.entries;
        } else {
            let mut entries: Vec<(String, String)> = Vec::new();
            std::mem::swap(&mut entries, &mut self.entries);
            entries.insert(i, (key, value));
            let after = Fields { entries };
            proof {
                if i < n {
                    lemma_lex_total(before.entries@[i as int].0@, key@);
                }
                assert forall|a: int, b: int|
                    0 <= a < b < after.entries@.len() implies lex_lt(
                    #[trigger] after.entries@[a].0@,
                    #[trigger] after.entries@[b].0@,
                ) by {
                    if b < i {
                        assert(lex_lt(before.entries@[a].0@, before.entries@[b].0@));
                    } else if b == i {
                    } else if a == i {
                        if b - 1 > i {
                            assert(lex_lt(before.entries@[i as int].0@, before.entries@[b - 1].0@));
                            lemma_lex_transitive(key@, before.entries@[i as int].0@, before.entries@[b - 1].0@);
                        }
                    } else if a < i {
                        assert(lex_lt(before.entries@[a].0@, key@));
                        if b - 1 > i {
                            assert(lex_lt(before.entries@[i as int].0@, before.entries@[b - 1].0@));
                            lemma_lex_transitive(key@, before.entries@[i as int].0@, before.entries@[b - 1].0@);
                        }
                        lemma_lex_transitive(before.entries@[a].0@, key@, before.entries@[b - 1].0@);
                    } else {
                        assert(lex_lt(before.entries@[a - 1].0@, before.entries@[b - 1].0@));
                    }
                }
                assert forall|k: Seq<char>| #[trigger] after@.contains_key(k) == before@.insert(key@, value@).contains_key(k) by {
                    if after@.contains_key(k) {
                        let j = choose|j: int| 0 <= j < after.entries@.len() && after.entries@[j].0@ == k;
                        if j < i {
                            assert(before.entries@[j].0@ == k);
                        } else if j > i {
                            assert(before.entries@[j - 1].0@ == k);
                        }
                    }
                    if before@.contains_key(k) {
                        let j = choose|j: int| 0 <= j < before.entries@.len() && before.entries@[j].0@ == k;
                        if j < i {
                            assert(after.entries@[j].0@ == k);
                        } else {
                            assert(after.entries@[j + 1].0@ == k);
                        }
                    }
                    if k == key@ {
                        assert(after.entries@[i as int].0@ == k);
                    }
                }
                assert forall|k: Seq<char>| after@.contains_key(k) implies #[trigger] after@[k] == before@.insert(key@, value@)[k] by {
                    let j = choose|j: int| 0 <= j < after.entries@.len() && after.entries@[j].0@ == k;
                    after.lemma_slot(j);
                    if j < i {
                        before.lemma_slot(j);
                        assert(lex_lt(after.entries@[j].0@, after.entries@[i as int].0@));
                        lemma_lex_irreflexive(k);
                    } else if j > i {
                        before.lemma_slot(j - 1);
                        assert(lex_lt(after.entries@[i as int].0@, after.entries@[j].0@));
                        lemma_lex_irreflexive(k);
                    }
                }
                assert(after@ =~= before@.insert(key@, value@));
            }
            self.entries = after.entries;
        }
    }

    /// The value stored under `key`.
    pub fn get(&self, key: &str) -> (r: Option<&String>)
        requires
            self.sorted(),
        ensures
            r matches Some(v) ==> self@.contains_key(key@) && v@ == self@[key@],
            r is None ==> !self@.contains_key(key@),
    {
        let kc = chars_of(key);
        let mut i: usize = 0;
        while i < self.entries.len()
            invariant
                self.sorted(),
                kc@ == key@,
                i <= self.entries@.len(),
                forall|j: int| 0 <= j < i ==> (#[trigger] self.entries@[j]).0@ != key@,
            decreases self.entries.len() - i,
        {
            if eq_chars(&chars_of(self.entries[i].0.as_str()), &kc) {
                proof {
                    self.lemma_slot(i as int);
                }
                return Some(&self.entries[i].1);
            }
            i = i + 1;
        }
        None
    }

    /// How many keys there are.
    pub fn len(&self) -> (r: usize)
        requires
            self.sorted(),
        ensures
            r == self@.dom().len(),
    {
        proof {
            let ks = self.key_seq();
            assert forall|a: int, b: int| 0 <= a < ks.len() && 0 <= b < ks.len() && a != b implies ks[a] != ks[b] by {
                if a < b {
                    assert(lex_lt(self.entries@[a].0@, self.entries@[b].0@));
                } else {
                    assert(lex_lt(self.entries@[b].0@, self.entries@[a].0@));
                }
                if ks[a] == ks[b] {
                    lemma_lex_irreflexive(ks[a]);
                }
            }
            ks.unique_seq_to_set();
            assert forall|k: Seq<char>| #[trigger] self@.dom().contains(k) == ks.to_set().contains(k) by {
                if ks.contains(k) {
                    let j = choose|j: int| 0 <= j < ks.len() && ks[j] == k;
                    assert(self.entries@[j].0@ == k);
                }
                if self@.dom().contains(k) {
                    let j = choose|j: int| 0 <= j < self.entries@.len() && self.entries@[j].0@ == k;
                    assert(ks[j] == k);
                }
            }
            assert(self@.dom() =~= ks.to_set());
        }
        self.entries.len()
    }

    pub fn is_empty(&self) -> (r: bool)
        requires
            self.sorted(),
        ensures
            r == (self@.dom().len() == 0),
    {
        self.len() == 0
    }

    /// Every key, in increasing order.
    pub fn keys(&self) -> (r: Vec<String>)
        requires
            self.sorted(),
        ensures
            str_views(r@) == key_order(self@),
    {
        let mut r: Vec<String> = Vec::new();
        let mut i: usize = 0;
        while i < self.entries.len()
            invariant
                self.sorted(),
                i <= self.entries@.len(),
                r@.len() == i,
                forall|j: int| 0 <= j < i ==> #[trigger] r@[j]@ == self.entries@[j].0@,
            decreases self.entries.len() - i,
        {
            r.push(self.entries[i].0.clone());
            i = i + 1;
        }
        proof {
            assert forall|a: int, b: int| 0 <= a < b < r@.len() implies lex_lt(#[trigger] r@[a]@, #[trigger] r@[b]@) by {
                assert(lex_lt(self.entries@[a].0@, self.entries@[b].0@));
            }
            assert forall|k: Seq<char>| self@.contains_key(k) <==> exists|i: int| 0 <= i < r@.len() && #[trigger] r@[i]@ == k by {
                if self@.contains_key(k) {
                    let j = choose|j: int| 0 <= j < self.entries@.len() && self.entries@[j].0@ == k;
                    assert(r@[j]@ == k);
                }
                if exists|i: int| 0 <= i < r@.len() && #[trigger] r@[i]@ == k {
                    let j = choose|i: int| 0 <= i < r@.len() && #[trigger] r@[i]@ == k;
                    assert(self.entries@[j].0@ == k);
                }
            }
            let ks = str_views(r@);
            assert forall|a: int, b: int| 0 <= a < b < ks.len() implies lex_lt(#[trigger] ks[a], #[trigger] ks[b]) by {
                assert(lex_lt(r@[a]@, r@[b]@));
            }
            assert forall|k: Seq<char>| #[trigger] ks.contains(k) <==> self@.contains_key(k) by {
                if ks.contains(k) {
                    let j = choose|j: int| 0 <= j < ks.len() && ks[j] == k;
                    assert(r@[j]@ == k);
                }
                if self@.contains_key(k) {
                    let j = choose|i: int| 0 <= i < r@.len() && #[trigger] r@[i]@ == k;
                    assert(ks[j] == k);
                }
            }
            lemma_key_order(self@, ks);
        }
        r
    }
}

// ---------------------------------------------------------------------------------------
// What the readers read
// ---------------------------------------------------------------------------------------

/// `trim_end_matches(['\n', '\r'])`.
pub open spec fn trim_newlines(s: Seq<char>) -> Seq<char>
    decreases s.len(),
{
    if s.len() > 0 && (s.last() == '\n' || s.last() == '\r') {
        trim_newlines(s.drop_last())
    } else {
        s
    }
}

/// `trim_end_matches('\r')`.
pub open spec fn trim_crs(s: Seq<char>) -> Seq<char>
    decreases s.len(),
{
    if s.len() > 0 && s.last() == '\r' {
        trim_crs(s.drop_last())
    } else {
        s
    }
}

pub open spec fn has_ws(s: Seq<char>) -> bool {
    exists|i: int| 0 <= i < s.len() && is_ws(#[trigger] s[i])
}

/// `key: value`, split at the **first** colon so values may contain colons. The key is
/// trimmed and must be a non-empty word; the value is trimmed.
pub open spec fn pair_of(line: Seq<char>) -> Option<(Seq<char>, Seq<char>)> {
    let i = index_of(line, ':') as int;
    let key = trim(line.take(i));
    if i < line.len() && key.len() > 0 && !has_ws(key) {
        Some((key, trim(line.skip(i + 1))))
    } else {
        None
    }
}

/// A line that opens or closes a header.
pub open spec fn is_fence(piece: Seq<char>) -> bool {
    trim_newlines(piece) == seq!['-', '-', '-']
}

/// The position of the first fence among `ps`, or `ps.len()`.
pub open spec fn first_fence(ps: Seq<Seq<char>>) -> nat
    decreases ps.len(),
{
    if ps.len() == 0 {
        0
    } else if is_fence(ps[0]) {
        0
    } else {
        1 + first_fence(ps.drop_first())
    }
}

/// The fields a run of header lines declares; a later line wins.
pub open spec fn header_fields(ps: Seq<Seq<char>>) -> Map<Seq<char>, Seq<char>>
    decreases ps.len(),
{
    if ps.len() == 0 {
        Map::empty()
    } else {
        let m = header_fields(ps.drop_last());
        match pair_of(trim_newlines(ps.last())) {
            Some((k, v)) => m.insert(k, v),
            None => m,
        }
    }
}

/// The position among the pieces of `src` of the line closing its header.
pub open spec fn closing_fence(src: Seq<char>) -> int {
    1 + first_fence(pieces(src).skip(1)) as int
}

/// `src` opens with `---` and has a later line that closes the header.
pub open spec fn has_header(src: Seq<char>) -> bool {
    let ps = pieces(src);
    ps.len() > 0 && is_fence(ps[0]) && closing_fence(src) < ps.len()
}

/// The fields of a document: those of its header, or none.
pub open spec fn document_fields(src: Seq<char>) -> Map<Seq<char>, Seq<char>> {
    if has_header(src) {
        header_fields(pieces(src).subrange(1, closing_fence(src)))
    } else {
        Map::empty()
    }
}

/// The body of a document: what follows the closing fence, or the whole document.
pub open spec fn document_body(src: Seq<char>) -> Seq<char> {
    if has_header(src) {
        concat(pieces(src).skip(closing_fence(src) + 1))
    } else {
        src
    }
}

/// The fields of a `.conf` file: each line that is not blank and not a `#` comment.
pub open spec fn conf_fields(ls: Seq<Seq<char>>) -> Map<Seq<char>, Seq<char>>
    decreases ls.len(),
{
    if ls.len() == 0 {
        Map::empty()
    } else {
        let m = conf_fields(ls.drop_last());
        let line = trim_crs(ls.last());
        if trim(line).len() == 0 || (trim_start(line).len() > 0 && trim_start(line)[0] == '#') {
            m
        } else {
            match pair_of(line) {
                Some((k, v)) => m.insert(k, v),
                None => m,
            }
        }
    }
}

/// The entries of a comma-separated list: each trimmed, empties dropped.
pub open spec fn list_items(parts: Seq<Seq<char>>) -> Seq<Seq<char>>
    decreases parts.len(),
{
    if parts.len() == 0 {
        seq![]
    } else {
        let r = list_items(parts.drop_last());
        let t = trim(parts.last());
        if t.len() == 0 {
            r
        } else {
            r.push(t)
        }
    }
}

proof fn lemma_first_fence(ps: Seq<Seq<char>>, i: int)
    requires
        0 <= i <= ps.len(),
        forall|j: int| 0 <= j < i ==> !is_fence(#[trigger] ps[j]),
        i < ps.len() ==> is_fence(ps[i]),
    ensures
        first_fence(ps) == i,
    decreases i,
{
    if i > 0 {
        assert(!is_fence(ps[0]));
        lemma_first_fence(ps.drop_first(), i - 1);
    }
}

// ---------------------------------------------------------------------------------------
// The readers
// ---------------------------------------------------------------------------------------

fn trim_newlines_exec(v: &[char]) -> (r: Vec<char>)
    ensures
        r@ == trim_newlines(v@),
{
    let mut k = v.len();
    assert(v@.take(k as int) =~= v@);
    while k > 0 && (v[k - 1] == '\n' || v[k - 1] == '\r')
        invariant
            k <= v@.len(),
            trim_newlines(v@) == trim_newlines(v@.take(k as int)),
        decreases k,
    {
        assert(v@.take(k as int).drop_last() =~= v@.take(k - 1));
        k = k - 1;
    }
    slice_of(v, 0, k)
}

fn trim_crs_exec(v: &[char]) -> (r: Vec<char>)
    ensures
        r@ == trim_crs(v@),
{
    let mut k = v.len();
    assert(v@.take(k as int) =~= v@);
    while k > 0 && v[k - 1] == '\r'
        invariant
            k <= v@.len(),
            trim_crs(v@) == trim_crs(v@.take(k as int)),
        decreases k,
    {
        assert(v@.take(k as int).drop_last() =~= v@.take(k - 1));
        k = k - 1;
    }
    slice_of(v, 0, k)
}

fn has_ws_exec(v: &[char]) -> (r: bool)
    ensures
        r == has_ws(v@),
{
    let mut i: usize = 0;
    while i < v.len()
        invariant
            i <= v@.len(),
            forall|j: int| 0 <= j < i ==> !is_ws(#[trigger] v@[j]),
        decreases v.len() - i,
    {
        if is_ws_char(v[i]) {
            return true;
        }
        i = i + 1;
    }
    false
}

fn is_fence_exec(v: &[char]) -> (r: bool)
    ensures
        r == is_fence(v@),
{
    let t = trim_newlines_exec(v);
    let r = t.len() == 3 && t[0] == '-' && t[1] == '-' && t[2] == '-';
    assert(r ==> t@ =~= seq!['-', '-', '-']);
    r
}

/// The key and value of one line, as `pair_of` describes.
fn split_pair(line: &[char]) -> (r: Option<(Vec<char>, Vec<char>)>)
    ensures
        match r {
            Some((k, v)) => pair_of(line@) == Some((k@, v@)),
            None => pair_of(line@) is None,
        },
{
    let i = index_of_from(line, 0, ':');
    assert(line@.skip(0) =~= line@);
    let key = trim_exec(&slice_of(line, 0, i));
    assert(line@.subrange(0, i as int) =~= line@.take(i as int));
    if i < line.len() && key.len() > 0 && !has_ws_exec(&key) {
        let value = trim_exec(&slice_of(line, i + 1, line.len()));
        assert(line@.subrange(i + 1, line@.len() as int) =~= line@.skip(i + 1));
        Some((key, value))
    } else {
        None
    }
}

/// A document split into its flat header and the body that follows.
pub struct Split<'a> {
    pub fields: Fields,
    pub body: &'a str,
}

impl Split<'_> {
    /// The value of `key`; a missing key reads as empty.
    pub fn get(&self, key: &str) -> (r: &str)
        requires
            self.fields.sorted(),
        ensures
            r@ == (if self.fields@.contains_key(key@) { self.fields@[key@] } else { Seq::empty() }),
    {
        match self.fields.get(key) {
            Some(v) => v.as_str(),
            None => {
                proof {
                    reveal_strlit("");
                }
                ""
            },
        }
    }

    /// The value of `key`, read as a comma-separated list.
    pub fn list(&self, key: &str) -> (r: Vec<String>)
        requires
            self.fields.sorted(),
        ensures
            str_views(r@) == list_items(split_on(
                if self.fields@.contains_key(key@) { self.fields@[key@] } else { Seq::empty() },
                ',',
            )),
    {
        split_list(self.get(key))
    }
}

/// Split a markdown document into frontmatter and body.
///
/// A document that does not open with `---` has no frontmatter and is all body. An
/// unterminated header is treated the same way rather than guessed at — a rule with a
/// missing closing `---` should fail to resolve loudly, not acquire a body that starts
/// halfway through its own header.
pub fn split_document(src: &str) -> (r: Split<'_>)
    ensures
        r.fields.sorted(),
        r.fields@ == document_fields(src@),
        r.body@ == document_body(src@),
{
    let v = chars_of(src);
    let ps = pieces_of(&v);
    let ghost pv = views(ps@);
    assert(pv.len() == ps@.len());
    if ps.len() == 0 || !is_fence_exec(&ps[0]) {
        return Split { fields: Fields::new(), body: src };
    }
    let mut fields = Fields::new();
    let mut offset: usize = ps[0].len();
    let mut i: usize = 1;
    proof {
        lemma_concat_pieces(v@);
        assert(pv.take(1) =~= seq![pv[0]]);
        crate::text::lemma_concat_single(pv[0]);
        assert(pv.subrange(1, 1) =~= Seq::<Seq<char>>::empty());
    }
    while i < ps.len()
        invariant
            1 <= i <= ps@.len(),
            pv == views(ps@),
            pv == pieces(src@),
            v@ == src@,
            v@.len() == v.len(),
            concat(pv) == src@,
            pv.len() > 0 && is_fence(pv[0]),
            fields.sorted(),
            fields@ == header_fields(pv.subrange(1, i as int)),
            offset == concat(pv.take(i as int)).len(),
            forall|j: int| 1 <= j < i ==> !is_fence(#[trigger] pv[j]),
        decreases ps.len() - i,
    {
        assert(ps@[i as int]@ == pv[i as int]);
        proof {
            lemma_concat_append(pv.take(i as int), seq![pv[i as int]]);
            crate::text::lemma_concat_single(pv[i as int]);
            assert(pv.take(i as int) + seq![pv[i as int]] =~= pv.take(i + 1));
            lemma_concat_append(pv.take(i + 1), pv.skip(i + 1));
            assert(pv.take(i + 1) + pv.skip(i + 1) =~= pv);
            assert(concat(pv.take(i + 1)).len() == offset + pv[i as int].len());
            assert(concat(pv.take(i + 1)).len() <= src@.len());
        }
        if is_fence_exec(&ps[i]) {
            let end = offset + ps[i].len();
            proof {
                lemma_first_fence(pv.skip(1), i - 1);
                assert forall|j: int| 0 <= j < i - 1 implies !is_fence(#[trigger] pv.skip(1)[j]) by {
                    assert(pv.skip(1)[j] == pv[j + 1]);
                }
                lemma_first_fence(pv.skip(1), i - 1);
                assert(src@.skip(end as int) =~= concat(pv.skip(i + 1)));
            }
            return Split { fields, body: src.substring_char(end, v.len()) };
        }
        let t = trim_newlines_exec(&ps[i]);
        match split_pair(&t) {
            Some((k, val)) => {
                fields.insert(string_of(&k), string_of(&val));
            },
            None => {},
        }
        assert(pv.subrange(1, i + 1).drop_last() =~= pv.subrange(1, i as int));
        offset = offset + ps[i].len();
        i = i + 1;
    }
    proof {
        assert forall|j: int| 0 <= j < pv.len() - 1 implies !is_fence(#[trigger] pv.skip(1)[j]) by {
            assert(pv.skip(1)[j] == pv[j + 1]);
        }
        lemma_first_fence(pv.skip(1), pv.len() - 1);
    }
    // Unterminated header: do not guess where the body starts.
    Split { fields: Fields::new(), body: src }
}

/// Parse a flat `key: value` config. `#` comments and blank lines are skipped.
pub fn parse_conf(src: &str) -> (r: Fields)
    ensures
        r.sorted(),
        r@ == conf_fields(lines(src@)),
{
    let v = chars_of(src);
    let ls = lines_of(&v);
    let ghost lv = views(ls@);
    let mut fields = Fields::new();
    let mut i: usize = 0;
    while i < ls.len()
        invariant
            i <= ls@.len(),
            lv == views(ls@),
            lv == lines(src@),
            fields.sorted(),
            fields@ == conf_fields(lv.take(i as int)),
        decreases ls.len() - i,
    {
        assert(lv.take(i + 1).drop_last() =~= lv.take(i as int));
        assert(ls@[i as int]@ == lv[i as int]);
        let line = trim_crs_exec(&ls[i]);
        let lead = trim_start_len(&line);
        let blank = trim_exec(&line).len() == 0;
        let comment = lead < line.len() && line[lead] == '#';
        if !blank && !comment {
            match split_pair(&line) {
                Some((k, val)) => {
                    fields.insert(string_of(&k), string_of(&val));
                },
                None => {},
            }
        }
        i = i + 1;
    }
    assert(lv.take(ls@.len() as int) =~= lv);
    fields
}

/// Split a comma-separated list, trimming entries and dropping empties.
pub fn split_list(value: &str) -> (r: Vec<String>)
    ensures
        str_views(r@) == list_items(split_on(value@, ',')),
{
    let v = chars_of(value);
    let parts = split_char(&v, ',');
    let ghost pv = views(parts@);
    let mut r: Vec<String> = Vec::new();
    let mut i: usize = 0;
    while i < parts.len()
        invariant
            i <= parts@.len(),
            pv == views(parts@),
            pv == split_on(value@, ','),
            str_views(r@) == list_items(pv.take(i as int)),
        decreases parts.len() - i,
    {
        assert(pv.take(i + 1).drop_last() =~= pv.take(i as int));
        assert(parts@[i as int]@ == pv[i as int]);
        let t = trim_exec(&parts[i]);
        let ghost before = r@;
        if t.len() > 0 {
            r.push(string_of(&t));
            assert(str_views(r@) =~= str_views(before).push(t@));
        }
        i = i + 1;
    }
    assert(pv.take(parts@.len() as int) =~= pv);
    r
}

} // verus!
