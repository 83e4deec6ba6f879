//! The few launcher choices that should still be there tomorrow.
//!
//! One `key=value` line per setting. Blank lines and lines starting with `#`
//! are skipped, keys and values are trimmed, and a later line for the same key
//! wins. Unknown keys are kept and written back untouched, so an older build
//! reading a newer file doesn't quietly drop settings it didn't recognise.
//!
//! Settings are kept in key order (the order `String` compares in, which for
//! UTF-8 is code point order), and written back in that order.

use vstd::prelude::*;
use crate::text::{chars_of, is_white_space, trim, trim_bounds, trim_end, trim_start};

verus! {

// ------------------------------------------------------------- key order

/// Lexicographic order of character sequences by code point.
pub open spec fn seq_lt(a: Seq<char>, b: Seq<char>) -> bool
    decreases a.len(),
{
    if b.len() == 0 {
        false
    } else if a.len() == 0 {
        true
    } else if a[0] != b[0] {
        (a[0] as u32) < (b[0] as u32)
    } else {
        seq_lt(a.drop_first(), b.drop_first())
    }
}

pub proof fn lemma_seq_lt_irreflexive(a: Seq<char>)
    ensures
        !seq_lt(a, a),
    decreases a.len(),
{
    if a.len() > 0 {
        lemma_seq_lt_irreflexive(a.drop_first());
    }
}

pub proof fn lemma_seq_lt_transitive(a: Seq<char>, b: Seq<char>, c: Seq<char>)
    requires
        seq_lt(a, b),
        seq_lt(b, c),
    ensures
        seq_lt(a, c),
    decreases a.len(),
{
    if a.len() > 0 && b.len() > 0 && c.len() > 0 && a[0] == b[0] && b[0] == c[0] {
        lemma_seq_lt_transitive(a.drop_first(), b.drop_first(), c.drop_first());
    }
}

pub proof fn lemma_seq_lt_total(a: Seq<char>, b: Seq<char>)
    requires
        a != b,
    ensures
        seq_lt(a, b) || seq_lt(b, a),
    decreases a.len(),
{
    if a.len() > 0 && b.len() > 0 && a[0] == b[0] {
        if a.drop_first() == b.drop_first() {
            assert(a =~= seq![a[0]] + a.drop_first());
            assert(b =~= seq![b[0]] + b.drop_first());
        }
        lemma_seq_lt_total(a.drop_first(), b.drop_first());
    } else if a.len() == 0 && b.len() == 0 {
        assert(a =~= b);
    } else if a.len() > 0 && b.len() > 0 {
        if (a[0] as u32) == (b[0] as u32) {
            vstd::utf8::char_u32_cast(a[0], a[0] as u32);
            vstd::utf8::char_u32_cast(b[0], b[0] as u32);
        }
    }
}

/// Compares two character sequences in key order.
fn chars_lt(a: &Vec<char>, b: &Vec<char>) -> (r: bool)
    ensures
        r == seq_lt(a@, b@),
{
    let mut i: usize = 0;
    assert(a@.subrange(0, a@.len() as int) =~= a@);
    assert(b@.subrange(0, b@.len() as int) =~= b@);
    while i < a.len() && i < b.len() && a[i] == b[i]
        invariant
            i <= a@.len(),
            i <= b@.len(),
            seq_lt(a@, b@) == seq_lt(a@.subrange(i as int, a@.len() as int), b@.subrange(i as int, b@.len() as int)),
        decreases a@.len() - i,
    {
        assert(a@.subrange(i as int, a@.len() as int).drop_first() =~= a@.subrange(i + 1 as int, a@.len() as int));
        assert(b@.subrange(i as int, b@.len() as int).drop_first() =~= b@.subrange(i + 1 as int, b@.len() as int));
        i = i + 1;
    }
    if i == b.len() {
        false
    } else if i == a.len() {
        true
    } else {
        (a[i] as u32) < (b[i] as u32)
    }
}

/// Whether two character sequences are equal.
fn chars_eq(a: &Vec<char>, b: &Vec<char>) -> (r: bool)
    ensures
        r == (a@ == b@),
{
    if a.len() != b.len() {
        return false;
    }
    let mut i: usize = 0;
    while i < a.len()
        invariant
            a@.len() == b@.len(),
            i <= a@.len(),
            forall|k: int| 0 <= k < i ==> a@[k] == b@[k],
        decreases a@.len() - i,
    {
        if a[i] != b[i] {
            return false;
        }
        i = i + 1;
    }
    assert(a@ =~= b@);
    true
}

// ------------------------------------------------------------ the model

/// The map an ordered list of settings stands for: each entry in turn
/// inserted into `m`.
pub open spec fn fold_insert(
    m: Map<Seq<char>, Seq<char>>,
    es: Seq<(Seq<char>, Seq<char>)>,
) -> Map<Seq<char>, Seq<char>>
    decreases es.len(),
{
    if es.len() == 0 {
        m
    } else {
        fold_insert(m.insert(es[0].0, es[0].1), es.drop_first())
    }
}

/// Keys strictly increasing (so also distinct).
pub open spec fn sorted_keys(es: Seq<(Seq<char>, Seq<char>)>) -> bool {
    forall|i: int, j: int| 0 <= i < j < es.len() ==> seq_lt(#[trigger] es[i].0, #[trigger] es[j].0)
}

/// Keys pairwise distinct.
pub open spec fn distinct_keys(es: Seq<(Seq<char>, Seq<char>)>) -> bool {
    forall|i: int, j: int| 0 <= i < es.len() && 0 <= j < es.len() && i != j ==> #[trigger] es[i].0 != #[trigger] es[j].0
}

/// What [fold_insert] gives for a key.
pub proof fn lemma_fold_insert_get(
    m: Map<Seq<char>, Seq<char>>,
    es: Seq<(Seq<char>, Seq<char>)>,
    k: Seq<char>,
)
    requires
        distinct_keys(es),
    ensures
        (exists|i: int| 0 <= i < es.len() && es[i].0 == k) ==> {
            let i = choose|i: int| 0 <= i < es.len() && es[i].0 == k;
            &&& fold_insert(m, es).contains_key(k)
            &&& fold_insert(m, es)[k] == es[i].1
        },
        !(exists|i: int| 0 <= i < es.len() && es[i].0 == k) ==> {
            &&& fold_insert(m, es).contains_key(k) == m.contains_key(k)
            &&& fold_insert(m, es)[k] == m[k]
        },
    decreases es.len(),
{
    if es.len() > 0 {
        let rest = es.drop_first();
        assert(distinct_keys(rest)) by {
            assert forall|i: int, j: int| 0 <= i < rest.len() && 0 <= j < rest.len() && i != j implies #[trigger] rest[i].0 != #[trigger] rest[j].0 by {
                assert(rest[i] == es[i + 1]);
                assert(rest[j] == es[j + 1]);
            }
        }
        lemma_fold_insert_get(m.insert(es[0].0, es[0].1), rest, k);
        if exists|i: int| 0 <= i < es.len() && es[i].0 == k {
            let i = choose|i: int| 0 <= i < es.len() && es[i].0 == k;
            if i == 0 {
                assert(!(exists|j: int| 0 <= j < rest.len() && rest[j].0 == k)) by {
                    if exists|j: int| 0 <= j < rest.len() && rest[j].0 == k {
                        let j = choose|j: int| 0 <= j < rest.len() && rest[j].0 == k;
                        assert(es[j + 1].0 == es[0].0);
                    }
                }
            } else {
                assert(rest[i - 1].0 == k);
                let j = choose|j: int| 0 <= j < rest.len() && rest[j].0 == k;
                assert(es[j + 1].0 == k);
                assert(j + 1 == i);
            }
        } else {
            assert(!(exists|j: int| 0 <= j < rest.len() && rest[j].0 == k)) by {
                if exists|j: int| 0 <= j < rest.len() && rest[j].0 == k {
                    let j = choose|j: int| 0 <= j < rest.len() && rest[j].0 == k;
                    assert(es[j + 1].0 == k);
                }
            }
            assert(es[0].0 != k);
        }
    }
}

/// Sorted keys are distinct.
pub proof fn lemma_sorted_distinct(es: Seq<(Seq<char>, Seq<char>)>)
    requires
        sorted_keys(es),
    ensures
        distinct_keys(es),
{
    assert forall|i: int, j: int| 0 <= i < es.len() && 0 <= j < es.len() && i != j implies #[trigger] es[i].0 != #[trigger] es[j].0 by {
        if i < j {
            assert(seq_lt(es[i].0, es[j].0));
        } else {
            assert(seq_lt(es[j].0, es[i].0));
        }
        lemma_seq_lt_irreflexive(es[i].0);
    }
}

/// Launcher preferences: a map from key to value.
pub struct Prefs {
    entries: Vec<(String, String)>,
}

/// The views of a list of stored settings.
pub open spec fn entry_views(es: Seq<(String, String)>) -> Seq<(Seq<char>, Seq<char>)> {
    Seq::new(es.len(), |i: int| (es[i].0@, es[i].1@))
}

impl View for Prefs {
    type V = Map<Seq<char>, Seq<char>>;

    closed spec fn view(&self) -> Map<Seq<char>, Seq<char>> {
        fold_insert(Map::empty(), entry_views(self.entries@))
    }
}

impl Prefs {
    /// The settings in the order they are kept and written: by key.
    pub closed spec fn entries(&self) -> Seq<(Seq<char>, Seq<char>)> {
        entry_views(self.entries@)
    }

    /// Well-formed: the settings are kept in strictly increasing key order.
    pub closed spec fn wf(&self) -> bool {
        sorted_keys(self.entries())
    }

    /// No settings.
    pub fn new() -> (r: Prefs)
        ensures
            r.wf(),
            r@ == Map::<Seq<char>, Seq<char>>::empty(),
            r.entries().len() == 0,
    {
        let r = Prefs { entries: Vec::new() };
        assert(entry_views(r.entries@) =~= Seq::empty());
        r
    }

    /// Index of `key` in the list, or where it would go to keep key order.
    fn position(&self, key: &Vec<char>) -> (r: (usize, bool))
        requires
            self.wf(),
        ensures
            r.0 <= self.entries().len(),
            forall|i: int| 0 <= i < r.0 ==> seq_lt(#[trigger] self.entries()[i].0, key@),
            r.1 ==> r.0 < self.entries().len() && self.entries()[r.0 as int].0 == key@,
            !r.1 ==> forall|i: int| r.0 <= i < self.entries().len() ==> seq_lt(key@, #[trigger] self.entries()[i].0),
    {
        let ghost es = self.entries();
        let mut i: usize = 0;
        while i < self.entries.len()
            invariant
                es == self.entries(),
                sorted_keys(es),
                i <= es.len(),
                forall|j: int| 0 <= j < i ==> seq_lt(#[trigger] es[j].0, key@),
            decreases es.len() - i,
        {
            let k = chars_of(self.entries[i].0.as_str());
            if !chars_lt(&k, key) {
                let same = chars_eq(&k, key);
                if !same {
                    proof {
                        lemma_seq_lt_total(k@, key@);
                        assert forall|j: int| i <= j < es.len() implies seq_lt(key@, #[trigger] es[j].0) by {
                            if j > i {
                                assert(seq_lt(es[i as int].0, es[j].0));
                                lemma_seq_lt_transitive(key@, es[i as int].0, es[j].0);
                            }
                        }
                    }
                }
                return (i, same);
            }
            i = i + 1;
        }
        (i, false)
    }

    /// The value stored for `key`, if any.
    pub fn get(&self, key: &str) -> (r: Option<&str>)
        requires
            self.wf(),
        ensures
            r is Some <==> self@.contains_key(key@),
            r matches Some(v) ==> v@ == self@[key@],
    {
        let kc = chars_of(key);
        let (i, found) = self.position(&kc);
        proof {
            let es = self.entries();
            lemma_sorted_distinct(es);
            lemma_fold_insert_get(Map::empty(), es, key@);
            if !found {
                assert(!(exists|j: int| 0 <= j < es.len() && es[j].0 == key@)) by {
                    if exists|j: int| 0 <= j < es.len() && es[j].0 == key@ {
                        let j = choose|j: int| 0 <= j < es.len() && es[j].0 == key@;
                        if j < i {
                            assert(seq_lt(es[j].0, key@));
                        } else {
                            assert(seq_lt(key@, es[j].0));
                        }
                        lemma_seq_lt_irreflexive(key@);
                    }
                }
            } else {
                assert(es[i as int].0 == key@);
                let j = choose|j: int| 0 <= j < es.len() && es[j].0 == key@;
                assert(j == i);
            }
        }
        if found {
            Some(self.entries[i].1.as_str())
        } else {
            None
        }
    }

    /// `value == "true"` / `"false"` for `key`, else `default`.
    pub fn bool(&self, key: &str, default: bool) -> (r: bool)
        requires
            self.wf(),
        ensures
            r == (if self@.contains_key(key@) && self@[key@] == "true"@ {
                true
            } else if self@.contains_key(key@) && self@[key@] == "false"@ {
                false
            } else {
                default
            }),
    {
        match self.get(key) {
            Some(v) => {
                let vc = chars_of(v);
                let t = chars_of("true");
                let f = chars_of("false");
                if chars_eq(&vc, &t) {
                    true
                } else if chars_eq(&vc, &f) {
                    false
                } else {
                    default
                }
            },
            None => default,
        }
    }

    /// Store `value` for `key`, replacing any earlier value.
    pub fn set(&mut self, key: &str, value: &str)
        requires
            old(self).wf(),
        ensures
            final(self).wf(),
            final(self)@ == old(self)@.insert(key@, value@),
    {
        let kc = chars_of(key);
        let (i, found) = self.position(&kc);
        let ghost es = self.entries();
        let entry: (String, String) = (key.to_owned(), value.to_owned());
        if found {
            self.entries.set(i, entry);
            proof {
                let es2 = self.entries();
                assert(es2 =~= es.update(i as int, (key@, value@)));
                assert(sorted_keys(es2)) by {
                    assert forall|a: int, b: int| 0 <= a < b < es2.len() implies seq_lt(#[trigger] es2[a].0, #[trigger] es2[b].0) by {
                        assert(seq_lt(es[a].0, es[b].0));
                    }
                }
                lemma_same_keys_update(es, i as int, value@);
            }
        } else {
            self.entries.insert(i, entry);
            proof {
                let es2 = self.entries();
                assert(es2 =~= es.insert(i as int, (key@, value@)));
                assert(sorted_keys(es2)) by {
                    assert forall|a: int, b: int| 0 <= a < b < es2.len() implies seq_lt(#[trigger] es2[a].0, #[trigger] es2[b].0) by {
                        if a < i && b < i {
                            assert(seq_lt(es[a].0, es[b].0));
                        } else if a < i && b == i {
                        } else if a < i {
                            assert(seq_lt(es[a].0, key@));
                            assert(seq_lt(key@, es[b - 1].0));
                            lemma_seq_lt_transitive(es[a].0, key@, es[b - 1].0);
                        } else if a == i {
                            assert(seq_lt(key@, es[b - 1].0));
                        } else {
                            assert(seq_lt(es[a - 1].0, es[b - 1].0));
                        }
                    }
                }
                lemma_sorted_distinct(es2);
                lemma_new_key_insert(es, i as int, key@, value@);
            }
        }
    }

    /// Store `"true"` or `"false"` for `key`.
    pub fn set_bool(&mut self, key: &str, value: bool)
        requires
            old(self).wf(),
        ensures
            final(self).wf(),
            final(self)@ == old(self)@.insert(key@, if value { "true"@ } else { "false"@ }),
    {
        self.set(key, if value { "true" } else { "false" });
    }
}

impl Prefs {
    /// The settings are kept, and written, as the map's entries in increasing
    /// key order: each stored entry is a setting of the map, each setting of
    /// the map is stored, and the keys increase.
    pub proof fn lemma_entries_in_key_order(&self)
        requires
            self.wf(),
        ensures
            sorted_keys(self.entries()),
            lists_map(self.entries(), self@),
    {
        let es = self.entries();
        lemma_sorted_distinct(es);
        assert forall|i: int| 0 <= i < es.len() implies #[trigger] self@.contains_key(es[i].0)
            && self@[es[i].0] == es[i].1 by {
            lemma_fold_insert_get(Map::empty(), es, es[i].0);
            let j = choose|j: int| 0 <= j < es.len() && es[j].0 == es[i].0;
            assert(j == i);
        }
        assert forall|k: Seq<char>| #[trigger] self@.contains_key(k) implies exists|i: int|
            0 <= i < es.len() && es[i].0 == k by {
            lemma_fold_insert_get(Map::empty(), es, k);
        }
    }
}

/// `es` lists exactly the settings of `m`: each entry is a setting of `m`,
/// and each key of `m` has an entry.
pub open spec fn lists_map(es: Seq<(Seq<char>, Seq<char>)>, m: Map<Seq<char>, Seq<char>>) -> bool {
    &&& forall|i: int| 0 <= i < es.len() ==> #[trigger] m.contains_key(es[i].0) && m[es[i].0] == es[i].1
    &&& forall|k: Seq<char>| #[trigger] m.contains_key(k) ==> exists|i: int| 0 <= i < es.len() && es[i].0 == k
}

/// Replacing the value of an entry changes the map at that key only.
pub proof fn lemma_same_keys_update(es: Seq<(Seq<char>, Seq<char>)>, i: int, v: Seq<char>)
    requires
        sorted_keys(es),
        0 <= i < es.len(),
    ensures
        fold_insert(Map::empty(), es.update(i, (es[i].0, v))) == fold_insert(Map::empty(), es).insert(es[i].0, v),
{
    let es2 = es.update(i, (es[i].0, v));
    lemma_sorted_distinct(es);
    assert(distinct_keys(es2)) by {
        assert forall|a: int, b: int| 0 <= a < es2.len() && 0 <= b < es2.len() && a != b implies #[trigger] es2[a].0 != #[trigger] es2[b].0 by {
            assert(es2[a].0 == es[a].0);
            assert(es2[b].0 == es[b].0);
        }
    }
    let m1 = fold_insert(Map::empty(), es2);
    let m2 = fold_insert(Map::empty(), es).insert(es[i].0, v);
    assert forall|k: Seq<char>| #[trigger] m1.contains_key(k) == m2.contains_key(k) && (m1.contains_key(k) ==> m1[k] == m2[k]) by {
        lemma_fold_insert_get(Map::empty(), es, k);
        lemma_fold_insert_get(Map::empty(), es2, k);
        if exists|j: int| 0 <= j < es.len() && es[j].0 == k {
            let j = choose|j: int| 0 <= j < es.len() && es[j].0 == k;
            assert(es2[j].0 == k);
            let j2 = choose|j: int| 0 <= j < es2.len() && es2[j].0 == k;
            assert(es[j2].0 == k);
        } else {
            assert(!(exists|j: int| 0 <= j < es2.len() && es2[j].0 == k)) by {
                if exists|j: int| 0 <= j < es2.len() && es2[j].0 == k {
                    let j = choose|j: int| 0 <= j < es2.len() && es2[j].0 == k;
                    assert(es[j].0 == k);
                }
            }
        }
    }
    assert(m1 =~= m2);
}

/// Adding an entry with a new key adds that key to the map.
pub proof fn lemma_new_key_insert(es: Seq<(Seq<char>, Seq<char>)>, i: int, k0: Seq<char>, v: Seq<char>)
    requires
        distinct_keys(es.insert(i, (k0, v))),
        0 <= i <= es.len(),
    ensures
        fold_insert(Map::empty(), es.insert(i, (k0, v))) == fold_insert(Map::empty(), es).insert(k0, v),
{
    let es2 = es.insert(i, (k0, v));
    assert(distinct_keys(es)) by {
        assert forall|a: int, b: int| 0 <= a < es.len() && 0 <= b < es.len() && a != b implies #[trigger] es[a].0 != #[trigger] es[b].0 by {
            let a2 = if a < i { a } else { a + 1 };
            let b2 = if b < i { b } else { b + 1 };
            assert(es2[a2] == es[a]);
            assert(es2[b2] == es[b]);
        }
    }
    let m1 = fold_insert(Map::empty(), es2);
    let m2 = fold_insert(Map::empty(), es).insert(k0, v);
    assert forall|k: Seq<char>| #[trigger] m1.contains_key(k) == m2.contains_key(k) && (m1.contains_key(k) ==> m1[k] == m2[k]) by {
        lemma_fold_insert_get(Map::empty(), es, k);
        lemma_fold_insert_get(Map::empty(), es2, k);
        assert(es2[i].0 == k0);
        if k == k0 {
            let j2 = choose|j: int| 0 <= j < es2.len() && es2[j].0 == k;
            assert(j2 == i);
        } else if exists|j: int| 0 <= j < es.len() && es[j].0 == k {
            let j = choose|j: int| 0 <= j < es.len() && es[j].0 == k;
            let jj = if j < i { j } else { j + 1 };
            assert(es2[jj] == es[j]);
            let j2 = choose|j: int| 0 <= j < es2.len() && es2[j].0 == k;
            assert(j2 == jj);
        } else {
            assert(!(exists|j: int| 0 <= j < es2.len() && es2[j].0 == k)) by {
                if exists|j: int| 0 <= j < es2.len() && es2[j].0 == k {
                    let j = choose|j: int| 0 <= j < es2.len() && es2[j].0 == k;
                    if j < i {
                        assert(es[j] == es2[j]);
                    } else if j > i {
                        assert(es[j - 1] == es2[j]);
                    }
                }
            }
        }
    }
    assert(m1 =~= m2);
}


// ----------------------------------------------------- the text format

/// First index at or after `i` where `s` holds `c`, or `s.len()` if none.
pub open spec fn find_from(s: Seq<char>, c: char, i: nat) -> nat
    decreases s.len() - i,
{
    if i >= s.len() {
        s.len()
    } else if s[i as int] == c {
        i
    } else {
        find_from(s, c, i + 1)
    }
}

pub proof fn lemma_find_from_bounds(s: Seq<char>, c: char, i: nat)
    requires
        i <= s.len(),
    ensures
        i <= find_from(s, c, i) <= s.len(),
    decreases s.len() - i,
{
    if i < s.len() && s[i as int] != c {
        lemma_find_from_bounds(s, c, i + 1);
    }
}

/// [find_from] is the first occurrence at or after `i`.
pub proof fn lemma_find_from(s: Seq<char>, c: char, i: nat, r: nat)
    requires
        i <= r <= s.len(),
        forall|k: int| i <= k < r ==> s[k] != c,
        r == s.len() || s[r as int] == c,
    ensures
        find_from(s, c, i) == r,
    decreases r - i,
{
    if i < r {
        lemma_find_from(s, c, i + 1, r);
    }
}

/// What one line of the file does to the settings read so far: after
/// trimming, a blank line or a `#` comment does nothing, and so does a line
/// without `=`; otherwise the trimmed text before the first `=` is the key
/// and the trimmed text after it the value.
pub open spec fn apply_line(m: Map<Seq<char>, Seq<char>>, line: Seq<char>) -> Map<
    Seq<char>,
    Seq<char>,
> {
    let t = trim(line);
    if t.len() == 0 || t[0] == '#' {
        m
    } else {
        let e = find_from(t, '=', 0);
        if e == t.len() {
            m
        } else {
            m.insert(trim(t.subrange(0, e as int)), trim(t.subrange(e + 1 as int, t.len() as int)))
        }
    }
}

/// The settings after reading the lines of `t` from index `start` on (lines
/// end at `'\n'`; a `'\r'` before it is white space and trimmed away).
pub open spec fn parse_from(m: Map<Seq<char>, Seq<char>>, t: Seq<char>, start: nat) -> Map<
    Seq<char>,
    Seq<char>,
>
    decreases t.len() + 1 - start,
{
    if start > t.len() {
        m
    } else {
        let e = find_from(t, '\n', start);
        proof {
            lemma_find_from_bounds(t, '\n', start);
        }
        let m2 = apply_line(m, t.subrange(start as int, e as int));
        if e >= t.len() {
            m2
        } else {
            parse_from(m2, t, e + 1)
        }
    }
}

/// The settings a file's text holds.
pub open spec fn parse_prefs(t: Seq<char>) -> Map<Seq<char>, Seq<char>> {
    parse_from(Map::empty(), t, 0)
}

/// How one setting is written: `key=value` and a newline.
pub open spec fn line_of(e: (Seq<char>, Seq<char>)) -> Seq<char> {
    e.0 + seq!['='] + e.1 + seq!['\n']
}

/// The file text for a list of settings, in order.
pub open spec fn text_of(es: Seq<(Seq<char>, Seq<char>)>) -> Seq<char>
    decreases es.len(),
{
    if es.len() == 0 {
        Seq::empty()
    } else {
        line_of(es[0]) + text_of(es.drop_first())
    }
}

pub proof fn lemma_text_of_push(es: Seq<(Seq<char>, Seq<char>)>, e: (Seq<char>, Seq<char>))
    ensures
        text_of(es.push(e)) == text_of(es) + line_of(e),
    decreases es.len(),
{
    if es.len() == 0 {
        assert(es.push(e).drop_first() =~= Seq::empty());
        assert(text_of(es.push(e)) =~= line_of(e) + text_of(Seq::<(Seq<char>, Seq<char>)>::empty()));
    } else {
        assert(es.push(e).drop_first() =~= es.drop_first().push(e));
        lemma_text_of_push(es.drop_first(), e);
        assert(text_of(es.push(e)) =~= line_of(es[0]) + text_of(es.drop_first().push(e)));
    }
}

/// Index of the first `c` in `cs[lo..hi]`, or `hi`.
pub(crate) fn find_in(cs: &Vec<char>, c: char, lo: usize, hi: usize) -> (r: usize)
    requires
        lo <= hi <= cs@.len(),
    ensures
        lo <= r <= hi,
        forall|k: int| lo <= k < r ==> cs@[k] != c,
        r == hi || cs@[r as int] == c,
{
    let mut i = lo;
    while i < hi && cs[i] != c
        invariant
            lo <= i <= hi <= cs@.len(),
            forall|k: int| lo <= k < i ==> cs@[k] != c,
        decreases hi - i,
    {
        i = i + 1;
    }
    i
}

impl Prefs {
    /// Applies the line `cs[start..end]` of `text`.
    fn take_line(&mut self, text: &str, cs: &Vec<char>, start: usize, end: usize)
        requires
            old(self).wf(),
            cs@ == text@,
            start <= end <= cs@.len(),
        ensures
            final(self).wf(),
            final(self)@ == apply_line(old(self)@, cs@.subrange(start as int, end as int)),
    {
        let ghost line = cs@.subrange(start as int, end as int);
        let (lo, hi) = trim_bounds(cs, start, end);
        let ghost t = cs@.subrange(lo as int, hi as int);
        if lo == hi || cs[lo] == '#' {
            return;
        }
        let eq = find_in(cs, '=', lo, hi);
        proof {
            lemma_find_from(t, '=', 0, (eq - lo) as nat);
        }
        if eq == hi {
            return;
        }
        let (klo, khi) = trim_bounds(cs, lo, eq);
        let (vlo, vhi) = trim_bounds(cs, eq + 1, hi);
        proof {
            assert(t.subrange(0, eq - lo) =~= cs@.subrange(lo as int, eq as int));
            assert(t.subrange(eq - lo + 1, t.len() as int) =~= cs@.subrange(eq + 1, hi as int));
        }
        let k = text.substring_char(klo, khi);
        let v = text.substring_char(vlo, vhi);
        self.set(k, v);
    }

    /// The settings a file's text holds (the reading half of loading them).
    pub fn parse(text: &str) -> (r: Prefs)
        ensures
            r.wf(),
            r@ == parse_prefs(text@),
    {
        let cs = chars_of(text);
        let mut p = Prefs::new();
        let mut start: usize = 0;
        loop
            invariant
                start <= cs@.len(),
                cs@ == text@,
                p.wf(),
                parse_prefs(cs@) == parse_from(p@, cs@, start as nat),
            ensures
                p.wf(),
                p@ == parse_prefs(text@),
            decreases cs@.len() - start,
        {
            let e = find_in(&cs, '\n', start, cs.len());
            proof {
                lemma_find_from(cs@, '\n', start as nat, e as nat);
            }
            p.take_line(text, &cs, start, e);
            if e >= cs.len() {
                break;
            }
            start = e + 1;
        }
        p
    }

    /// The file text: one `key=value` line per setting, in key order (the
    /// writing half of saving them).
    pub fn to_text(&self) -> (r: String)
        ensures
            r@ == text_of(self.entries()),
            self.wf() ==> sorted_keys(self.entries()) && lists_map(self.entries(), self@),
    {
        proof {
            if self.wf() {
                self.lemma_entries_in_key_order();
            }
        }
        let ghost es = self.entries();
        let mut out = String::new();
        let eq = "=";
        let nl = "\n";
        proof {
            reveal_strlit("=");
            reveal_strlit("\n");
        }
        let mut i: usize = 0;
        while i < self.entries.len()
            invariant
                es == self.entries(),
                i <= es.len(),
                eq@ == seq!['='],
                nl@ == seq!['\n'],
                out@ == text_of(es.take(i as int)),
            decreases es.len() - i,
        {
            out.append(self.entries[i].0.as_str());
            out.append(eq);
            out.append(self.entries[i].1.as_str());
            out.append(nl);
            proof {
                assert(es.take(i + 1) =~= es.take(i as int).push(es[i as int]));
                lemma_text_of_push(es.take(i as int), es[i as int]);
            }
            i = i + 1;
        }
        assert(es.take(es.len() as int) =~= es);
        out
    }
}


// ------------------------------------------------------------ round trip

/// A key that survives being written and read back: already trimmed, no `=`
/// or newline in it, and not starting with `#`.
pub open spec fn storable_key(k: Seq<char>) -> bool {
    &&& trim(k) == k
    &&& !k.contains('=')
    &&& !k.contains('\n')
    &&& (k.len() > 0 ==> k[0] != '#')
}

/// A value that survives being written and read back: already trimmed, no
/// newline in it.
pub open spec fn storable_value(v: Seq<char>) -> bool {
    &&& trim(v) == v
    &&& !v.contains('\n')
}

/// Every setting in `m` survives being written and read back.
pub open spec fn storable(m: Map<Seq<char>, Seq<char>>) -> bool {
    forall|k: Seq<char>| #[trigger] m.contains_key(k) ==> storable_key(k) && storable_value(m[k])
}

proof fn lemma_trim_start_len(s: Seq<char>)
    ensures
        trim_start(s).len() <= s.len(),
        s.len() > 0 && is_white_space(s[0]) ==> trim_start(s).len() < s.len(),
    decreases s.len(),
{
    if s.len() > 0 && is_white_space(s[0]) {
        lemma_trim_start_len(s.drop_first());
    }
}

proof fn lemma_trim_end_len(s: Seq<char>)
    ensures
        trim_end(s).len() <= s.len(),
        s.len() > 0 && is_white_space(s.last()) ==> trim_end(s).len() < s.len(),
    decreases s.len(),
{
    if s.len() > 0 && is_white_space(s.last()) {
        lemma_trim_end_len(s.drop_last());
    }
}

/// A trimmed non-empty text starts and ends with a non-white-space character.
proof fn lemma_trimmed_ends(s: Seq<char>)
    requires
        trim(s) == s,
        s.len() > 0,
    ensures
        !is_white_space(s[0]),
        !is_white_space(s.last()),
{
    lemma_trim_start_len(s);
    lemma_trim_end_len(trim_start(s));
    if !is_white_space(s[0]) {
        lemma_trim_end_len(s);
    }
}

/// A text that starts and ends with non-white-space is its own trim.
proof fn lemma_trim_noop(s: Seq<char>)
    requires
        s.len() > 0 ==> !is_white_space(s[0]) && !is_white_space(s.last()),
    ensures
        trim(s) == s,
{
}

/// Reading back a written `key=value` line gives that setting.
proof fn lemma_apply_written_line(m: Map<Seq<char>, Seq<char>>, k: Seq<char>, v: Seq<char>)
    requires
        storable_key(k),
        storable_value(v),
    ensures
        apply_line(m, k + seq!['='] + v) == m.insert(k, v),
{
    let l = k + seq!['='] + v;
    assert(!is_white_space('='));
    if k.len() > 0 {
        lemma_trimmed_ends(k);
        assert(l[0] == k[0]);
    } else {
        assert(l[0] == '=');
    }
    if v.len() > 0 {
        lemma_trimmed_ends(v);
        assert(l.last() == v.last());
    } else {
        assert(l.last() == '=');
    }
    lemma_trim_noop(l);
    assert(forall|i: int| 0 <= i < k.len() ==> l[i] == k[i]);
    assert forall|i: int| 0 <= i < k.len() implies l[i] != '=' by {
        if l[i] == '=' {
            assert(k.contains('='));
        }
    }
    lemma_find_from(l, '=', 0, k.len());
    assert(l.subrange(0, k.len() as int) =~= k);
    assert(l.subrange(k.len() + 1 as int, l.len() as int) =~= v);
}

/// Reading the written lines of storable settings, after any prefix, inserts
/// them in order.
proof fn lemma_read_written(
    m: Map<Seq<char>, Seq<char>>,
    prefix: Seq<char>,
    es: Seq<(Seq<char>, Seq<char>)>,
)
    requires
        forall|i: int| 0 <= i < es.len() ==> storable_key(#[trigger] es[i].0) && storable_value(es[i].1),
    ensures
        parse_from(m, prefix + text_of(es), prefix.len()) == fold_insert(m, es),
    decreases es.len(),
{
    let t = prefix + text_of(es);
    if es.len() == 0 {
        assert(t =~= prefix);
        lemma_find_from(t, '\n', prefix.len(), prefix.len());
        assert(t.subrange(prefix.len() as int, prefix.len() as int) =~= Seq::<char>::empty());
    } else {
        let (k, v) = es[0];
        let l = k + seq!['='] + v;
        let rest = es.drop_first();
        let p2 = prefix + line_of(es[0]);
        assert(t =~= p2 + text_of(rest));
        assert(storable_key(k) && storable_value(v));
        let e = prefix.len() + l.len();
        assert forall|i: int| prefix.len() <= i < e implies t[i] != '\n' by {
            let j = i - prefix.len();
            assert(t[i] == l[j]);
            if j < k.len() {
                assert(l[j] == k[j]);
                if k[j] == '\n' {
                    assert(k.contains('\n'));
                }
            } else if j > k.len() {
                assert(l[j] == v[j - k.len() - 1]);
                if v[j - k.len() - 1] == '\n' {
                    assert(v.contains('\n'));
                }
            }
        }
        assert(t[e as int] == '\n');
        lemma_find_from(t, '\n', prefix.len(), e as nat);
        assert(t.subrange(prefix.len() as int, e as int) =~= l);
        lemma_apply_written_line(m, k, v);
        assert(p2.len() == e + 1);
        lemma_read_written(m.insert(k, v), p2, rest);
    }
}

impl Prefs {
    /// Writing the settings out and reading the text back gives the same
    /// settings, provided each key and value is storable (see [storable]).
    pub proof fn lemma_text_roundtrip(&self)
        requires
            self.wf(),
            storable(self@),
        ensures
            parse_prefs(text_of(self.entries())) == self@,
    {
        let es = self.entries();
        lemma_sorted_distinct(es);
        assert forall|i: int| 0 <= i < es.len() implies storable_key(#[trigger] es[i].0) && storable_value(es[i].1) by {
            lemma_fold_insert_get(Map::empty(), es, es[i].0);
            let j = choose|j: int| 0 <= j < es.len() && es[j].0 == es[i].0;
            assert(j == i);
            assert(self@.contains_key(es[i].0));
        }
        lemma_read_written(Map::empty(), Seq::empty(), es);
        assert(Seq::<char>::empty() + text_of(es) =~= text_of(es));
    }
}


// ------------------------------------------- what reading a file produces

proof fn lemma_trim_start_suffix(s: Seq<char>)
    ensures
        trim_start(s) == s.subrange(s.len() - trim_start(s).len(), s.len() as int),
        trim_start(s).len() <= s.len(),
        trim_start(s).len() > 0 ==> !is_white_space(trim_start(s)[0]),
    decreases s.len(),
{
    if s.len() > 0 && is_white_space(s[0]) {
        lemma_trim_start_suffix(s.drop_first());
        let t = trim_start(s.drop_first());
        assert(s.drop_first().subrange(s.drop_first().len() - t.len(), s.drop_first().len() as int)
            =~= s.subrange(s.len() - t.len(), s.len() as int));
    } else {
        assert(s.subrange(0, s.len() as int) =~= s);
    }
}

proof fn lemma_trim_end_prefix(s: Seq<char>)
    ensures
        trim_end(s) == s.subrange(0, trim_end(s).len() as int),
        trim_end(s).len() <= s.len(),
        trim_end(s).len() > 0 ==> !is_white_space(trim_end(s).last()),
    decreases s.len(),
{
    if s.len() > 0 && is_white_space(s.last()) {
        lemma_trim_end_prefix(s.drop_last());
        let t = trim_end(s.drop_last());
        assert(s.drop_last().subrange(0, t.len() as int) =~= s.subrange(0, t.len() as int));
    } else {
        assert(s.subrange(0, s.len() as int) =~= s);
    }
}

/// The trim of `s` is a stretch of `s`, is its own trim, and (when not empty)
/// starts with the first non-white-space character of `s`.
proof fn lemma_trim_facts(s: Seq<char>)
    ensures
        exists|a: int| #![trigger s.subrange(a, a + trim(s).len())]
            0 <= a && a + trim(s).len() <= s.len() && trim(s) == s.subrange(a, a + trim(s).len()),
        trim(trim(s)) == trim(s),
        s.len() > 0 && !is_white_space(s[0]) && trim(s).len() > 0 ==> trim(s)[0] == s[0],
{
    lemma_trim_start_suffix(s);
    let ts = trim_start(s);
    lemma_trim_end_prefix(ts);
    let t = trim(s);
    let a = s.len() - ts.len();
    assert(t =~= s.subrange(a, a + t.len()));
    if t.len() > 0 {
        assert(t[0] == ts[0]);
        assert(!is_white_space(t[0]));
    }
    lemma_trim_noop(t);
}

/// A character of the trim of `s` is a character of `s`.
proof fn lemma_trim_contains(s: Seq<char>, c: char)
    ensures
        trim(s).contains(c) ==> s.contains(c),
{
    lemma_trim_facts(s);
    let t = trim(s);
    if t.contains(c) {
        let a = choose|a: int| #![trigger s.subrange(a, a + t.len())]
            0 <= a && a + t.len() <= s.len() && t == s.subrange(a, a + t.len());
        let i = choose|i: int| 0 <= i < t.len() && t[i] == c;
        assert(s[a + i] == c);
    }
}

/// Reading a line that has no newline keeps the settings storable.
proof fn lemma_apply_line_storable(m: Map<Seq<char>, Seq<char>>, line: Seq<char>)
    requires
        storable(m),
        !line.contains('\n'),
    ensures
        storable(apply_line(m, line)),
{
    let t = trim(line);
    lemma_trim_facts(line);
    lemma_trim_contains(line, '\n');
    if t.len() > 0 && t[0] != '#' {
        let e = find_from(t, '=', 0);
        lemma_find_from_bounds(t, '=', 0);
        if e < t.len() {
            lemma_find_from_props(t, '=', 0);
            let kr = t.subrange(0, e as int);
            let vr = t.subrange(e + 1 as int, t.len() as int);
            let k = trim(kr);
            let v = trim(vr);
            assert(!kr.contains('=')) by {
                if kr.contains('=') {
                    let i = choose|i: int| 0 <= i < kr.len() && kr[i] == '=';
                    assert(t[i] == '=');
                }
            }
            assert(!kr.contains('\n')) by {
                if kr.contains('\n') {
                    let i = choose|i: int| 0 <= i < kr.len() && kr[i] == '\n';
                    assert(t[i] == '\n');
                    assert(t.contains('\n'));
                }
            }
            assert(!vr.contains('\n')) by {
                if vr.contains('\n') {
                    let i = choose|i: int| 0 <= i < vr.len() && vr[i] == '\n';
                    assert(t[e + 1 + i] == '\n');
                    assert(t.contains('\n'));
                }
            }
            lemma_trim_contains(kr, '=');
            lemma_trim_contains(kr, '\n');
            lemma_trim_contains(vr, '\n');
            lemma_trim_facts(kr);
            lemma_trim_facts(vr);
            if k.len() > 0 {
                lemma_trimmed_ends(t);
                assert(kr[0] == t[0]);
                assert(k[0] == t[0]);
            }
            let m2 = apply_line(m, line);
            assert(m2 == m.insert(k, v));
            assert forall|key: Seq<char>| #[trigger] m2.contains_key(key) implies storable_key(key) && storable_value(m2[key]) by {
                if key != k {
                    assert(m.contains_key(key));
                }
            }
        }
    }
}

proof fn lemma_find_from_props(s: Seq<char>, c: char, i: nat)
    requires
        i <= s.len(),
    ensures
        forall|k: int| i <= k < find_from(s, c, i) ==> s[k] != c,
        find_from(s, c, i) == s.len() || s[find_from(s, c, i) as int] == c,
    decreases s.len() - i,
{
    if i < s.len() && s[i as int] != c {
        lemma_find_from_props(s, c, i + 1);
    }
}

proof fn lemma_parse_from_storable(m: Map<Seq<char>, Seq<char>>, t: Seq<char>, start: nat)
    requires
        storable(m),
    ensures
        storable(parse_from(m, t, start)),
    decreases t.len() + 1 - start,
{
    if start <= t.len() {
        let e = find_from(t, '\n', start);
        lemma_find_from_bounds(t, '\n', start);
        lemma_find_from_props(t, '\n', start);
        let line = t.subrange(start as int, e as int);
        assert(!line.contains('\n')) by {
            if line.contains('\n') {
                let i = choose|i: int| 0 <= i < line.len() && line[i] == '\n';
                assert(t[start + i] == '\n');
            }
        }
        lemma_apply_line_storable(m, line);
        if e < t.len() {
            lemma_parse_from_storable(apply_line(m, line), t, e + 1);
        }
    }
}

/// Every setting read from a file is storable, so whatever a file holds,
/// known keys or not, is written back unchanged and reads back the same.
pub proof fn lemma_parsed_storable(t: Seq<char>)
    ensures
        storable(parse_prefs(t)),
{
    lemma_parse_from_storable(Map::empty(), t, 0);
}

/// Storing a value and reading it back gives that value, and every other
/// setting reads as it did before.
pub proof fn lemma_set_then_get(
    before: Map<Seq<char>, Seq<char>>,
    key: Seq<char>,
    value: Seq<char>,
    other: Seq<char>,
)
    ensures
        before.insert(key, value).contains_key(key),
        before.insert(key, value)[key] == value,
        other != key ==> before.insert(key, value).contains_key(other) == before.contains_key(other),
        other != key && before.contains_key(other) ==> before.insert(key, value)[other] == before[other],
{
}

/// The value a sequence of writes leaves for `k`: that of the last write to
/// `k`, if there is one.
pub open spec fn last_write(writes: Seq<(Seq<char>, Seq<char>)>, k: Seq<char>) -> Option<Seq<char>>
    decreases writes.len(),
{
    if writes.len() == 0 {
        None
    } else if writes.last().0 == k {
        Some(writes.last().1)
    } else {
        last_write(writes.drop_last(), k)
    }
}

/// One more write at the end is one more insert.
pub proof fn lemma_fold_insert_push(
    m: Map<Seq<char>, Seq<char>>,
    writes: Seq<(Seq<char>, Seq<char>)>,
    w: (Seq<char>, Seq<char>),
)
    ensures
        fold_insert(m, writes.push(w)) == fold_insert(m, writes).insert(w.0, w.1),
    decreases writes.len(),
{
    if writes.len() > 0 {
        assert(writes.push(w).drop_first() =~= writes.drop_first().push(w));
        lemma_fold_insert_push(m.insert(writes[0].0, writes[0].1), writes.drop_first(), w);
    } else {
        let none = Seq::<(Seq<char>, Seq<char>)>::empty();
        assert(writes.push(w).drop_first() =~= none);
        assert(fold_insert(m.insert(w.0, w.1), none) == m.insert(w.0, w.1));
        assert(writes =~= none);
    }
}

/// Last write wins: after the settings `m` (those a file was read into, say)
/// get the writes `writes` in turn (each `set` or `set_bool` is one insert),
/// a key holds the value of its last write if it was written, and otherwise
/// what it held before; no other key appears.
pub proof fn lemma_last_write_wins(
    m: Map<Seq<char>, Seq<char>>,
    writes: Seq<(Seq<char>, Seq<char>)>,
    k: Seq<char>,
)
    ensures
        fold_insert(m, writes).contains_key(k) <==> (last_write(writes, k) is Some || m.contains_key(k)),
        last_write(writes, k) matches Some(v) ==> fold_insert(m, writes)[k] == v,
        last_write(writes, k) is None && m.contains_key(k) ==> fold_insert(m, writes)[k] == m[k],
    decreases writes.len(),
{
    if writes.len() > 0 {
        let init = writes.drop_last();
        assert(writes =~= init.push(writes.last()));
        lemma_fold_insert_push(m, init, writes.last());
        lemma_last_write_wins(m, init, k);
    }
}

} // verus!
