//! Sharing the telemetry with PicoPanel, the dashboard panel's PC app that
//! also wants OutGauge: reading and setting the `yield_outgauge` flag in its
//! settings file, edited in place as text, one line changed, every other byte
//! as it was.

use vstd::prelude::*;
use crate::prefs::{find_from, find_in, lemma_find_from, lemma_find_from_bounds};
use crate::text::{chars_of, is_white_space, trim_end, trim_start, white_space};

verus! {

/// Where PicoPanel's "Corsa" source listens for our telemetry copy.
pub const DEFAULT_MIRROR: &'static str = "127.0.0.1:5051";

/// The settings key PicoPanel reads at startup.
pub open spec fn yield_key() -> Seq<char> {
    "yield_outgauge"@
}

// ---------------------------------------------------------------- lines

/// A line that ended at a `'\n'` loses one `'\r'` before it (`str::lines`).
pub open spec fn line_at(t: Seq<char>, start: int, end: int) -> Seq<char> {
    if end < t.len() && end > start && t[end - 1] == '\r' {
        t.subrange(start, end - 1)
    } else {
        t.subrange(start, end)
    }
}

/// The lines of `t` from index `start` on, as `str::lines` splits them: at
/// each `'\n'` (dropping a `'\r'` right before it), with no empty line after
/// a final `'\n'`.
pub open spec fn lines_from(t: Seq<char>, start: nat) -> Seq<Seq<char>>
    decreases t.len() + 1 - start,
{
    if start >= t.len() {
        Seq::empty()
    } else {
        let e = find_from(t, '\n', start);
        proof {
            lemma_find_from_bounds(t, '\n', start);
        }
        seq![line_at(t, start as int, e as int)] + lines_from(t, e + 1)
    }
}

/// The lines of `t` (`str::lines`).
pub open spec fn text_lines(t: Seq<char>) -> Seq<Seq<char>> {
    lines_from(t, 0)
}

/// Whether `p` occurs in `s`.
pub open spec fn has_sub(s: Seq<char>, p: Seq<char>) -> bool {
    exists|k: int| 0 <= k && k + p.len() <= s.len() && #[trigger] s.subrange(k, k + p.len()) == p
}

/// The index of the first line holding the key, if any.
pub open spec fn key_line(ls: Seq<Seq<char>>) -> Option<int> {
    if exists|i: int| 0 <= i < ls.len() && has_sub(#[trigger] ls[i], yield_key()) {
        Some(
            choose|i: int|
                0 <= i < ls.len() && has_sub(#[trigger] ls[i], yield_key()) && forall|j: int|
                    0 <= j < i ==> !has_sub(#[trigger] ls[j], yield_key()),
        )
    } else {
        None
    }
}

/// The flag a settings text holds: on the first line that mentions the key,
/// `true` if that line says `true` anywhere; no such line, no flag.
pub open spec fn yield_flag_of(t: Seq<char>) -> Option<bool> {
    match key_line(text_lines(t)) {
        Some(i) => Some(has_sub(text_lines(t)[i], "true"@)),
        None => None,
    }
}

/// Whether `r` bounds `line` within `t`.
pub open spec fn range_holds(t: Seq<char>, r: (usize, usize), line: Seq<char>) -> bool {
    r.0 <= r.1 <= t.len() && t.subrange(r.0 as int, r.1 as int) == line
}

/// Whether `needle` occurs in `cs[lo..hi]`.
fn contains_chars(cs: &Vec<char>, lo: usize, hi: usize, needle: &Vec<char>) -> (r: bool)
    requires
        lo <= hi <= cs@.len(),
    ensures
        r == has_sub(cs@.subrange(lo as int, hi as int), needle@),
{
    let ghost s = cs@.subrange(lo as int, hi as int);
    let n = needle.len();
    if n > hi - lo {
        assert forall|k: int| 0 <= k && k + n <= s.len() implies #[trigger] s.subrange(k, k + n)
            != needle@ by {}
        return false;
    }
    let mut k: usize = lo;
    while n <= hi - k
        invariant
            lo <= k <= hi <= cs@.len(),
            n == needle@.len(),
            s == cs@.subrange(lo as int, hi as int),
            forall|q: int| 0 <= q < k - lo && q + n <= s.len() ==> #[trigger] s.subrange(q, q + n)
                != needle@,
        decreases hi - k,
    {
        let mut j: usize = 0;
        while j < n && cs[k + j] == needle[j]
            invariant
                j <= n,
                k + n <= hi <= cs@.len(),
                n == needle@.len(),
                forall|q: int| 0 <= q < j ==> cs@[k + q] == needle@[q],
            decreases n - j,
        {
            j = j + 1;
        }
        if j == n {
            assert(s.subrange(k - lo, k - lo + n) =~= needle@);
            return true;
        }
        assert(s.subrange(k - lo, k - lo + n)[j as int] != needle@[j as int]);
        k = k + 1;
    }
    assert forall|q: int| 0 <= q && q + n <= s.len() implies #[trigger] s.subrange(q, q + n)
        != needle@ by {
        assert(q < k - lo);
    }
    false
}

/// The line ranges of `cs`: `r[k]` are the bounds of line `k` of
/// [text_lines].
fn line_ranges(cs: &Vec<char>) -> (r: Vec<(usize, usize)>)
    ensures
        r@.len() == text_lines(cs@).len(),
        forall|k: int| 0 <= k < r@.len() ==> range_holds(cs@, #[trigger] r@[k], text_lines(cs@)[k]),
{
    let n = cs.len();
    let mut out: Vec<(usize, usize)> = Vec::new();
    let mut start: usize = 0;
    let ghost mut done: Seq<Seq<char>> = Seq::empty();
    while start < n
        invariant
            n == cs@.len(),
            start <= n + 1,
            text_lines(cs@) == done + lines_from(cs@, start as nat),
            out@.len() == done.len(),
            forall|k: int| 0 <= k < out@.len() ==> range_holds(cs@, #[trigger] out@[k], done[k]),
        decreases n + 1 - start,
    {
        let e = find_in(cs, '\n', start, n);
        proof {
            lemma_find_from(cs@, '\n', start as nat, e as nat);
        }
        let hi = if e < n && e > start && cs[e - 1] == '\r' { e - 1 } else { e };
        let ghost line = line_at(cs@, start as int, e as int);
        assert(cs@.subrange(start as int, hi as int) == line);
        assert(lines_from(cs@, start as nat) == seq![line] + lines_from(cs@, (e + 1) as nat));
        out.push((start, hi));
        proof {
            assert(done.push(line) + lines_from(cs@, (e + 1) as nat) =~= done + (seq![line]
                + lines_from(cs@, (e + 1) as nat)));
            done = done.push(line);
        }
        proof {
            if e >= n {
                assert(lines_from(cs@, (e + 1) as nat) =~= Seq::<Seq<char>>::empty());
                assert(lines_from(cs@, n as nat) =~= Seq::<Seq<char>>::empty());
            }
        }
        start = if e < n { e + 1 } else { n };
    }
    assert(lines_from(cs@, start as nat) =~= Seq::<Seq<char>>::empty());
    assert(done + Seq::<Seq<char>>::empty() =~= done);
    out
}

/// The key, as characters.
fn key_chars() -> (r: Vec<char>)
    ensures
        r@ == yield_key(),
{
    proof {
        reveal_strlit("yield_outgauge");
    }
    chars_of("yield_outgauge")
}

/// Index of the first line range whose line holds the key.
fn find_key_line(cs: &Vec<char>, ranges: &Vec<(usize, usize)>) -> (r: Option<usize>)
    requires
        ranges@.len() == text_lines(cs@).len(),
        forall|k: int|
            0 <= k < ranges@.len() ==> range_holds(cs@, #[trigger] ranges@[k], text_lines(cs@)[k]),
    ensures
        r.is_some() == key_line(text_lines(cs@)).is_some(),
        r.is_some() ==> key_line(text_lines(cs@)) == Some(r.unwrap() as int) && r.unwrap()
            < ranges@.len(),
{
    let ghost ls = text_lines(cs@);
    let key = key_chars();
    let mut i: usize = 0;
    while i < ranges.len()
        invariant
            ls == text_lines(cs@),
            key@ == yield_key(),
            i <= ranges@.len() == ls.len(),
            forall|k: int| 0 <= k < ranges@.len() ==> range_holds(cs@, #[trigger] ranges@[k], ls[k]),
            forall|j: int| 0 <= j < i ==> !has_sub(#[trigger] ls[j], yield_key()),
        decreases ranges@.len() - i,
    {
        let (lo, hi) = ranges[i];
        assert(range_holds(cs@, ranges@[i as int], ls[i as int]));
        if contains_chars(cs, lo, hi, &key) {
            proof {
                let w = choose|w: int|
                    0 <= w < ls.len() && has_sub(#[trigger] ls[w], yield_key()) && forall|j: int|
                        0 <= j < w ==> !has_sub(#[trigger] ls[j], yield_key());
                assert(has_sub(ls[i as int], yield_key()));
                if w < i {
                } else if w > i {
                    assert(!has_sub(ls[i as int], yield_key()));
                }
            }
            return Some(i);
        }
        i = i + 1;
    }
    None
}

/// Read the flag from PicoPanel's settings text (see [yield_flag_of]).
pub fn yield_flag(text: &str) -> (r: Option<bool>)
    ensures
        r == yield_flag_of(text@),
{
    let cs = chars_of(text);
    let ranges = line_ranges(&cs);
    match find_key_line(&cs, &ranges) {
        Some(i) => {
            let (lo, hi) = ranges[i];
            proof {
                reveal_strlit("true");
                assert(range_holds(cs@, ranges@[i as int], text_lines(cs@)[i as int]));
            }
            let t = chars_of("true");
            Some(contains_chars(&cs, lo, hi, &t))
        },
        None => None,
    }
}

// ------------------------------------------------------------ writing

/// The flag's value as JSON.
pub open spec fn flag_text(on: bool) -> Seq<char> {
    if on { "true"@ } else { "false"@ }
}

/// The key set to `on`: `"yield_outgauge": true`.
pub open spec fn key_entry(on: bool) -> Seq<char> {
    "\"yield_outgauge\": "@ + flag_text(on)
}

/// The leading white space of a line.
pub open spec fn indent_of(s: Seq<char>) -> Seq<char>
    decreases s.len(),
{
    if s.len() > 0 && is_white_space(s[0]) {
        seq![s[0]] + indent_of(s.drop_first())
    } else {
        Seq::empty()
    }
}

/// Whether a line ends with a comma, trailing white space aside.
pub open spec fn ends_with_comma(line: Seq<char>) -> bool {
    let t = trim_end(line);
    t.len() > 0 && t.last() == ','
}

/// The key line rewritten: same indentation, the key set to `on`, and the
/// comma it had, if it had one.
pub open spec fn replaced_line(line: Seq<char>, on: bool) -> Seq<char> {
    indent_of(line) + key_entry(on) + (if ends_with_comma(line) { ","@ } else { Seq::empty() })
}

/// Lines written back, each followed by a newline.
pub open spec fn unlines(ls: Seq<Seq<char>>) -> Seq<char>
    decreases ls.len(),
{
    if ls.len() == 0 {
        Seq::empty()
    } else {
        unlines(ls.drop_last()) + ls.last() + seq!['\n']
    }
}

/// `s` without the line breaks (`'\r'`, `'\n'`) it starts with.
pub open spec fn skip_line_breaks(s: Seq<char>) -> Seq<char>
    decreases s.len(),
{
    if s.len() > 0 && (s[0] == '\r' || s[0] == '\n') {
        skip_line_breaks(s.drop_first())
    } else {
        s
    }
}

/// A settings file that holds nothing but the flag.
pub open spec fn fresh_settings_of(on: bool) -> Seq<char> {
    "{\n  "@ + key_entry(on) + "\n}\n"@
}

/// The settings text with the flag set to `on`. With a key line, that line
/// is rewritten (see [replaced_line]) and the lines are written back with
/// `'\n'` endings. Without one, the key goes in as the first entry right after
/// the first `{`, with a comma unless the object was empty, everything else
/// kept as it was; with no `{` at all the text isn't JSON and is left alone
/// (`None`).
pub open spec fn set_yield_of(t: Seq<char>, on: bool) -> Option<Seq<char>> {
    let ls = text_lines(t);
    match key_line(ls) {
        Some(i) => Some(unlines(ls.update(i, replaced_line(ls[i], on)))),
        None => {
            let open = find_from(t, '{', 0);
            if open >= t.len() {
                None
            } else {
                let rest = skip_line_breaks(t.subrange(open + 1 as int, t.len() as int));
                let after = trim_start(rest);
                let comma = if after.len() > 0 && after[0] == '}' { Seq::empty() } else { ","@ };
                Some(t.subrange(0, open as int) + "{\n  "@ + key_entry(on) + comma + "\n"@ + rest)
            }
        },
    }
}

/// Why a settings text was left alone.
#[derive(Clone, Copy, PartialEq, Eq, Debug, Structural)]
pub enum YieldError {
    /// No `{` anywhere: not a JSON object.
    NotJson,
}

/// Append the key set to `on`.
fn push_key_entry(out: &mut String, on: bool)
    ensures
        final(out)@ == old(out)@ + key_entry(on),
{
    out.append("\"yield_outgauge\": ");
    if on {
        out.append("true");
    } else {
        out.append("false");
    }
    proof {
        reveal_strlit("\"yield_outgauge\": ");
        reveal_strlit("true");
        reveal_strlit("false");
        assert(final(out)@ =~= old(out)@ + key_entry(on));
    }
}

/// The text of a settings file that holds nothing but the flag.
pub fn fresh_settings(on: bool) -> (r: String)
    ensures
        r@ == fresh_settings_of(on),
{
    let mut out = String::new();
    out.append("{\n  ");
    push_key_entry(&mut out, on);
    out.append("\n}\n");
    proof {
        reveal_strlit("{\n  ");
        reveal_strlit("\n}\n");
        assert(out@ =~= fresh_settings_of(on));
    }
    out
}

/// The rewritten key line for the line `cs[lo..hi]`.
fn replace_line(text: &str, cs: &Vec<char>, lo: usize, hi: usize, on: bool) -> (r: String)
    requires
        cs@ == text@,
        lo <= hi <= cs@.len(),
    ensures
        r@ == replaced_line(cs@.subrange(lo as int, hi as int), on),
{
    let ghost line = cs@.subrange(lo as int, hi as int);
    let mut j = lo;
    while j < hi && white_space(cs[j])
        invariant
            lo <= j <= hi <= cs@.len(),
            line == cs@.subrange(lo as int, hi as int),
            indent_of(line) == cs@.subrange(lo as int, j as int) + indent_of(
                cs@.subrange(j as int, hi as int),
            ),
        decreases hi - j,
    {
        assert(cs@.subrange(j as int, hi as int).drop_first() =~= cs@.subrange(j + 1 as int, hi as int));
        assert(cs@.subrange(lo as int, j + 1 as int) =~= cs@.subrange(lo as int, j as int) + seq![cs@[j as int]]);
        j = j + 1;
    }
    assert(indent_of(cs@.subrange(j as int, hi as int)) =~= Seq::<char>::empty());
    let mut e = hi;
    while e > lo && white_space(cs[e - 1])
        invariant
            lo <= e <= hi <= cs@.len(),
            line == cs@.subrange(lo as int, hi as int),
            trim_end(line) == trim_end(cs@.subrange(lo as int, e as int)),
        decreases e - lo,
    {
        assert(cs@.subrange(lo as int, e as int).drop_last() =~= cs@.subrange(lo as int, e - 1 as int));
        e = e - 1;
    }
    assert(trim_end(cs@.subrange(lo as int, e as int)) == cs@.subrange(lo as int, e as int));
    let comma = e > lo && cs[e - 1] == ',';
    let mut out = String::new();
    out.append(text.substring_char(lo, j));
    push_key_entry(&mut out, on);
    if comma {
        out.append(",");
        proof {
            reveal_strlit(",");
        }
    }
    assert(out@ =~= replaced_line(line, on));
    out
}

/// Set the flag in PicoPanel's settings text (see [set_yield_of]).
pub fn set_yield_text(text: &str, on: bool) -> (r: Result<String, YieldError>)
    ensures
        match set_yield_of(text@, on) {
            Some(t) => r is Ok && r->Ok_0@ == t,
            None => r == Err::<String, YieldError>(YieldError::NotJson),
        },
{
    let cs = chars_of(text);
    let n = cs.len();
    let ranges = line_ranges(&cs);
    let ghost ls = text_lines(cs@);
    match find_key_line(&cs, &ranges) {
        Some(i) => {
            let (ilo, ihi) = ranges[i];
            proof {
                assert(range_holds(cs@, ranges@[i as int], ls[i as int]));
            }
            let rep = replace_line(text, &cs, ilo, ihi, on);
            let ghost target = ls.update(i as int, replaced_line(ls[i as int], on));
            let mut out = String::new();
            let mut k: usize = 0;
            while k < ranges.len()
                invariant
                    cs@ == text@,
                    ls == text_lines(cs@),
                    ranges@.len() == ls.len() == target.len(),
                    forall|q: int| 0 <= q < ranges@.len() ==> range_holds(cs@, #[trigger] ranges@[q], ls[q]),
                    i < ranges@.len(),
                    target == ls.update(i as int, replaced_line(ls[i as int], on)),
                    rep@ == target[i as int],
                    k <= ranges@.len(),
                    out@ == unlines(target.take(k as int)),
                decreases ranges@.len() - k,
            {
                if k == i {
                    out.append(rep.as_str());
                } else {
                    let (lo, hi) = ranges[k];
                    proof {
                        assert(range_holds(cs@, ranges@[k as int], ls[k as int]));
                    }
                    out.append(text.substring_char(lo, hi));
                }
                out.append("\n");
                proof {
                    reveal_strlit("\n");
                    assert(target.take(k + 1).drop_last() =~= target.take(k as int));
                }
                k = k + 1;
            }
            assert(target.take(k as int) =~= target);
            Ok(out)
        },
        None => {
            let open = find_in(&cs, '{', 0, n);
            proof {
                lemma_find_from(cs@, '{', 0, open as nat);
            }
            if open == n {
                return Err(YieldError::NotJson);
            }
            let mut r0 = open + 1;
            while r0 < n && (cs[r0] == '\r' || cs[r0] == '\n')
                invariant
                    open < r0 <= n == cs@.len(),
                    skip_line_breaks(cs@.subrange(open + 1, n as int)) == skip_line_breaks(
                        cs@.subrange(r0 as int, n as int),
                    ),
                decreases n - r0,
            {
                assert(cs@.subrange(r0 as int, n as int).drop_first() =~= cs@.subrange(r0 + 1 as int, n as int));
                r0 = r0 + 1;
            }
            assert(skip_line_breaks(cs@.subrange(r0 as int, n as int)) == cs@.subrange(r0 as int, n as int));
            let mut s0 = r0;
            while s0 < n && white_space(cs[s0])
                invariant
                    r0 <= s0 <= n == cs@.len(),
                    trim_start(cs@.subrange(r0 as int, n as int)) == trim_start(
                        cs@.subrange(s0 as int, n as int),
                    ),
                decreases n - s0,
            {
                assert(cs@.subrange(s0 as int, n as int).drop_first() =~= cs@.subrange(s0 + 1 as int, n as int));
                s0 = s0 + 1;
            }
            assert(trim_start(cs@.subrange(s0 as int, n as int)) == cs@.subrange(s0 as int, n as int));
            let empty_object = s0 < n && cs[s0] == '}';
            let mut out = String::new();
            out.append(text.substring_char(0, open));
            out.append("{\n  ");
            push_key_entry(&mut out, on);
            if !empty_object {
                out.append(",");
            }
            out.append("\n");
            out.append(text.substring_char(r0, n));
            proof {
                reveal_strlit("{\n  ");
                reveal_strlit(",");
                reveal_strlit("\n");
                let rest = cs@.subrange(r0 as int, n as int);
                let after = trim_start(rest);
                let comma: Seq<char> = if after.len() > 0 && after[0] == '}' { Seq::empty() } else { ","@ };
                assert(out@ =~= cs@.subrange(0, open as int) + "{\n  "@ + key_entry(on) + comma + "\n"@ + rest);
            }
            Ok(out)
        },
    }
}

// ------------------------------------------------------- reading it back

/// Whether `s` holds no `'\n'`.
pub open spec fn no_newline(s: Seq<char>) -> bool {
    forall|k: int| 0 <= k < s.len() ==> s[k] != '\n'
}

/// `l` without one trailing `'\r'`.
pub open spec fn strip_cr(l: Seq<char>) -> Seq<char> {
    if l.len() > 0 && l.last() == '\r' {
        l.drop_last()
    } else {
        l
    }
}

proof fn lemma_has_sub_within(s: Seq<char>, a: int, b: int, p: Seq<char>)
    requires
        0 <= a <= b <= s.len(),
        has_sub(s.subrange(a, b), p),
    ensures
        has_sub(s, p),
{
    let t = s.subrange(a, b);
    let k = choose|k: int| 0 <= k && k + p.len() <= t.len() && #[trigger] t.subrange(k, k + p.len()) == p;
    assert(s.subrange(a + k, a + k + p.len()) =~= t.subrange(k, k + p.len()));
}

proof fn lemma_has_sub_witness(s: Seq<char>, k: int, p: Seq<char>)
    requires
        0 <= k,
        k + p.len() <= s.len(),
        s.subrange(k, k + p.len()) == p,
    ensures
        has_sub(s, p),
{
}

proof fn lemma_find_shift(a: Seq<char>, b: Seq<char>, c: char, i: nat)
    requires
        i <= b.len(),
    ensures
        find_from(a + b, c, a.len() + i) == a.len() + find_from(b, c, i),
    decreases b.len() - i,
{
    if i < b.len() {
        assert((a + b)[a.len() + i as int] == b[i as int]);
        if b[i as int] != c {
            lemma_find_shift(a, b, c, i + 1);
        }
    }
}

proof fn lemma_find_prefix(x: Seq<char>, y: Seq<char>, c: char, s: nat)
    requires
        s <= x.len(),
        find_from(x, c, s) < x.len(),
    ensures
        find_from(x + y, c, s) == find_from(x, c, s),
    decreases x.len() - s,
{
    assert((x + y)[s as int] == x[s as int]);
    if x[s as int] != c {
        lemma_find_prefix(x, y, c, s + 1);
    }
}

proof fn lemma_lines_shift(a: Seq<char>, b: Seq<char>, i: nat)
    ensures
        lines_from(a + b, a.len() + i) == lines_from(b, i),
    decreases b.len() + 1 - i,
{
    let t = a + b;
    if i < b.len() {
        let e = find_from(b, '\n', i);
        lemma_find_from_bounds(b, '\n', i);
        lemma_find_shift(a, b, '\n', i);
        lemma_find_from_bounds(t, '\n', a.len() + i);
        assert(line_at(t, a.len() + i as int, a.len() + e as int) =~= line_at(b, i as int, e as int)) by {
            if e > i && e < b.len() {
                assert(t[a.len() + e - 1] == b[e - 1]);
            }
        }
        lemma_lines_shift(a, b, e + 1);
        assert(a.len() + e + 1 == a.len() + (e + 1));
    }
}

proof fn lemma_lines_cons(l: Seq<char>, rest: Seq<char>)
    requires
        no_newline(l),
    ensures
        text_lines(l + seq!['\n'] + rest) == seq![strip_cr(l)] + text_lines(rest),
{
    let head = l + seq!['\n'];
    let t = head + rest;
    assert(l + seq!['\n'] + rest == t);
    assert forall|k: int| 0 <= k < l.len() implies t[k] != '\n' by {
        assert(t[k] == l[k]);
    }
    assert(t[l.len() as int] == '\n');
    lemma_find_from(t, '\n', 0, l.len());
    assert(line_at(t, 0, l.len() as int) =~= strip_cr(l)) by {
        if l.len() > 0 {
            assert(t[l.len() - 1] == l.last());
        }
    }
    lemma_lines_shift(head, rest, 0);
    assert(head.len() + 0 == l.len() + 1);
}

proof fn lemma_lines_split_from(x: Seq<char>, y: Seq<char>, s: nat)
    requires
        x.len() > 0,
        x.last() == '\n',
        s <= x.len(),
    ensures
        lines_from(x + y, s) == lines_from(x, s) + lines_from(y, 0),
    decreases x.len() - s,
{
    if s == x.len() {
        lemma_lines_shift(x, y, 0);
        assert(lines_from(x, s) =~= Seq::<Seq<char>>::empty());
        assert(lines_from(x, s) + lines_from(y, 0) =~= lines_from(y, 0));
    } else {
        lemma_find_from_bounds(x, '\n', s);
        let e = find_from(x, '\n', s);
        if e == x.len() {
            lemma_find_from_contains(x, '\n', s, (x.len() - 1) as nat);
        }
        lemma_find_prefix(x, y, '\n', s);
        assert(line_at(x + y, s as int, e as int) =~= line_at(x, s as int, e as int)) by {
            if e > s {
                assert((x + y)[e - 1] == x[e - 1]);
            }
        }
        lemma_lines_split_from(x, y, e + 1);
        assert(seq![line_at(x, s as int, e as int)] + lines_from(x, e + 1) + lines_from(y, 0)
            =~= seq![line_at(x, s as int, e as int)] + (lines_from(x, e + 1) + lines_from(y, 0)));
    }
}

/// If `c` is at index `j >= s`, the search from `s` stops at or before `j`.
proof fn lemma_find_from_contains(x: Seq<char>, c: char, s: nat, j: nat)
    requires
        s <= j < x.len(),
        x[j as int] == c,
    ensures
        find_from(x, c, s) <= j,
    decreases j - s,
{
    if x[s as int] != c {
        lemma_find_from_contains(x, c, s + 1, j);
    }
}

proof fn lemma_unlines_front(ls: Seq<Seq<char>>)
    requires
        ls.len() > 0,
    ensures
        unlines(ls) == ls[0] + seq!['\n'] + unlines(ls.drop_first()),
    decreases ls.len(),
{
    if ls.len() == 1 {
        assert(ls.drop_last() =~= Seq::<Seq<char>>::empty());
        assert(ls.drop_first() =~= Seq::<Seq<char>>::empty());
        assert(unlines(ls.drop_last()) =~= Seq::<char>::empty());
        assert(unlines(ls.drop_first()) =~= Seq::<char>::empty());
        assert(ls.last() == ls[0]);
        assert(unlines(ls) =~= ls[0] + seq!['\n']);
        assert(ls[0] + seq!['\n'] + unlines(ls.drop_first()) =~= ls[0] + seq!['\n']);
    } else {
        lemma_unlines_front(ls.drop_last());
        assert(ls.drop_last().drop_first() =~= ls.drop_first().drop_last());
        assert(ls.drop_first().last() == ls.last());
        assert(unlines(ls) =~= ls[0] + seq!['\n'] + unlines(ls.drop_first()));
    }
}

proof fn lemma_lines_unlines(ls: Seq<Seq<char>>)
    requires
        forall|k: int| 0 <= k < ls.len() ==> no_newline(#[trigger] ls[k]),
    ensures
        text_lines(unlines(ls)).len() == ls.len(),
        forall|k: int| 0 <= k < ls.len() ==> #[trigger] text_lines(unlines(ls))[k] == strip_cr(ls[k]),
    decreases ls.len(),
{
    if ls.len() == 0 {
        assert(text_lines(unlines(ls)) =~= Seq::<Seq<char>>::empty());
    } else {
        let rest = ls.drop_first();
        assert forall|k: int| 0 <= k < rest.len() implies no_newline(#[trigger] rest[k]) by {
            assert(rest[k] == ls[k + 1]);
        }
        lemma_lines_unlines(rest);
        lemma_unlines_front(ls);
        assert(no_newline(ls[0]));
        lemma_lines_cons(ls[0], unlines(rest));
        assert forall|k: int| 0 <= k < ls.len() implies #[trigger] text_lines(unlines(ls))[k] == strip_cr(ls[k]) by {
            if k > 0 {
                assert(text_lines(unlines(rest))[k - 1] == strip_cr(rest[k - 1]));
            }
        }
    }
}

proof fn lemma_lines_from_no_newline(t: Seq<char>, s: nat)
    ensures
        forall|k: int| 0 <= k < lines_from(t, s).len() ==> no_newline(#[trigger] lines_from(t, s)[k]),
    decreases t.len() + 1 - s,
{
    if s < t.len() {
        let e = find_from(t, '\n', s);
        lemma_find_from_bounds(t, '\n', s);
        lemma_find_from_props(t, '\n', s);
        lemma_lines_from_no_newline(t, e + 1);
        let l = line_at(t, s as int, e as int);
        assert(no_newline(l)) by {
            assert forall|k: int| 0 <= k < l.len() implies l[k] != '\n' by {
                assert(l[k] == t[s + k]);
            }
        }
        assert forall|k: int| 0 <= k < lines_from(t, s).len() implies no_newline(#[trigger] lines_from(t, s)[k]) by {
            if k > 0 {
                assert(lines_from(t, s)[k] == lines_from(t, e + 1)[k - 1]);
            }
        }
    }
}

/// No index in `[s, find_from(s))` holds `c`.
proof fn lemma_find_from_props(t: Seq<char>, c: char, s: nat)
    requires
        s <= t.len(),
    ensures
        forall|k: int| s <= k < find_from(t, c, s) ==> t[k] != c,
        find_from(t, c, s) < t.len() ==> t[find_from(t, c, s) as int] == c,
    decreases t.len() - s,
{
    if s < t.len() && t[s as int] != c {
        lemma_find_from_props(t, c, s + 1);
    }
}

proof fn lemma_text_lines_no_newline(t: Seq<char>)
    ensures
        forall|k: int| 0 <= k < text_lines(t).len() ==> no_newline(#[trigger] text_lines(t)[k]),
{
    lemma_lines_from_no_newline(t, 0);
}

proof fn lemma_line_sub(t: Seq<char>, s: nat, p: Seq<char>, k: int)
    requires
        0 <= k < lines_from(t, s).len(),
        has_sub(lines_from(t, s)[k], p),
    ensures
        has_sub(t, p),
    decreases t.len() + 1 - s,
{
    let e = find_from(t, '\n', s);
    lemma_find_from_bounds(t, '\n', s);
    if k == 0 {
        let l = line_at(t, s as int, e as int);
        if e < t.len() && e > s && t[e - 1] == '\r' {
            lemma_has_sub_within(t, s as int, e - 1, p);
        } else {
            lemma_has_sub_within(t, s as int, e as int, p);
        }
    } else {
        assert(lines_from(t, s)[k] == lines_from(t, e + 1)[k - 1]);
        lemma_line_sub(t, e + 1, p, k - 1);
    }
}

/// An occurrence of `p` (no newline in it, not ending in `'\r'`) at or after
/// `s` lies within one of the lines from `s` on.
proof fn lemma_sub_in_line(t: Seq<char>, s: nat, p: Seq<char>, q: int)
    requires
        p.len() > 0,
        no_newline(p),
        p.last() != '\r',
        s <= q,
        q + p.len() <= t.len(),
        t.subrange(q, q + p.len()) == p,
    ensures
        exists|k: int| 0 <= k < lines_from(t, s).len() && has_sub(#[trigger] lines_from(t, s)[k], p),
    decreases t.len() + 1 - s,
{
    let e = find_from(t, '\n', s);
    lemma_find_from_bounds(t, '\n', s);
    lemma_find_from_props(t, '\n', s);
    let l = line_at(t, s as int, e as int);
    assert(lines_from(t, s)[0] == l);
    if q + p.len() <= e {
        if e < t.len() && e > s && t[e - 1] == '\r' {
            if q + p.len() == e {
                assert(t[e - 1] == p.last()) by {
                    assert(t.subrange(q, q + p.len())[p.len() - 1] == t[e - 1]);
                }
            }
            assert(l.subrange(q - s, q - s + p.len()) =~= p);
        } else {
            assert(l.subrange(q - s, q - s + p.len()) =~= p);
        }
        assert(has_sub(lines_from(t, s)[0], p));
    } else {
        if e >= q {
            assert(t[e as int] == '\n');
            assert(t[e as int] == p[e - q]) by {
                assert(t.subrange(q, q + p.len())[e - q] == t[e as int]);
            }
        }
        lemma_sub_in_line(t, e + 1, p, q);
        let k = choose|k: int| 0 <= k < lines_from(t, e + 1).len() && has_sub(#[trigger] lines_from(t, e + 1)[k], p);
        assert(lines_from(t, s)[k + 1] == lines_from(t, e + 1)[k]);
    }
}

proof fn lemma_indent_props(s: Seq<char>)
    ensures
        indent_of(s).len() <= s.len(),
        indent_of(s) == s.take(indent_of(s).len() as int),
        forall|k: int| 0 <= k < indent_of(s).len() ==> is_white_space(#[trigger] indent_of(s)[k]),
    decreases s.len(),
{
    if s.len() > 0 && is_white_space(s[0]) {
        lemma_indent_props(s.drop_first());
        let r = indent_of(s.drop_first());
        assert(indent_of(s) =~= s.take(r.len() + 1 as int)) by {
            assert(s.drop_first().take(r.len() as int) == r);
        }
        assert forall|k: int| 0 <= k < indent_of(s).len() implies is_white_space(#[trigger] indent_of(s)[k]) by {
            if k > 0 {
                assert(indent_of(s)[k] == r[k - 1]);
            }
        }
    } else {
        assert(s.take(0) =~= Seq::<char>::empty());
    }
}

proof fn lemma_key_line_props(ls: Seq<Seq<char>>)
    ensures
        key_line(ls) matches Some(i) ==> {
            &&& 0 <= i < ls.len()
            &&& has_sub(ls[i], yield_key())
            &&& forall|q: int| 0 <= q < i ==> !has_sub(#[trigger] ls[q], yield_key())
        },
{
    if exists|i: int| 0 <= i < ls.len() && has_sub(#[trigger] ls[i], yield_key()) {
        let i0 = choose|i: int| 0 <= i < ls.len() && has_sub(#[trigger] ls[i], yield_key());
        lemma_first_key_line_exists(ls, i0);
    }
}

proof fn lemma_first_key_line_exists(ls: Seq<Seq<char>>, i0: int)
    requires
        0 <= i0 < ls.len(),
        has_sub(ls[i0], yield_key()),
    ensures
        exists|i: int|
            0 <= i < ls.len() && has_sub(#[trigger] ls[i], yield_key()) && forall|q: int|
                0 <= q < i ==> !has_sub(#[trigger] ls[q], yield_key()),
    decreases i0,
{
    if exists|q: int| 0 <= q < i0 && has_sub(#[trigger] ls[q], yield_key()) {
        let q = choose|q: int| 0 <= q < i0 && has_sub(#[trigger] ls[q], yield_key());
        lemma_first_key_line_exists(ls, q);
    } else {
        assert(0 <= i0 < ls.len() && has_sub(ls[i0], yield_key()) && forall|q: int|
            0 <= q < i0 ==> !has_sub(#[trigger] ls[q], yield_key()));
    }
}

/// The first line holding the key, when every line before `j` lacks it and
/// line `j` has it.
proof fn lemma_key_line_is(ls: Seq<Seq<char>>, j: int)
    requires
        0 <= j < ls.len(),
        has_sub(ls[j], yield_key()),
        forall|k: int| 0 <= k < j ==> !has_sub(#[trigger] ls[k], yield_key()),
    ensures
        key_line(ls) == Some(j),
{
    let w = choose|i: int|
        0 <= i < ls.len() && has_sub(#[trigger] ls[i], yield_key()) && forall|q: int|
            0 <= q < i ==> !has_sub(#[trigger] ls[q], yield_key());
    if w < j {
    } else if w > j {
        assert(!has_sub(ls[j], yield_key()));
    }
}

/// The key part of an entry: `"yield_outgauge": `.
pub open spec fn key_prefix() -> Seq<char> {
    "\"yield_outgauge\": "@
}

proof fn lemma_entry_has_key(pre: Seq<char>, on: bool, tail: Seq<char>)
    ensures
        has_sub(pre + key_entry(on) + tail, yield_key()),
{
    reveal_strlit("\"yield_outgauge\": ");
    reveal_strlit("yield_outgauge");
    let l = pre + key_entry(on) + tail;
    let n: int = pre.len() as int;
    assert(key_prefix().subrange(1, 15) =~= yield_key());
    assert(key_entry(on) == key_prefix() + flag_text(on));
    assert(l.subrange(n + 1, n + 15) =~= key_prefix().subrange(1, 15));
    assert(n + 1 + yield_key().len() == n + 15);
    lemma_has_sub_witness(l, n + 1, yield_key());
}

proof fn lemma_entry_true(pre: Seq<char>, on: bool, tail: Seq<char>)
    requires
        forall|k: int| 0 <= k < pre.len() ==> is_white_space(#[trigger] pre[k]),
        tail.len() == 0 || tail == ","@,
    ensures
        has_sub(pre + key_entry(on) + tail, "true"@) == on,
{
    reveal_strlit("\"yield_outgauge\": ");
    reveal_strlit("true");
    reveal_strlit("false");
    reveal_strlit(",");
    let l = pre + key_entry(on) + tail;
    let n: int = pre.len() as int;
    let kp = key_prefix();
    assert(key_entry(on) == kp + flag_text(on));
    if on {
        assert(l.subrange(n + 18, n + 22) =~= "true"@);
        lemma_has_sub_witness(l, n + 18, "true"@);
    } else {
        if has_sub(l, "true"@) {
            let k = choose|k: int| 0 <= k && k + 4 <= l.len() && #[trigger] l.subrange(k, k + 4) == "true"@;
            assert(l[k] == 't') by {
                assert(l.subrange(k, k + 4)[0] == l[k]);
            }
            assert(l[k + 1] == 'r') by {
                assert(l.subrange(k, k + 4)[1] == l[k + 1]);
            }
            if k < n {
                assert(is_white_space(pre[k]));
            } else if k < n + 18 {
                assert(l[k] == kp[k - n]);
                assert(k - n == 9);
                assert(l[k + 1] == kp[10]);
            } else if k < n + 23 {
                assert(l[k] == "false"@[k - n - 18]);
            } else {
                assert(l[k] == tail[k - n - 23]);
            }
        }
    }
}

proof fn lemma_entry_shape(on: bool, tail: Seq<char>)
    requires
        tail.len() == 0 || tail == ","@,
    ensures
        no_newline(key_entry(on) + tail),
        (key_entry(on) + tail).len() > 0,
        (key_entry(on) + tail).last() != '\r',
{
    reveal_strlit("\"yield_outgauge\": ");
    reveal_strlit("true");
    reveal_strlit("false");
    reveal_strlit(",");
    assert(key_entry(on) == key_prefix() + flag_text(on));
}

/// Rewriting the key line reads back as the flag set.
#[verifier::rlimit(40)]
proof fn lemma_read_after_replace(t: Seq<char>, on: bool, i: int)
    requires
        key_line(text_lines(t)) == Some(i),
    ensures
        yield_flag_of(unlines(text_lines(t).update(i, replaced_line(text_lines(t)[i], on)))) == Some(on),
{
    reveal_strlit(",");
    let ls = text_lines(t);
    lemma_text_lines_no_newline(t);
    lemma_key_line_props(ls);
    let line = ls[i];
    lemma_indent_props(line);
    let ind = indent_of(line);
    let tail: Seq<char> = if ends_with_comma(line) { ","@ } else { Seq::empty() };
    lemma_entry_has_key(ind, on, tail);
    lemma_entry_true(ind, on, tail);
    lemma_entry_shape(on, tail);
    let rep = replaced_line(line, on);
    assert(rep == ind + key_entry(on) + tail);
    let target = ls.update(i, rep);
    assert(no_newline(line));
    assert(no_newline(rep)) by {
        assert forall|k: int| 0 <= k < rep.len() implies rep[k] != '\n' by {
            if k < ind.len() {
                assert(ind[k] == line[k]);
            } else {
                assert(rep[k] == (key_entry(on) + tail)[k - ind.len()]);
            }
        }
    }
    assert(rep.last() == (key_entry(on) + tail).last());
    assert forall|k: int| 0 <= k < target.len() implies no_newline(#[trigger] target[k]) by {
        if k != i {
            assert(target[k] == ls[k]);
        }
    }
    lemma_lines_unlines(target);
    let u = unlines(target);
    let nl = text_lines(u);
    assert(nl[i] == strip_cr(rep));
    assert(strip_cr(rep) == rep);
    assert forall|k: int| 0 <= k < i implies !has_sub(#[trigger] nl[k], yield_key()) by {
        assert(nl[k] == strip_cr(ls[k]));
        if has_sub(strip_cr(ls[k]), yield_key()) {
            if ls[k].len() > 0 && ls[k].last() == '\r' {
                assert(ls[k].subrange(0, ls[k].len() - 1) =~= ls[k].drop_last());
                lemma_has_sub_within(ls[k], 0, ls[k].len() - 1, yield_key());
            }
        }
    }
    lemma_key_line_is(nl, i);
}

/// Inserting the key after the first `{` reads back as the flag set.
#[verifier::rlimit(40)]
proof fn lemma_read_after_insert(t: Seq<char>, on: bool)
    requires
        key_line(text_lines(t)).is_none(),
        set_yield_of(t, on).is_some(),
    ensures
        yield_flag_of(set_yield_of(t, on).unwrap()) == Some(on),
{
    reveal_strlit("{\n  ");
    reveal_strlit("\n");
    reveal_strlit(",");
    reveal_strlit("  ");
    reveal_strlit("{\n");
    reveal_strlit("yield_outgauge");
    let ls = text_lines(t);
    let open = find_from(t, '{', 0);
    lemma_find_from_bounds(t, '{', 0);
    lemma_find_from_props(t, '{', 0);
    let rest = skip_line_breaks(t.subrange(open + 1 as int, t.len() as int));
    let after = trim_start(rest);
    let comma: Seq<char> = if after.len() > 0 && after[0] == '}' { Seq::empty() } else { ","@ };
    let x = t.subrange(0, open as int) + "{\n"@;
    let b = "  "@ + key_entry(on) + comma;
    let u = set_yield_of(t, on).unwrap();
    assert(u == t.subrange(0, open as int) + "{\n  "@ + key_entry(on) + comma + "\n"@ + rest);
    assert("{\n  "@ =~= "{\n"@ + "  "@);
    assert("\n"@ =~= seq!['\n']);
    assert(u =~= x + (b + seq!['\n'] + rest));
    assert forall|k: int| 0 <= k < 2 implies is_white_space(#[trigger] "  "@[k]) by {}
    lemma_entry_has_key("  "@, on, comma);
    lemma_entry_true("  "@, on, comma);
    lemma_entry_shape(on, comma);
    assert(no_newline(b)) by {
        assert forall|k: int| 0 <= k < b.len() implies b[k] != '\n' by {
            if k >= 2 {
                assert(b[k] == (key_entry(on) + comma)[k - 2]);
            }
        }
    }
    assert(b.last() == (key_entry(on) + comma).last());
    lemma_lines_split_from(x, b + seq!['\n'] + rest, 0);
    lemma_lines_cons(b, rest);
    let lx = text_lines(x);
    let nl = text_lines(u);
    assert(nl =~= lx + (seq![strip_cr(b)] + text_lines(rest)));
    assert(nl[lx.len() as int] == b);
    assert forall|k: int| 0 <= k < lx.len() implies !has_sub(#[trigger] nl[k], yield_key()) by {
        assert(nl[k] == lx[k]);
        if has_sub(lx[k], yield_key()) {
            lemma_line_sub(x, 0, yield_key(), k);
            let q = choose|q: int| 0 <= q && q + 14 <= x.len() && #[trigger] x.subrange(q, q + 14) == yield_key();
            assert(x.subrange(q, q + 14)[13] == x[q + 13]);
            if q + 14 > open {
                if q + 13 == open {
                    assert(x[open as int] == '{');
                } else {
                    assert(x[q + 13] == '\n');
                }
            }
            assert(t.subrange(q, q + 14) =~= x.subrange(q, q + 14));
            assert(no_newline(yield_key()));
            lemma_sub_in_line(t, 0, yield_key(), q);
            let j = choose|j: int| 0 <= j < lines_from(t, 0).len() && has_sub(#[trigger] lines_from(t, 0)[j], yield_key());
            assert(has_sub(ls[j], yield_key()));
        }
    }
    lemma_key_line_is(nl, lx.len() as int);
}

/// A fresh settings file reads back as the flag set.
proof fn lemma_read_fresh(on: bool)
    ensures
        yield_flag_of(fresh_settings_of(on)) == Some(on),
{
    reveal_strlit("{\n  ");
    reveal_strlit("\n}\n");
    reveal_strlit("  ");
    reveal_strlit("yield_outgauge");
    let f = fresh_settings_of(on);
    let b = "  "@ + key_entry(on);
    assert forall|k: int| 0 <= k < 2 implies is_white_space(#[trigger] "  "@[k]) by {}
    lemma_entry_has_key("  "@, on, Seq::empty());
    lemma_entry_true("  "@, on, Seq::empty());
    lemma_entry_shape(on, Seq::empty());
    assert(b + Seq::<char>::empty() =~= b);
    assert(key_entry(on) + Seq::<char>::empty() =~= key_entry(on));
    assert(no_newline(b)) by {
        assert forall|k: int| 0 <= k < b.len() implies b[k] != '\n' by {
            if k >= 2 {
                assert(b[k] == key_entry(on)[k - 2]);
            }
        }
    }
    assert(b.last() == key_entry(on).last());
    let tail = seq!['}'] + seq!['\n'] + Seq::<char>::empty();
    assert(f =~= seq!['{'] + seq!['\n'] + (b + seq!['\n'] + tail));
    assert(no_newline(seq!['{']));
    lemma_lines_cons(seq!['{'], b + seq!['\n'] + tail);
    lemma_lines_cons(b, tail);
    let nl = text_lines(f);
    assert(nl[0] == seq!['{']);
    assert(nl[1] == b);
    assert(!has_sub(seq!['{'], yield_key())) by {
        if has_sub(seq!['{'], yield_key()) {
            let k = choose|k: int| 0 <= k && k + 14 <= 1 && #[trigger] seq!['{'].subrange(k, k + 14) == yield_key();
        }
    }
    lemma_key_line_is(nl, 1);
}

/// Setting the flag, then reading it back, gives what was set: whether the
/// key line was rewritten, the key was added to an existing object, or the
/// file is written fresh.
pub proof fn lemma_set_then_read(t: Seq<char>, on: bool)
    ensures
        set_yield_of(t, on) matches Some(u) ==> yield_flag_of(u) == Some(on),
        yield_flag_of(fresh_settings_of(on)) == Some(on),
{
    match key_line(text_lines(t)) {
        Some(i) => lemma_read_after_replace(t, on, i),
        None => {
            if set_yield_of(t, on).is_some() {
                lemma_read_after_insert(t, on);
            }
        },
    }
    lemma_read_fresh(on);
}

} // verus!
