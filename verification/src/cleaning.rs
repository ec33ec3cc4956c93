//! The cleaning pipeline: three ordered character-level transforms that turn
//! raw subtitle text into normalized text — parenthetical stripping,
//! blacklist filtering and small-kana normalization, composed strictly in
//! that order.

use crate::text::{chars_to_string, to_chars};
use vstd::prelude::*;

verus! {

/// A small-form kana character, as used for digraphs, lengthened vowels or
/// gemination: the key role of the normalization table.
#[derive(Debug, Clone, Copy, PartialEq, Eq, Hash, Structural)]
pub struct SmallKana(pub char);

/// The regular-size counterpart of a small-form kana character: the value
/// role of the normalization table.
#[derive(Debug, Clone, Copy, PartialEq, Eq, Hash, Structural)]
pub struct RegularKana(pub char);

/// The set of characters dropped by the filtering stage: punctuation,
/// spaces, digits, non-Japanese letters, the prolongation mark. Supplied by
/// the caller; membership is all that matters.
#[derive(Debug, Clone)]
pub struct CharacterBlacklist {
    chars: Vec<char>,
}

impl View for CharacterBlacklist {
    type V = Set<char>;

    closed spec fn view(&self) -> Set<char> {
        self.chars@.to_set()
    }
}

impl CharacterBlacklist {
    /// Builds the blacklist from the listed characters.
    pub fn new(chars: Vec<char>) -> (r: CharacterBlacklist)
        ensures
            r@ == chars@.to_set(),
    {
        CharacterBlacklist { chars }
    }

    /// Whether `c` is blacklisted.
    pub fn contains(&self, c: char) -> (r: bool)
        ensures
            r == self@.contains(c),
    {
        let mut i: usize = 0;
        while i < self.chars.len()
            invariant
                0 <= i <= self.chars@.len(),
                forall|j: int| 0 <= j < i ==> self.chars@[j] != c,
            decreases self.chars@.len() - i,
        {
            if self.chars[i] == c {
                assert(self.chars@.contains(c));
                return true;
            }
            i = i + 1;
        }
        proof {
            if self.chars@.contains(c) {
                let j = choose|j: int| 0 <= j < self.chars@.len() && self.chars@[j] == c;
                assert(false);
            }
        }
        false
    }
}

/// The key/value character pairs of a table, in table order.
pub open spec fn pair_chars(ps: Seq<(SmallKana, RegularKana)>) -> Seq<(char, char)> {
    ps.map_values(|p: (SmallKana, RegularKana)| (p.0.0, p.1.0))
}

/// The mapping a pair table denotes: where a key occurs more than once, the
/// earliest pair wins.
pub open spec fn first_map(ps: Seq<(char, char)>) -> Map<char, char>
    decreases ps.len(),
{
    if ps.len() == 0 {
        Map::empty()
    } else {
        let m = first_map(ps.drop_last());
        if m.dom().contains(ps.last().0) {
            m
        } else {
            m.insert(ps.last().0, ps.last().1)
        }
    }
}

pub proof fn lemma_first_map_dom(ps: Seq<(char, char)>, c: char)
    ensures
        first_map(ps).dom().contains(c) <==> exists|i: int|
            0 <= i < ps.len() && (#[trigger] ps[i]).0 == c,
    decreases ps.len(),
{
    if ps.len() > 0 {
        lemma_first_map_dom(ps.drop_last(), c);
        if first_map(ps).dom().contains(c) {
            if first_map(ps.drop_last()).dom().contains(c) {
                let i = choose|i: int|
                    0 <= i < ps.drop_last().len() && (#[trigger] ps.drop_last()[i]).0 == c;
                assert(ps[i].0 == c);
            } else {
                assert(ps[ps.len() - 1].0 == c);
            }
        }
        if exists|i: int| 0 <= i < ps.len() && (#[trigger] ps[i]).0 == c {
            let i = choose|i: int| 0 <= i < ps.len() && (#[trigger] ps[i]).0 == c;
            if i < ps.len() - 1 {
                assert(ps.drop_last()[i].0 == c);
            }
        }
    }
}

/// The earliest pair with a given key decides that key's image.
pub proof fn lemma_first_map_at(ps: Seq<(char, char)>, i: int)
    requires
        0 <= i < ps.len(),
        forall|j: int| 0 <= j < i ==> (#[trigger] ps[j]).0 != ps[i].0,
    ensures
        first_map(ps).dom().contains(ps[i].0),
        first_map(ps)[ps[i].0] == ps[i].1,
    decreases ps.len(),
{
    let c = ps[i].0;
    if i == ps.len() - 1 {
        lemma_first_map_dom(ps.drop_last(), c);
        if first_map(ps.drop_last()).dom().contains(c) {
            let j = choose|j: int|
                0 <= j < ps.drop_last().len() && (#[trigger] ps.drop_last()[j]).0 == c;
            assert(ps[j].0 == c);
            assert(false);
        }
    } else {
        assert forall|j: int| 0 <= j < i implies (#[trigger] ps.drop_last()[j]).0
            != ps.drop_last()[i].0 by {
            assert(ps.drop_last()[j] == ps[j]);
        }
        lemma_first_map_at(ps.drop_last(), i);
        assert(ps.drop_last()[i] == ps[i]);
    }
}

/// The table mapping each small-form kana character to its regular-size
/// counterpart. Supplied by the caller as key/value pairs; where a key
/// occurs more than once, the earliest pair wins.
#[derive(Debug, Clone)]
pub struct SmallKanaMap {
    pairs: Vec<(SmallKana, RegularKana)>,
}

impl View for SmallKanaMap {
    type V = Map<char, char>;

    closed spec fn view(&self) -> Map<char, char> {
        first_map(pair_chars(self.pairs@))
    }
}

impl SmallKanaMap {
    /// Builds the table from key/value pairs.
    pub fn new(pairs: Vec<(SmallKana, RegularKana)>) -> (r: SmallKanaMap)
        ensures
            r@ == first_map(pair_chars(pairs@)),
    {
        SmallKanaMap { pairs }
    }

    /// Looks a character up among the keys; the earliest pair wins.
    pub fn lookup(&self, c: char) -> (r: Option<char>)
        ensures
            r == if self@.dom().contains(c) {
                Some(self@[c])
            } else {
                None::<char>
            },
    {
        let ghost pcs = pair_chars(self.pairs@);
        let mut i: usize = 0;
        while i < self.pairs.len()
            invariant
                pcs == pair_chars(self.pairs@),
                0 <= i <= self.pairs@.len(),
                forall|j: int| 0 <= j < i ==> (#[trigger] pcs[j]).0 != c,
            decreases self.pairs@.len() - i,
        {
            proof {
                assert(pcs[i as int] == (self.pairs@[i as int].0.0, self.pairs@[i as int].1.0));
            }
            let key = self.pairs[i].0;
            if key.0 == c {
                proof {
                    lemma_first_map_at(pcs, i as int);
                }
                let value = self.pairs[i].1;
                return Some(value.0);
            }
            i = i + 1;
        }
        proof {
            lemma_first_map_dom(pcs, c);
        }
        None
    }
}

/// The characters that open a parenthetical: ASCII and full-width.
pub open spec fn is_open_paren(c: char) -> bool {
    c == '(' || c == '（'
}

/// The characters that close a parenthetical: ASCII and full-width.
pub open spec fn is_close_paren(c: char) -> bool {
    c == ')' || c == '）'
}

/// Parenthetical removal, carrying the nesting depth: an opener increments
/// the depth, a closer at positive depth decrements it, and a character is
/// kept exactly while the depth is zero. A closer with no matching opener is
/// a silent no-op on the depth and is kept like any other character at depth
/// zero.
pub open spec fn strip_parens_from(t: Seq<char>, depth: nat) -> Seq<char>
    decreases t.len(),
{
    if t.len() == 0 {
        Seq::empty()
    } else {
        let c = t[0];
        let rest = t.drop_first();
        if is_open_paren(c) {
            strip_parens_from(rest, depth + 1)
        } else if is_close_paren(c) {
            if depth > 0 {
                strip_parens_from(rest, (depth - 1) as nat)
            } else {
                seq![c] + strip_parens_from(rest, 0)
            }
        } else if depth == 0 {
            seq![c] + strip_parens_from(rest, 0)
        } else {
            strip_parens_from(rest, depth)
        }
    }
}

/// The first pipeline stage: `t` with every parenthetical span removed.
pub open spec fn strip_parens(t: Seq<char>) -> Seq<char> {
    strip_parens_from(t, 0)
}

/// The second pipeline stage: `t` with every blacklisted character dropped.
pub open spec fn filter_blacklist(t: Seq<char>, bl: Set<char>) -> Seq<char>
    decreases t.len(),
{
    if t.len() == 0 {
        Seq::empty()
    } else {
        let front = filter_blacklist(t.drop_last(), bl);
        if bl.contains(t.last()) {
            front
        } else {
            front.push(t.last())
        }
    }
}

/// One character through the normalization table: mapped if it is a key,
/// itself otherwise.
pub open spec fn kana_norm(c: char, m: Map<char, char>) -> char {
    if m.dom().contains(c) {
        m[c]
    } else {
        c
    }
}

/// The third pipeline stage: every character of `t` through the table.
pub open spec fn normalize_kana(t: Seq<char>, m: Map<char, char>) -> Seq<char> {
    t.map_values(|c: char| kana_norm(c, m))
}

/// The whole pipeline: parenthetical removal, then blacklist filtering, then
/// small-kana normalization, each stage over the output of the one before.
pub open spec fn clean_spec(t: Seq<char>, bl: Set<char>, m: Map<char, char>) -> Seq<char> {
    normalize_kana(filter_blacklist(strip_parens(t), bl), m)
}

/// Checks whether `c` opens a parenthetical.
fn open_paren_char(c: char) -> (r: bool)
    ensures
        r == is_open_paren(c),
{
    c == '(' || c == '（'
}

/// Checks whether `c` closes a parenthetical.
fn close_paren_char(c: char) -> (r: bool)
    ensures
        r == is_close_paren(c),
{
    c == ')' || c == '）'
}

/// Removes parentheses — regular (`(`, `)`) and full-width (`（`, `）`) —
/// along with all characters enclosed within. An unmatched closer never
/// drives the nesting depth below zero: it is kept and nothing errors.
pub fn remove_parentheses_and_contents(input: &str) -> (r: String)
    ensures
        r@ == strip_parens(input@),
{
    let ghost t = input@;
    let v = to_chars(input);
    let mut out: Vec<char> = Vec::new();
    let mut depth: usize = 0;
    let mut i: usize = 0;
    proof {
        assert(t.skip(0) =~= t);
        assert(out@ + strip_parens_from(t.skip(0), 0) =~= strip_parens(t));
    }
    while i < v.len()
        invariant
            t == v@,
            0 <= i <= t.len(),
            depth <= i,
            strip_parens(t) == out@ + strip_parens_from(t.skip(i as int), depth as nat),
        decreases t.len() - i,
    {
        let c = v[i];
        proof {
            assert(t.skip(i as int)[0] == t[i as int]);
            assert(t.skip(i as int).drop_first() =~= t.skip(i + 1));
        }
        if open_paren_char(c) {
            depth = depth + 1;
        } else if close_paren_char(c) {
            if depth > 0 {
                depth = depth - 1;
            } else {
                proof {
                    assert(out@.push(c) + strip_parens_from(t.skip(i + 1), 0) =~= out@ + (seq![c]
                        + strip_parens_from(t.skip(i + 1), 0)));
                }
                out.push(c);
            }
        } else if depth == 0 {
            proof {
                assert(out@.push(c) + strip_parens_from(t.skip(i + 1), 0) =~= out@ + (seq![c]
                    + strip_parens_from(t.skip(i + 1), 0)));
            }
            out.push(c);
        }
        i = i + 1;
    }
    proof {
        assert(t.skip(t.len() as int) =~= Seq::<char>::empty());
        assert(out@ + Seq::<char>::empty() =~= out@);
    }
    chars_to_string(&out)
}

/// Drops every blacklisted character; all others pass through unchanged.
pub fn remove_blacklisted_characters(input: &str, blacklist: &CharacterBlacklist) -> (r: String)
    ensures
        r@ == filter_blacklist(input@, blacklist@),
{
    let ghost t = input@;
    let v = to_chars(input);
    let mut out: Vec<char> = Vec::new();
    let mut i: usize = 0;
    proof {
        assert(out@ =~= filter_blacklist(t.take(0), blacklist@));
    }
    while i < v.len()
        invariant
            t == v@,
            0 <= i <= t.len(),
            out@ == filter_blacklist(t.take(i as int), blacklist@),
        decreases t.len() - i,
    {
        proof {
            assert(t.take(i + 1).drop_last() =~= t.take(i as int));
            assert(t.take(i + 1).last() == t[i as int]);
        }
        if !blacklist.contains(v[i]) {
            out.push(v[i]);
        }
        i = i + 1;
    }
    proof {
        assert(t.take(t.len() as int) =~= t);
    }
    chars_to_string(&out)
}

/// Transforms a kana character into its regular size if it is found to be a
/// small version, and returns the input unchanged otherwise.
pub fn convert_mini_kana_to_regular(input: &char, kana_mapping: &SmallKanaMap) -> (r: char)
    ensures
        r == kana_norm(*input, kana_mapping@),
{
    match kana_mapping.lookup(*input) {
        Some(regular) => regular,
        None => *input,
    }
}

/// Replaces every small-form kana character by its regular-size counterpart;
/// all other characters pass through unchanged.
pub fn normalize_small_kana(input: &str, kana_mapping: &SmallKanaMap) -> (r: String)
    ensures
        r@ == normalize_kana(input@, kana_mapping@),
{
    let ghost t = input@;
    let v = to_chars(input);
    let mut out: Vec<char> = Vec::new();
    let mut i: usize = 0;
    while i < v.len()
        invariant
            t == v@,
            0 <= i <= t.len(),
            out@ == normalize_kana(t.take(i as int), kana_mapping@),
        decreases t.len() - i,
    {
        let c = convert_mini_kana_to_regular(&v[i], kana_mapping);
        out.push(c);
        i = i + 1;
        proof {
            assert(out@ =~= normalize_kana(t.take(i as int), kana_mapping@));
        }
    }
    proof {
        assert(t.take(t.len() as int) =~= t);
        assert(out@ =~= normalize_kana(t, kana_mapping@));
    }
    chars_to_string(&out)
}

/// Cleans a subtitle string: remove parentheses and their contents, drop the
/// blacklisted characters, then convert small-form kana characters to their
/// regular-size counterparts — each stage over the output of the one before.
/// After this step the text is ready for downstream analysis.
pub fn clean_subtitles(
    raw_input: &str,
    blacklist: &CharacterBlacklist,
    kana_mapping: &SmallKanaMap,
) -> (r: String)
    ensures
        r@ == clean_spec(raw_input@, blacklist@, kana_mapping@),
{
    let parentheses_removed = remove_parentheses_and_contents(raw_input);
    let filtered = remove_blacklisted_characters(parentheses_removed.as_str(), blacklist);
    normalize_small_kana(filtered.as_str(), kana_mapping)
}

/// Strictly increasing by code point: sorted, with no duplicate.
pub open spec fn sorted_strict(t: Seq<char>) -> bool {
    forall|i: int, j: int| 0 <= i < j < t.len() ==> t[i] < t[j]
}

proof fn lemma_insert_to_set(s: Seq<char>, p: int, c: char)
    requires
        0 <= p <= s.len(),
    ensures
        s.insert(p, c).to_set() == s.to_set().insert(c),
{
    s.insert_ensures(p, c);
    let w = s.insert(p, c);
    assert forall|x: char| w.to_set().contains(x) implies s.to_set().insert(c).contains(x) by {
        let k = choose|k: int| 0 <= k < w.len() && w[k] == x;
        if k < p {
            assert(s[k] == x);
        } else if k > p {
            assert(s[k - 1] == x);
        }
    }
    assert forall|x: char| s.to_set().insert(c).contains(x) implies w.to_set().contains(x) by {
        if x == c {
            assert(w[p] == x);
        } else {
            let k = choose|k: int| 0 <= k < s.len() && s[k] == x;
            if k < p {
                assert(w[k] == x);
            } else {
                assert(w[k + 1] == x);
            }
        }
    }
    assert(w.to_set() =~= s.to_set().insert(c));
}

proof fn lemma_take_to_set_step(t: Seq<char>, i: int)
    requires
        0 <= i < t.len(),
    ensures
        t.take(i + 1).to_set() == t.take(i).to_set().insert(t[i]),
{
    let a = t.take(i);
    let b = t.take(i + 1);
    assert forall|x: char| b.to_set().contains(x) implies a.to_set().insert(t[i]).contains(x) by {
        let k = choose|k: int| 0 <= k < b.len() && #[trigger] b[k] == x;
        if k < i {
            assert(a[k] == x);
        }
    }
    assert forall|x: char| a.to_set().insert(t[i]).contains(x) implies b.to_set().contains(x) by {
        if x == t[i] {
            assert(b[i] == x);
        } else {
            let k = choose|k: int| 0 <= k < a.len() && #[trigger] a[k] == x;
            assert(b[k] == x);
        }
    }
    assert(b.to_set() =~= a.to_set().insert(t[i]));
}

/// Inserts `c` at its ordered position, unless it is already present.
fn insert_sorted(out: &mut Vec<char>, c: char)
    requires
        sorted_strict(old(out)@),
    ensures
        sorted_strict(final(out)@),
        final(out)@.to_set() == old(out)@.to_set().insert(c),
{
    let n = out.len();
    let mut p: usize = 0;
    while p < n && out[p] < c
        invariant
            n == out@.len(),
            0 <= p <= n,
            sorted_strict(out@),
            forall|k: int| 0 <= k < p ==> out@[k] < c,
        decreases n - p,
    {
        p = p + 1;
    }
    if p < n && out[p] == c {
        proof {
            assert(out@.contains(c));
            assert(out@.to_set().insert(c) =~= out@.to_set());
        }
    } else {
        proof {
            lemma_insert_to_set(out@, p as int, c);
            out@.insert_ensures(p as int, c);
            let s = out@;
            let w = s.insert(p as int, c);
            assert forall|i: int, j: int| 0 <= i < j < w.len() implies w[i] < w[j] by {
                if j < p {
                } else if j == p {
                    assert(w[i] == s[i]);
                } else if i == p {
                    assert(w[j] == s[j - 1]);
                    if j - 1 > p {
                        assert(s[p as int] < s[j - 1]);
                    }
                } else if i < p {
                    assert(w[i] == s[i]);
                    assert(w[j] == s[j - 1]);
                } else {
                    assert(w[i] == s[i - 1]);
                    assert(w[j] == s[j - 1]);
                }
            }
        }
        out.insert(p, c);
    }
}

/// Deduplicates a string and sorts its characters by code point: the result
/// holds exactly the characters of the input, each once, in strictly
/// increasing order. Useful for spotting unwanted characters to add to a
/// blacklist, since sorting clusters them away from kanji and kana.
pub fn helper_dedupe_and_sort(xs: &str) -> (r: String)
    ensures
        r@.to_set() == xs@.to_set(),
        sorted_strict(r@),
{
    let ghost t = xs@;
    let v = to_chars(xs);
    let mut out: Vec<char> = Vec::new();
    let mut i: usize = 0;
    proof {
        assert(out@.to_set() =~= t.take(0).to_set());
    }
    while i < v.len()
        invariant
            t == v@,
            0 <= i <= t.len(),
            sorted_strict(out@),
            out@.to_set() == t.take(i as int).to_set(),
        decreases t.len() - i,
    {
        insert_sorted(&mut out, v[i]);
        proof {
            lemma_take_to_set_step(t, i as int);
        }
        i = i + 1;
    }
    proof {
        assert(t.take(t.len() as int) =~= t);
    }
    chars_to_string(&out)
}

proof fn lemma_strip_parens_identity(t: Seq<char>)
    requires
        forall|i: int|
            0 <= i < t.len() ==> !is_open_paren(#[trigger] t[i]) && !is_close_paren(t[i]),
    ensures
        strip_parens(t) == t,
    decreases t.len(),
{
    if t.len() > 0 {
        let rest = t.drop_first();
        assert forall|i: int| 0 <= i < rest.len() implies !is_open_paren(#[trigger] rest[i])
            && !is_close_paren(rest[i]) by {
            assert(rest[i] == t[i + 1]);
        }
        lemma_strip_parens_identity(rest);
        assert(seq![t[0]] + rest =~= t);
    }
}

proof fn lemma_filter_identity(t: Seq<char>, bl: Set<char>)
    requires
        forall|i: int| 0 <= i < t.len() ==> !bl.contains(#[trigger] t[i]),
    ensures
        filter_blacklist(t, bl) == t,
    decreases t.len(),
{
    if t.len() > 0 {
        let front = t.drop_last();
        assert forall|i: int| 0 <= i < front.len() implies !bl.contains(#[trigger] front[i]) by {
            assert(front[i] == t[i]);
        }
        lemma_filter_identity(front, bl);
        assert(front.push(t.last()) =~= t);
    }
}

/// Idempotence of the pipeline on already-clean text: where the input holds
/// no parenthesis character, no blacklisted character and no key of the
/// table, the output equals the input exactly.
pub proof fn lemma_clean_identity(t: Seq<char>, bl: Set<char>, m: Map<char, char>)
    requires
        forall|i: int|
            0 <= i < t.len() ==> !is_open_paren(#[trigger] t[i]) && !is_close_paren(t[i]),
        forall|i: int| 0 <= i < t.len() ==> !bl.contains(#[trigger] t[i]),
        forall|i: int| 0 <= i < t.len() ==> !m.dom().contains(#[trigger] t[i]),
    ensures
        clean_spec(t, bl, m) == t,
{
    lemma_strip_parens_identity(t);
    lemma_filter_identity(t, bl);
    assert(normalize_kana(t, m) =~= t);
}

} // verus!
