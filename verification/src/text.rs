//! Character-sequence utilities shared by the parsers and the cleaning
//! pipeline: counting and finding characters, decimal digit strings, and
//! conversions between `&str`, `Vec<char>` and `String`.

use vstd::prelude::*;

verus! {

/// Number of occurrences of `c` in `t`.
pub open spec fn count_char(t: Seq<char>, c: char) -> int
    decreases t.len(),
{
    if t.len() == 0 {
        0
    } else {
        count_char(t.drop_last(), c) + if t.last() == c {
            1int
        } else {
            0int
        }
    }
}

/// Whether `c` occurs anywhere in `t`.
pub open spec fn contains_char(t: Seq<char>, c: char) -> bool {
    exists|i: int| 0 <= i < t.len() && t[i] == c
}

pub proof fn lemma_count_char_bounds(t: Seq<char>, c: char)
    ensures
        0 <= count_char(t, c) <= t.len(),
    decreases t.len(),
{
    if t.len() > 0 {
        lemma_count_char_bounds(t.drop_last(), c);
    }
}

pub proof fn lemma_count_char_zero(t: Seq<char>, c: char)
    ensures
        count_char(t, c) == 0 <==> !contains_char(t, c),
    decreases t.len(),
{
    lemma_count_char_bounds(t, c);
    if t.len() > 0 {
        lemma_count_char_zero(t.drop_last(), c);
        lemma_count_char_bounds(t.drop_last(), c);
        if count_char(t, c) == 0 {
            assert forall|i: int| 0 <= i < t.len() implies t[i] != c by {
                if i < t.len() - 1 {
                    assert(t.drop_last()[i] == t[i]);
                }
            }
        } else {
            if count_char(t.drop_last(), c) != 0 {
                let i = choose|i: int| 0 <= i < t.drop_last().len() && t.drop_last()[i] == c;
                assert(t[i] == c);
            } else {
                assert(t.last() == c);
            }
        }
    }
}

pub proof fn lemma_count_char_concat(a: Seq<char>, b: Seq<char>, c: char)
    ensures
        count_char(a + b, c) == count_char(a, c) + count_char(b, c),
    decreases b.len(),
{
    if b.len() == 0 {
        assert(a + b =~= a);
    } else {
        assert((a + b).drop_last() =~= a + b.drop_last());
        assert((a + b).last() == b.last());
        lemma_count_char_concat(a, b.drop_last(), c);
    }
}

/// Index of the first occurrence of `c` in `t`, or `t.len()` if there is none.
pub open spec fn find_char(t: Seq<char>, c: char) -> int
    decreases t.len(),
{
    if t.len() == 0 {
        0
    } else if t[0] == c {
        0
    } else {
        1 + find_char(t.drop_first(), c)
    }
}

pub proof fn lemma_find_char(t: Seq<char>, c: char)
    ensures
        0 <= find_char(t, c) <= t.len(),
        find_char(t, c) < t.len() ==> t[find_char(t, c)] == c,
        forall|j: int| 0 <= j < find_char(t, c) ==> t[j] != c,
        find_char(t, c) == t.len() ==> !contains_char(t, c),
    decreases t.len(),
{
    if t.len() > 0 && t[0] != c {
        lemma_find_char(t.drop_first(), c);
        let f = find_char(t, c);
        assert forall|j: int| 0 <= j < f implies t[j] != c by {
            if j > 0 {
                assert(t.drop_first()[j - 1] == t[j]);
            }
        }
        if f == t.len() {
            assert forall|i: int| 0 <= i < t.len() implies t[i] != c by {
                if i > 0 {
                    assert(t.drop_first()[i - 1] == t[i]);
                }
            }
        }
    }
}

/// The first occurrence is pinned down by a witness position: `c` occurs at
/// `i` and nowhere before it.
pub proof fn lemma_find_char_at(t: Seq<char>, c: char, i: int)
    requires
        0 <= i <= t.len(),
        i < t.len() ==> t[i] == c,
        i == t.len() ==> !contains_char(t, c),
        forall|j: int| 0 <= j < i ==> t[j] != c,
    ensures
        find_char(t, c) == i,
    decreases t.len(),
{
    if t.len() == 0 {
    } else if t[0] == c {
    } else {
        assert forall|j: int| 0 <= j < i - 1 implies t.drop_first()[j] != c by {
            assert(t.drop_first()[j] == t[j + 1]);
        }
        if i == t.len() {
            assert forall|j: int| 0 <= j < t.drop_first().len() implies !(t.drop_first()[j]
                == c) by {
                assert(t.drop_first()[j] == t[j + 1]);
            }
            lemma_find_char_at(t.drop_first(), c, i - 1);
        } else {
            assert(t.drop_first()[i - 1] == t[i]);
            lemma_find_char_at(t.drop_first(), c, i - 1);
        }
    }
}

/// Collects the characters of a string slice into a vector.
pub fn to_chars(s: &str) -> (r: Vec<char>)
    ensures
        r@ == s@,
{
    let n = s.unicode_len();
    let mut r: Vec<char> = Vec::new();
    let mut i: usize = 0;
    while i < n
        invariant
            n == s@.len(),
            0 <= i <= n,
            r@ == s@.take(i as int),
        decreases n - i,
    {
        let c = s.get_char(i);
        r.push(c);
        i = i + 1;
        proof {
            assert(r@ =~= s@.take(i as int));
        }
    }
    proof {
        assert(r@ =~= s@);
    }
    r
}

/// Relies on `String::push` from std: appends one character at the end of
/// the string.
#[verifier::external_body]
fn push_char(s: &mut String, c: char)
    ensures
        final(s)@ == old(s)@.push(c),
{
    s.push(c);
}

/// Collects a vector of characters into an owned string.
pub fn chars_to_string(v: &Vec<char>) -> (r: String)
    ensures
        r@ == v@,
{
    let mut r = String::new();
    let mut i: usize = 0;
    while i < v.len()
        invariant
            0 <= i <= v@.len(),
            r@ == v@.take(i as int),
        decreases v@.len() - i,
    {
        push_char(&mut r, v[i]);
        i = i + 1;
        proof {
            assert(r@ =~= v@.take(i as int));
        }
    }
    proof {
        assert(r@ =~= v@);
    }
    r
}

/// Counts the occurrences of `c` in `v`.
pub fn count_char_in(v: &Vec<char>, c: char) -> (r: usize)
    ensures
        r == count_char(v@, c),
{
    proof {
        lemma_count_char_bounds(v@, c);
    }
    let mut r: usize = 0;
    let mut i: usize = 0;
    while i < v.len()
        invariant
            0 <= i <= v@.len(),
            r == count_char(v@.take(i as int), c),
            r <= i,
        decreases v@.len() - i,
    {
        proof {
            assert(v@.take(i + 1).drop_last() =~= v@.take(i as int));
            assert(v@.take(i + 1).last() == v@[i as int]);
        }
        if v[i] == c {
            r = r + 1;
        }
        i = i + 1;
    }
    proof {
        assert(v@.take(v@.len() as int) =~= v@);
    }
    r
}

/// Finds the first occurrence of `c` in `v`, returning `v.len()` if absent.
pub fn find_char_in(v: &Vec<char>, c: char) -> (r: usize)
    ensures
        r == find_char(v@, c),
{
    let mut i: usize = 0;
    while i < v.len()
        invariant
            0 <= i <= v@.len(),
            forall|j: int| 0 <= j < i ==> v@[j] != c,
        decreases v@.len() - i,
    {
        if v[i] == c {
            proof {
                lemma_find_char_at(v@, c, i as int);
            }
            return i;
        }
        i = i + 1;
    }
    proof {
        lemma_find_char_at(v@, c, v@.len() as int);
    }
    i
}

/// Whether `c` is a decimal digit `0`..`9`.
pub open spec fn is_digit(c: char) -> bool {
    48 <= c as u32 <= 57
}

/// Numeric value of a digit character.
pub open spec fn digit_val(c: char) -> int {
    c as u32 - 48
}

/// Whether every character of `t` is a decimal digit.
pub open spec fn all_digits(t: Seq<char>) -> bool {
    forall|i: int| 0 <= i < t.len() ==> is_digit(t[i])
}

/// Value of `t` read as a decimal numeral (most significant digit first).
pub open spec fn digits_value(t: Seq<char>) -> int
    decreases t.len(),
{
    if t.len() == 0 {
        0
    } else {
        digits_value(t.drop_last()) * 10 + digit_val(t.last())
    }
}

pub proof fn lemma_digits_value_nonneg(t: Seq<char>)
    requires
        all_digits(t),
    ensures
        digits_value(t) >= 0,
    decreases t.len(),
{
    if t.len() > 0 {
        assert(all_digits(t.drop_last())) by {
            assert forall|i: int| 0 <= i < t.len() - 1 implies is_digit(t.drop_last()[i]) by {
                assert(t.drop_last()[i] == t[i]);
            }
        }
        lemma_digits_value_nonneg(t.drop_last());
        assert(is_digit(t.last()));
    }
}

/// A decimal numeral is at least as large as any of its prefixes.
pub proof fn lemma_digits_value_take_le(t: Seq<char>, i: int)
    requires
        all_digits(t),
        0 <= i <= t.len(),
    ensures
        digits_value(t.take(i)) <= digits_value(t),
    decreases t.len(),
{
    if i == t.len() {
        assert(t.take(i) =~= t);
    } else {
        assert(all_digits(t.drop_last())) by {
            assert forall|k: int| 0 <= k < t.len() - 1 implies is_digit(t.drop_last()[k]) by {
                assert(t.drop_last()[k] == t[k]);
            }
        }
        assert(t.take(i) =~= t.drop_last().take(i));
        lemma_digits_value_take_le(t.drop_last(), i);
        lemma_digits_value_nonneg(t.drop_last());
        assert(is_digit(t.last()));
    }
}

/// Reads a digit string as a decimal number, refusing values above `cap`.
pub fn decimal_value_capped(v: &Vec<char>, cap: u64) -> (r: Option<u64>)
    requires
        all_digits(v@),
        cap <= 0xffff_ffff,
    ensures
        match r {
            Some(x) => x == digits_value(v@) && x <= cap,
            None => digits_value(v@) > cap,
        },
{
    let mut acc: u64 = 0;
    let mut i: usize = 0;
    while i < v.len()
        invariant
            all_digits(v@),
            cap <= 0xffff_ffff,
            0 <= i <= v@.len(),
            acc == digits_value(v@.take(i as int)),
            acc <= cap,
        decreases v@.len() - i,
    {
        assert(is_digit(v@[i as int]));
        let d = (v[i] as u32) - 48;
        let next = acc * 10 + (d as u64);
        proof {
            assert(v@.take(i + 1).drop_last() =~= v@.take(i as int));
            assert(v@.take(i + 1).last() == v@[i as int]);
        }
        if next > cap {
            proof {
                lemma_digits_value_take_le(v@, i + 1);
            }
            return None;
        }
        acc = next;
        i = i + 1;
    }
    proof {
        assert(v@.take(v@.len() as int) =~= v@);
    }
    Some(acc)
}

/// Checks every character of `v` for being a decimal digit.
pub fn check_all_digits(v: &Vec<char>) -> (b: bool)
    ensures
        b == all_digits(v@),
{
    let mut i: usize = 0;
    while i < v.len()
        invariant
            0 <= i <= v@.len(),
            forall|j: int| 0 <= j < i ==> is_digit(v@[j]),
        decreases v@.len() - i,
    {
        let u = v[i] as u32;
        if u < 48 || u > 57 {
            return false;
        }
        i = i + 1;
    }
    true
}

/// The digit character for a value `0 <= d <= 9`.
pub open spec fn digit_char(d: int) -> char {
    if d == 0 {
        '0'
    } else if d == 1 {
        '1'
    } else if d == 2 {
        '2'
    } else if d == 3 {
        '3'
    } else if d == 4 {
        '4'
    } else if d == 5 {
        '5'
    } else if d == 6 {
        '6'
    } else if d == 7 {
        '7'
    } else if d == 8 {
        '8'
    } else {
        '9'
    }
}

/// Shortest decimal numeral of a non-negative number.
pub open spec fn dec_digits(n: int) -> Seq<char>
    decreases n,
{
    if n < 10 {
        seq![digit_char(n)]
    } else {
        dec_digits(n / 10).push(digit_char(n % 10))
    }
}

pub proof fn lemma_digit_char_val(d: int)
    requires
        0 <= d <= 9,
    ensures
        is_digit(digit_char(d)),
        digit_val(digit_char(d)) == d,
{
}

pub proof fn lemma_dec_digits_are_digits(n: int)
    requires
        n >= 0,
    ensures
        all_digits(dec_digits(n)),
        dec_digits(n).len() >= 1,
    decreases n,
{
    if n < 10 {
        lemma_digit_char_val(n);
    } else {
        lemma_dec_digits_are_digits(n / 10);
        lemma_digit_char_val(n % 10);
        let s = dec_digits(n / 10);
        let whole = s.push(digit_char(n % 10));
        assert forall|i: int| 0 <= i < whole.len() implies is_digit(#[trigger] whole[i]) by {
            if i < s.len() {
                assert(whole[i] == s[i]);
            }
        }
    }
}

/// Reading the printed numeral back gives the number itself.
pub proof fn lemma_dec_digits_value(n: int)
    requires
        n >= 0,
    ensures
        digits_value(dec_digits(n)) == n,
    decreases n,
{
    if n < 10 {
        lemma_digit_char_val(n);
        assert(digits_value(Seq::<char>::empty()) == 0);
        assert(seq![digit_char(n)].drop_last() =~= Seq::<char>::empty());
        assert(seq![digit_char(n)].last() == digit_char(n));
        assert(digits_value(dec_digits(n)) == n);
    } else {
        lemma_dec_digits_value(n / 10);
        lemma_digit_char_val(n % 10);
        let s = dec_digits(n / 10);
        let whole = s.push(digit_char(n % 10));
        assert(whole.drop_last() =~= s);
        assert(whole.last() == digit_char(n % 10));
        assert(digits_value(whole) == digits_value(s) * 10 + digit_val(whole.last()));
        assert(n / 10 * 10 + n % 10 == n) by {
            vstd::arithmetic::div_mod::lemma_fundamental_div_mod(n, 10);
        }
        assert(dec_digits(n) == whole);
        assert(digits_value(dec_digits(n)) == n);
    }
}

/// Length of the printed numeral for numbers below 100000.
pub proof fn lemma_dec_digits_len(n: int)
    requires
        0 <= n < 100000,
    ensures
        dec_digits(n).len() == if n < 10 {
            1int
        } else if n < 100 {
            2int
        } else if n < 1000 {
            3int
        } else if n < 10000 {
            4int
        } else {
            5int
        },
    decreases n,
{
    if n >= 10 {
        lemma_dec_digits_len(n / 10);
    }
}

/// A leading zero does not change the value of a numeral.
pub proof fn lemma_digits_value_prepend_zero(t: Seq<char>)
    ensures
        digits_value(seq!['0'] + t) == digits_value(t),
    decreases t.len(),
{
    if t.len() == 0 {
        assert(seq!['0'] + t =~= seq!['0']);
        assert(digits_value(seq!['0']) == digits_value(seq!['0'].drop_last()) * 10 + digit_val(
            '0',
        ));
        assert(seq!['0'].drop_last() =~= Seq::<char>::empty());
    } else {
        let s = seq!['0'] + t;
        assert(s.drop_last() =~= seq!['0'] + t.drop_last());
        assert(s.last() == t.last());
        lemma_digits_value_prepend_zero(t.drop_last());
    }
}

/// Copies `v[from..to]` into a fresh vector.
pub fn subrange_vec(v: &Vec<char>, from: usize, to: usize) -> (r: Vec<char>)
    requires
        0 <= from <= to <= v@.len(),
    ensures
        r@ == v@.subrange(from as int, to as int),
{
    let mut r: Vec<char> = Vec::new();
    let mut i: usize = from;
    while i < to
        invariant
            from <= i <= to <= v@.len(),
            r@ == v@.subrange(from as int, i as int),
        decreases to - i,
    {
        r.push(v[i]);
        i = i + 1;
        proof {
            assert(r@ =~= v@.subrange(from as int, i as int));
        }
    }
    r
}

/// Occurrence counts decompose around any position.
pub proof fn lemma_count_char_split_at(t: Seq<char>, k: int, c: char)
    requires
        0 <= k < t.len(),
    ensures
        count_char(t, c) == count_char(t.take(k), c) + (if t[k] == c {
            1int
        } else {
            0int
        }) + count_char(t.skip(k + 1), c),
{
    assert(t =~= (t.take(k) + seq![t[k]]) + t.skip(k + 1));
    lemma_count_char_concat(t.take(k) + seq![t[k]], t.skip(k + 1), c);
    lemma_count_char_concat(t.take(k), seq![t[k]], c);
    assert(count_char(seq![t[k]], c) == if t[k] == c {
        1int
    } else {
        0int
    }) by {
        assert(seq![t[k]].drop_last() =~= Seq::<char>::empty());
        assert(seq![t[k]].last() == t[k]);
        assert(count_char(Seq::<char>::empty(), c) == 0);
    }
}

/// A digit string holds no occurrence of a non-digit character.
pub proof fn lemma_all_digits_excludes(x: Seq<char>, c: char)
    requires
        all_digits(x),
        !is_digit(c),
    ensures
        count_char(x, c) == 0,
        !contains_char(x, c),
{
    assert(!contains_char(x, c)) by {
        if contains_char(x, c) {
            let j = choose|j: int| 0 <= j < x.len() && x[j] == c;
            assert(is_digit(x[j]));
        }
    }
    lemma_count_char_zero(x, c);
}

/// Where `c` occurs at all, the first occurrence splits `t` into a prefix
/// without `c` and a remainder holding one occurrence fewer.
pub proof fn lemma_count_char_skip_first(t: Seq<char>, c: char)
    requires
        count_char(t, c) >= 1,
    ensures
        0 <= find_char(t, c) < t.len(),
        t[find_char(t, c)] == c,
        count_char(t.take(find_char(t, c)), c) == 0,
        count_char(t.skip(find_char(t, c) + 1), c) == count_char(t, c) - 1,
{
    lemma_count_char_zero(t, c);
    lemma_find_char(t, c);
    let f = find_char(t, c);
    assert(f < t.len());
    assert(!contains_char(t.take(f), c)) by {
        if contains_char(t.take(f), c) {
            let j = choose|j: int| 0 <= j < t.take(f).len() && t.take(f)[j] == c;
            assert(t[j] == c);
        }
    }
    lemma_count_char_zero(t.take(f), c);
    lemma_count_char_split_at(t, f, c);
}

/// The whitespace characters trimmed from line ends: space, tab, carriage
/// return and line feed.
pub open spec fn is_space(c: char) -> bool {
    c == ' ' || c == '\t' || c == '\r' || c == '\n'
}

/// `t` with its leading whitespace removed.
pub open spec fn trim_front(t: Seq<char>) -> Seq<char>
    decreases t.len(),
{
    if t.len() > 0 && is_space(t[0]) {
        trim_front(t.drop_first())
    } else {
        t
    }
}

/// `t` with its trailing whitespace removed.
pub open spec fn trim_back(t: Seq<char>) -> Seq<char>
    decreases t.len(),
{
    if t.len() > 0 && is_space(t.last()) {
        trim_back(t.drop_last())
    } else {
        t
    }
}

/// `t` with whitespace removed at both ends.
pub open spec fn trim_spec(t: Seq<char>) -> Seq<char> {
    trim_back(trim_front(t))
}

pub proof fn lemma_trim_front_skip(t: Seq<char>, a: int)
    requires
        0 <= a <= t.len(),
        forall|j: int| 0 <= j < a ==> is_space(t[j]),
        a < t.len() ==> !is_space(t[a]),
    ensures
        trim_front(t) == t.skip(a),
    decreases a,
{
    if a == 0 {
        assert(t.skip(0) =~= t);
    } else {
        assert(is_space(t[0]));
        assert forall|j: int| 0 <= j < a - 1 implies is_space(t.drop_first()[j]) by {
            assert(t.drop_first()[j] == t[j + 1]);
        }
        if a - 1 < t.drop_first().len() {
            assert(t.drop_first()[a - 1] == t[a]);
        }
        lemma_trim_front_skip(t.drop_first(), a - 1);
        assert(t.drop_first().skip(a - 1) =~= t.skip(a));
    }
}

pub proof fn lemma_trim_back_take(t: Seq<char>, b: int)
    requires
        0 <= b <= t.len(),
        forall|j: int| b <= j < t.len() ==> is_space(t[j]),
        b > 0 ==> !is_space(t[b - 1]),
    ensures
        trim_back(t) == t.take(b),
    decreases t.len(),
{
    if b == t.len() {
        assert(t.take(b) =~= t);
    } else {
        assert(is_space(t.last()));
        assert forall|j: int| b <= j < t.drop_last().len() implies is_space(t.drop_last()[j]) by {
            assert(t.drop_last()[j] == t[j]);
        }
        if b > 0 {
            assert(t.drop_last()[b - 1] == t[b - 1]);
        }
        lemma_trim_back_take(t.drop_last(), b);
        assert(t.drop_last().take(b) =~= t.take(b));
    }
}

/// Checks the whitespace predicate on one character.
pub fn is_space_char(c: char) -> (r: bool)
    ensures
        r == is_space(c),
{
    c == ' ' || c == '\t' || c == '\r' || c == '\n'
}

/// Removes whitespace from both ends of `v`.
pub fn trim_vec(v: &Vec<char>) -> (r: Vec<char>)
    ensures
        r@ == trim_spec(v@),
{
    let n = v.len();
    let mut a: usize = 0;
    while a < n && is_space_char(v[a])
        invariant
            n == v@.len(),
            0 <= a <= n,
            forall|j: int| 0 <= j < a ==> is_space(v@[j]),
        decreases n - a,
    {
        a = a + 1;
    }
    proof {
        lemma_trim_front_skip(v@, a as int);
    }
    let ghost rest = v@.skip(a as int);
    let mut b: usize = n;
    while b > a && is_space_char(v[b - 1])
        invariant
            n == v@.len(),
            0 <= a <= b <= n,
            rest == v@.skip(a as int),
            forall|j: int| b <= j < n ==> is_space(v@[j]),
        decreases b,
    {
        b = b - 1;
    }
    proof {
        assert forall|j: int| b - a <= j < rest.len() implies is_space(rest[j]) by {
            assert(rest[j] == v@[j + a]);
        }
        if b > a {
            assert(rest[b - a - 1] == v@[b - 1]);
        }
        lemma_trim_back_take(rest, b - a);
        assert(rest.take(b - a) =~= v@.subrange(a as int, b as int));
    }
    subrange_vec(v, a, b)
}

/// Whether the pattern `p` occurs in `t` starting at position `i`.
pub open spec fn has_pat_at(t: Seq<char>, p: Seq<char>, i: int) -> bool {
    0 <= i && i + p.len() <= t.len() && t.subrange(i, i + p.len() as int) == p
}

/// Index of the first occurrence of `p` in `t`; `t.len()` if there is none.
pub open spec fn find_pat(t: Seq<char>, p: Seq<char>) -> int
    decreases t.len(),
{
    if p.len() == 0 {
        0
    } else if t.len() < p.len() {
        t.len() as int
    } else if t.take(p.len() as int) == p {
        0
    } else {
        1 + find_pat(t.drop_first(), p)
    }
}

/// The views of a sequence of character vectors.
pub open spec fn seq_views(r: Seq<Vec<char>>) -> Seq<Seq<char>> {
    r.map_values(|v: Vec<char>| v@)
}

/// The views of a sequence of strings.
pub open spec fn string_views(r: Seq<String>) -> Seq<Seq<char>> {
    r.map_values(|s: String| s@)
}

pub proof fn lemma_has_pat_shift(t: Seq<char>, p: Seq<char>, j: int)
    requires
        t.len() > 0,
        0 <= j,
    ensures
        has_pat_at(t.drop_first(), p, j) <==> has_pat_at(t, p, j + 1),
{
    if 0 <= j && j + p.len() <= t.drop_first().len() {
        assert(t.drop_first().subrange(j, j + p.len() as int) =~= t.subrange(
            j + 1,
            j + 1 + p.len() as int,
        ));
    }
}

pub proof fn lemma_find_pat(t: Seq<char>, p: Seq<char>)
    requires
        p.len() > 0,
    ensures
        0 <= find_pat(t, p) <= t.len(),
        find_pat(t, p) < t.len() ==> has_pat_at(t, p, find_pat(t, p)),
        forall|j: int| 0 <= j < find_pat(t, p) ==> !has_pat_at(t, p, j),
        find_pat(t, p) == t.len() ==> forall|j: int| !has_pat_at(t, p, j),
    decreases t.len(),
{
    let f = find_pat(t, p);
    if t.len() < p.len() {
        assert forall|j: int| !has_pat_at(t, p, j) by {}
    } else if t.take(p.len() as int) == p {
        assert(t.subrange(0, p.len() as int) =~= t.take(p.len() as int));
    } else {
        lemma_find_pat(t.drop_first(), p);
        assert(!has_pat_at(t, p, 0)) by {
            assert(t.subrange(0, p.len() as int) =~= t.take(p.len() as int));
        }
        assert forall|j: int| 0 <= j < f implies !has_pat_at(t, p, j) by {
            if j > 0 {
                lemma_has_pat_shift(t, p, j - 1);
            }
        }
        if f == t.len() {
            assert forall|j: int| !has_pat_at(t, p, j) by {
                if j > 0 {
                    lemma_has_pat_shift(t, p, j - 1);
                }
            }
        } else {
            lemma_has_pat_shift(t, p, f - 1);
        }
    }
}

/// The first occurrence of a pattern is pinned down by a witness position.
pub proof fn lemma_find_pat_at(t: Seq<char>, p: Seq<char>, i: int)
    requires
        p.len() > 0,
        has_pat_at(t, p, i),
        forall|j: int| 0 <= j < i ==> !has_pat_at(t, p, j),
    ensures
        find_pat(t, p) == i,
{
    lemma_find_pat(t, p);
    let f = find_pat(t, p);
    if f < i {
        assert(has_pat_at(t, p, f));
        assert(false);
    } else if f > i {
        if f == t.len() {
            assert(!has_pat_at(t, p, i));
        }
        assert(false);
    }
}

/// When the pattern occurs nowhere, `find_pat` reports the length.
pub proof fn lemma_find_pat_none(t: Seq<char>, p: Seq<char>)
    requires
        p.len() > 0,
        forall|j: int| !has_pat_at(t, p, j),
    ensures
        find_pat(t, p) == t.len(),
{
    lemma_find_pat(t, p);
    if find_pat(t, p) < t.len() {
        assert(has_pat_at(t, p, find_pat(t, p)));
    }
}

/// The pieces of `t` between consecutive occurrences of `p`, scanned left to
/// right; the pattern's own characters appear in no piece.
pub open spec fn split_pat(t: Seq<char>, p: Seq<char>) -> Seq<Seq<char>>
    decreases t.len(),
{
    if p.len() == 0 {
        seq![t]
    } else {
        let i = find_pat(t, p);
        if 0 <= i && i + p.len() <= t.len() {
            seq![t.take(i)] + split_pat(t.skip(i + p.len() as int), p)
        } else {
            seq![t]
        }
    }
}

/// Splitting always yields at least one piece.
pub proof fn lemma_split_pat_len(t: Seq<char>, p: Seq<char>)
    ensures
        split_pat(t, p).len() >= 1,
    decreases t.len(),
{
    if p.len() > 0 {
        let i = find_pat(t, p);
        if 0 <= i && i + p.len() <= t.len() {
            lemma_split_pat_len(t.skip(i + p.len() as int), p);
        }
    }
}

/// Whether `p` occurs at position `i` of `t`, checked character by character.
pub fn pat_matches_at(t: &Vec<char>, p: &Vec<char>, i: usize) -> (b: bool)
    requires
        i + p@.len() <= t@.len(),
    ensures
        b == has_pat_at(t@, p@, i as int),
{
    let tlen = t.len();
    let plen = p.len();
    let mut j: usize = 0;
    while j < plen
        invariant
            tlen == t@.len(),
            plen == p@.len(),
            i + p@.len() <= t@.len(),
            0 <= j <= p@.len(),
            forall|k: int| 0 <= k < j ==> t@[i + k] == p@[k],
        decreases p@.len() - j,
    {
        if t[i + j] != p[j] {
            proof {
                assert(t@.subrange(i as int, i + p@.len() as int)[j as int] == t@[i + j]);
            }
            return false;
        }
        j = j + 1;
    }
    proof {
        assert(t@.subrange(i as int, i + p@.len() as int) =~= p@);
    }
    true
}

/// Splits `t` on every occurrence of the pattern `p`.
pub fn split_pattern(t: &Vec<char>, p: &Vec<char>) -> (r: Vec<Vec<char>>)
    requires
        p@.len() > 0,
    ensures
        seq_views(r@) == split_pat(t@, p@),
{
    let tlen = t.len();
    let plen = p.len();
    let mut r: Vec<Vec<char>> = Vec::new();
    let mut start: usize = 0;
    let mut i: usize = 0;
    proof {
        assert(t@.skip(0) =~= t@);
        assert(seq_views(r@) =~= Seq::<Seq<char>>::empty());
        assert(seq_views(r@) + split_pat(t@.skip(0), p@) =~= split_pat(t@, p@));
    }
    while plen <= tlen && i <= tlen - plen
        invariant
            tlen == t@.len(),
            plen == p@.len(),
            p@.len() > 0,
            0 <= start <= i <= t@.len(),
            split_pat(t@, p@) == seq_views(r@) + split_pat(t@.skip(start as int), p@),
            forall|j: int| start <= j < i ==> !has_pat_at(t@, p@, j),
        decreases t@.len() - i,
    {
        if pat_matches_at(t, p, i) {
            let piece = subrange_vec(t, start, i);
            proof {
                let rest = t@.skip(start as int);
                assert forall|j: int| 0 <= j < i - start implies !has_pat_at(rest, p@, j) by {
                    if j + p@.len() <= rest.len() {
                        assert(rest.subrange(j, j + p@.len() as int) =~= t@.subrange(
                            start + j,
                            start + j + p@.len() as int,
                        ));
                        assert(!has_pat_at(t@, p@, start + j));
                    }
                }
                assert(has_pat_at(rest, p@, i - start)) by {
                    assert(rest.subrange(i - start, i - start + p@.len() as int) =~= t@.subrange(
                        i as int,
                        i + p@.len() as int,
                    ));
                }
                lemma_find_pat_at(rest, p@, i - start);
                assert(rest.take(i - start) =~= t@.subrange(start as int, i as int));
                assert(rest.skip(i - start + p@.len() as int) =~= t@.skip(i + p@.len() as int));
                assert(seq_views(r@.push(piece)) =~= seq_views(r@).push(piece@));
                assert(seq_views(r@).push(piece@) + split_pat(t@.skip(i + p@.len() as int), p@)
                    =~= seq_views(r@) + (seq![piece@] + split_pat(
                    t@.skip(i + p@.len() as int),
                    p@,
                )));
            }
            r.push(piece);
            start = i + plen;
            i = start;
        } else {
            i = i + 1;
        }
    }
    let last = subrange_vec(t, start, tlen);
    proof {
        let rest = t@.skip(start as int);
        assert forall|j: int| !has_pat_at(rest, p@, j) by {
            if 0 <= j && j + p@.len() <= rest.len() {
                assert(rest.subrange(j, j + p@.len() as int) =~= t@.subrange(
                    start + j,
                    start + j + p@.len() as int,
                ));
                if start + j < i {
                    assert(!has_pat_at(t@, p@, start + j));
                } else {
                    assert(start + j + p@.len() > t@.len());
                }
            }
        }
        lemma_find_pat_none(rest, p@);
        assert(rest =~= t@.subrange(start as int, t@.len() as int));
    }
    r.push(last);
    proof {
        assert(split_pat(t@.skip(start as int), p@) =~= seq![t@.subrange(
            start as int,
            t@.len() as int,
        )]);
        assert(seq_views(r@) =~= split_pat(t@, p@));
    }
    r
}

} // verus!
