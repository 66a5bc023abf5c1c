//! Character-level text utilities: whitespace trimming, token splitting,
//! substring search, pattern removal and digit handling. Everything here is
//! stated over `Seq<char>` views and proved, since the listing extractor and
//! the URL normalizer are built from these operations.

use vstd::prelude::*;

verus! {

/// The whitespace characters that trimming recognizes.
pub open spec fn is_space(c: char) -> bool {
    c == ' ' || c == '\t' || c == '\n' || c == '\r'
}

/// Executable test for [`is_space`].
pub fn is_space_char(c: char) -> (r: bool)
    ensures
        r == is_space(c),
{
    c == ' ' || c == '\t' || c == '\n' || c == '\r'
}

/// `s` with leading whitespace removed.
pub open spec fn spec_ltrim(s: Seq<char>) -> Seq<char>
    decreases s.len(),
{
    if s.len() > 0 && is_space(s[0]) {
        spec_ltrim(s.drop_first())
    } else {
        s
    }
}

/// `s` with trailing whitespace removed.
pub open spec fn spec_rtrim(s: Seq<char>) -> Seq<char>
    decreases s.len(),
{
    if s.len() > 0 && is_space(s[s.len() - 1]) {
        spec_rtrim(s.drop_last())
    } else {
        s
    }
}

/// `s` with surrounding whitespace removed.
pub open spec fn spec_trim(s: Seq<char>) -> Seq<char> {
    spec_ltrim(spec_rtrim(s))
}

fn ltrim<'a>(s: &'a str) -> (r: &'a str)
    ensures
        r@ == spec_ltrim(s@),
    decreases s@.len(),
{
    let n = s.unicode_len();
    if n > 0 && is_space_char(s.get_char(0)) {
        let rest = s.substring_char(1, n);
        proof {
            assert(rest@ =~= s@.drop_first());
        }
        ltrim(rest)
    } else {
        s
    }
}

fn rtrim<'a>(s: &'a str) -> (r: &'a str)
    ensures
        r@ == spec_rtrim(s@),
    decreases s@.len(),
{
    let n = s.unicode_len();
    if n > 0 && is_space_char(s.get_char(n - 1)) {
        let rest = s.substring_char(0, n - 1);
        proof {
            assert(rest@ =~= s@.drop_last());
        }
        rtrim(rest)
    } else {
        s
    }
}

/// `s` without surrounding whitespace.
pub fn trim<'a>(s: &'a str) -> (r: &'a str)
    ensures
        r@ == spec_trim(s@),
{
    ltrim(rtrim(s))
}

/// Number of characters before the first space of `s` (all of `s` if none).
pub open spec fn first_space(s: Seq<char>) -> int
    decreases s.len(),
{
    if s.len() == 0 {
        0
    } else if s[0] == ' ' {
        0
    } else {
        1 + first_space(s.drop_first())
    }
}

proof fn lemma_first_space_bound(s: Seq<char>)
    ensures
        0 <= first_space(s) <= s.len(),
    decreases s.len(),
{
    if s.len() > 0 && s[0] != ' ' {
        lemma_first_space_bound(s.drop_first());
    }
}

/// The token of `s` before its first space: everything up to (not including)
/// the first space character, or all of `s` when it has none.
pub open spec fn spec_token(s: Seq<char>) -> Seq<char> {
    s.take(first_space(s))
}

fn token_end(s: &str) -> (r: usize)
    ensures
        r == first_space(s@),
    decreases s@.len(),
{
    proof {
        lemma_first_space_bound(s@);
    }
    let n = s.unicode_len();
    if n == 0 {
        0
    } else if s.get_char(0) == ' ' {
        0
    } else {
        let rest = s.substring_char(1, n);
        proof {
            assert(rest@ =~= s@.drop_first());
            lemma_first_space_bound(rest@);
        }
        1 + token_end(rest)
    }
}

/// The part of `s` before its first space.
pub fn token<'a>(s: &'a str) -> (r: &'a str)
    ensures
        r@ == spec_token(s@),
{
    proof {
        lemma_first_space_bound(s@);
    }
    let e = token_end(s);
    s.substring_char(0, e)
}

/// `pat` occurs in `s` starting at position `i`.
pub open spec fn has_at(s: Seq<char>, pat: Seq<char>, i: int) -> bool {
    0 <= i && i + pat.len() <= s.len() && s.subrange(i, i + pat.len() as int) == pat
}

/// `pat` occurs somewhere in `s`.
pub open spec fn contains_seq(s: Seq<char>, pat: Seq<char>) -> bool {
    exists|i: int| has_at(s, pat, i)
}

/// Does `pat` occur in `s` at position `i`?
pub fn match_at(s: &str, pat: &str, i: usize) -> (r: bool)
    requires
        i + pat@.len() <= s@.len(),
    ensures
        r == has_at(s@, pat@, i as int),
{
    let n = s.unicode_len();
    let m = pat.unicode_len();
    let mut j: usize = 0;
    while j < m
        invariant
            0 <= j <= m,
            m == pat@.len(),
            n == s@.len(),
            i + m <= n,
            forall|k: int| 0 <= k < j ==> s@[i + k] == pat@[k],
        decreases m - j,
    {
        if s.get_char(i + j) != pat.get_char(j) {
            proof {
                assert(s@.subrange(i as int, i + m) != pat@) by {
                    assert(s@.subrange(i as int, i + m)[j as int] != pat@[j as int]);
                }
            }
            return false;
        }
        j = j + 1;
    }
    proof {
        assert(s@.subrange(i as int, i + m) =~= pat@);
    }
    true
}

/// Does `pat` occur anywhere in `s`?
pub fn contains_str(s: &str, pat: &str) -> (r: bool)
    ensures
        r == contains_seq(s@, pat@),
{
    match find_first(s, pat) {
        Some(_) => true,
        None => false,
    }
}

/// The position of the first occurrence of `pat` in `s`, if any.
pub fn find_first(s: &str, pat: &str) -> (r: Option<usize>)
    ensures
        match r {
            Some(i) => has_at(s@, pat@, i as int) && forall|k: int|
                0 <= k < i ==> !has_at(s@, pat@, k),
            None => !contains_seq(s@, pat@),
        },
{
    let n = s.unicode_len();
    let m = pat.unicode_len();
    if m > n {
        proof {
            assert(forall|i: int| !has_at(s@, pat@, i));
        }
        return None;
    }
    if m == 0 {
        proof {
            assert(s@.subrange(0, 0) =~= pat@);
            assert(has_at(s@, pat@, 0));
        }
        return Some(0);
    }
    let mut i: usize = 0;
    while i <= n - m
        invariant
            0 < m <= n,
            n == s@.len(),
            m == pat@.len(),
            0 <= i <= n - m + 1,
            forall|k: int| 0 <= k < i ==> !has_at(s@, pat@, k),
        decreases n - i,
    {
        if match_at(s, pat, i) {
            return Some(i);
        }
        i = i + 1;
    }
    proof {
        assert(forall|k: int| has_at(s@, pat@, k) ==> 0 <= k <= n - m);
    }
    None
}

/// `s` with every (non-overlapping, left-to-right) occurrence of `pat`
/// removed.
pub open spec fn spec_remove_all(s: Seq<char>, pat: Seq<char>) -> Seq<char>
    decreases s.len(),
    when pat.len() > 0
{
    if s.len() < pat.len() {
        s
    } else if s.take(pat.len() as int) == pat {
        spec_remove_all(s.skip(pat.len() as int), pat)
    } else {
        seq![s[0]] + spec_remove_all(s.drop_first(), pat)
    }
}

/// Removes every occurrence of `pat` from `s`, scanning left to right.
pub fn remove_all(s: &str, pat: &str) -> (r: String)
    requires
        pat@.len() > 0,
    ensures
        r@ == spec_remove_all(s@, pat@),
    decreases s@.len(),
{
    let n = s.unicode_len();
    let m = pat.unicode_len();
    if n < m {
        String::from_str(s)
    } else if match_at(s, pat, 0) {
        let rest = s.substring_char(m, n);
        proof {
            assert(rest@ =~= s@.skip(m as int));
            assert(s@.subrange(0, m as int) =~= s@.take(m as int));
        }
        remove_all(rest, pat)
    } else {
        proof {
            assert(s@.subrange(0, m as int) =~= s@.take(m as int));
        }
        let head = s.substring_char(0, 1);
        let rest = s.substring_char(1, n);
        proof {
            assert(rest@ =~= s@.drop_first());
            assert(head@ =~= seq![s@[0]]);
        }
        let tail = remove_all(rest, pat);
        String::from_str(head).concat(tail.as_str())
    }
}

/// `s` with every `.` removed.
pub open spec fn spec_strip_dots(s: Seq<char>) -> Seq<char>
    decreases s.len(),
{
    if s.len() == 0 {
        s
    } else if s[0] == '.' {
        spec_strip_dots(s.drop_first())
    } else {
        seq![s[0]] + spec_strip_dots(s.drop_first())
    }
}

/// Removes every `.` (the thousands separator) from `s`.
pub fn strip_dots(s: &str) -> (r: String)
    ensures
        r@ == spec_strip_dots(s@),
    decreases s@.len(),
{
    let n = s.unicode_len();
    if n == 0 {
        String::new()
    } else {
        let rest = s.substring_char(1, n);
        proof {
            assert(rest@ =~= s@.drop_first());
        }
        let tail = strip_dots(rest);
        if s.get_char(0) == '.' {
            tail
        } else {
            let head = s.substring_char(0, 1);
            proof {
                assert(head@ =~= seq![s@[0]]);
            }
            String::from_str(head).concat(tail.as_str())
        }
    }
}

/// `s` with every `,` replaced by `.`.
pub open spec fn spec_commas_to_dots(s: Seq<char>) -> Seq<char> {
    Seq::new(s.len(), |i: int| if s[i] == ',' { '.' } else { s[i] })
}

/// Replaces every `,` (the decimal separator) in `s` by `.`.
pub fn commas_to_dots(s: &str) -> (r: String)
    ensures
        r@ == spec_commas_to_dots(s@),
    decreases s@.len(),
{
    let n = s.unicode_len();
    if n == 0 {
        proof {
            assert(Seq::<char>::empty() =~= spec_commas_to_dots(s@));
        }
        String::new()
    } else {
        let rest = s.substring_char(1, n);
        proof {
            assert(rest@ =~= s@.drop_first());
        }
        let tail = commas_to_dots(rest);
        let head = if s.get_char(0) == ',' {
            "."
        } else {
            s.substring_char(0, 1)
        };
        proof {
            reveal_strlit(".");
            assert(head@ =~= seq![if s@[0] == ',' { '.' } else { s@[0] }]);
        }
        let r = String::from_str(head).concat(tail.as_str());
        proof {
            assert(r@ =~= spec_commas_to_dots(s@));
        }
        r
    }
}

/// The part of `s` after its last `/` (all of `s` when it has none).
pub open spec fn spec_last_segment(s: Seq<char>) -> Seq<char>
    decreases s.len(),
{
    if s.len() == 0 {
        s
    } else if s[s.len() - 1] == '/' {
        Seq::empty()
    } else {
        spec_last_segment(s.drop_last()) + seq![s[s.len() - 1]]
    }
}

/// Returns the final `/`-separated segment of `s`.
pub fn last_segment(s: &str) -> (r: String)
    ensures
        r@ == spec_last_segment(s@),
    decreases s@.len(),
{
    let n = s.unicode_len();
    if n == 0 {
        String::new()
    } else if s.get_char(n - 1) == '/' {
        String::new()
    } else {
        let rest = s.substring_char(0, n - 1);
        let last = s.substring_char(n - 1, n);
        proof {
            assert(rest@ =~= s@.drop_last());
            assert(last@ =~= seq![s@[s@.len() - 1]]);
        }
        last_segment(rest).concat(last)
    }
}

/// Is `c` a decimal digit?
pub open spec fn is_digit(c: char) -> bool {
    '0' <= c && c <= '9'
}

/// Executable test for [`is_digit`].
pub fn is_digit_char(c: char) -> (r: bool)
    ensures
        r == is_digit(c),
{
    '0' <= c && c <= '9'
}

/// The numeric value of a digit character.
pub open spec fn digit_val(c: char) -> int {
    c as int - '0' as int
}

/// Every character of `s` is a decimal digit.
pub open spec fn all_digits(s: Seq<char>) -> bool {
    forall|i: int| 0 <= i < s.len() ==> is_digit(#[trigger] s[i])
}

/// The number denoted by the digit string `s` (most significant first).
pub open spec fn seq_to_nat(s: Seq<char>) -> int
    decreases s.len(),
{
    if s.len() == 0 {
        0
    } else {
        seq_to_nat(s.drop_last()) * 10 + digit_val(s[s.len() - 1])
    }
}

proof fn lemma_seq_to_nat_nonneg(s: Seq<char>)
    requires
        all_digits(s),
    ensures
        seq_to_nat(s) >= 0,
    decreases s.len(),
{
    if s.len() > 0 {
        assert(all_digits(s.drop_last()));
        lemma_seq_to_nat_nonneg(s.drop_last());
    }
}

proof fn lemma_seq_to_nat_extend(s: Seq<char>, i: int)
    requires
        0 <= i < s.len(),
    ensures
        seq_to_nat(s.take(i + 1)) == seq_to_nat(s.take(i)) * 10 + digit_val(s[i]),
{
    assert(s.take(i + 1).drop_last() =~= s.take(i));
    assert(s.take(i + 1)[i] == s[i]);
}

proof fn lemma_seq_to_nat_prefix_grows(s: Seq<char>, i: int)
    requires
        all_digits(s),
        0 <= i <= s.len(),
    ensures
        seq_to_nat(s.take(i)) <= seq_to_nat(s),
    decreases s.len() - i,
{
    if i == s.len() {
        assert(s.take(i) =~= s);
    } else {
        lemma_seq_to_nat_extend(s, i);
        assert(all_digits(s.take(i)));
        lemma_seq_to_nat_nonneg(s.take(i));
        lemma_seq_to_nat_prefix_grows(s, i + 1);
    }
}

/// Parses `s` as an unsigned integer. Returns `Some` exactly when `s` is a
/// non-empty, all-digit string whose value fits in `u64`.
pub fn parse_u64(s: &str) -> (r: Option<u64>)
    ensures
        match r {
            Some(v) => s@.len() > 0 && all_digits(s@) && v == seq_to_nat(s@),
            None => s@.len() == 0 || !all_digits(s@) || seq_to_nat(s@) > u64::MAX,
        },
{
    let n = s.unicode_len();
    if n == 0 {
        return None;
    }
    let mut acc: u64 = 0;
    let mut i: usize = 0;
    while i < n
        invariant
            0 <= i <= n,
            n == s@.len(),
            all_digits(s@.take(i as int)),
            acc == seq_to_nat(s@.take(i as int)),
        decreases n - i,
    {
        let c = s.get_char(i);
        if !is_digit_char(c) {
            return None;
        }
        let d: u64 = (c as u32 - '0' as u32) as u64;
        proof {
            lemma_seq_to_nat_extend(s@, i as int);
        }
        let shifted = match acc.checked_mul(10) {
            Some(v) => v,
            None => {
                proof {
                    if all_digits(s@) {
                        lemma_seq_to_nat_extend(s@, i as int);
                        lemma_seq_to_nat_prefix_grows(s@, i + 1);
                    }
                }
                return None;
            },
        };
        let next = match shifted.checked_add(d) {
            Some(v) => v,
            None => {
                proof {
                    if all_digits(s@) {
                        lemma_seq_to_nat_extend(s@, i as int);
                        lemma_seq_to_nat_prefix_grows(s@, i + 1);
                    }
                }
                return None;
            },
        };
        acc = next;
        i = i + 1;
        proof {
            assert(all_digits(s@.take(i as int)));
        }
    }
    proof {
        assert(s@.take(n as int) =~= s@);
    }
    Some(acc)
}

/// The digit character for value `d` (0 through 9).
pub open spec fn digit_char(d: int) -> char {
    if d == 0 { '0' }
    else if d == 1 { '1' }
    else if d == 2 { '2' }
    else if d == 3 { '3' }
    else if d == 4 { '4' }
    else if d == 5 { '5' }
    else if d == 6 { '6' }
    else if d == 7 { '7' }
    else if d == 8 { '8' }
    else { '9' }
}

/// The decimal digit string of `n`, most significant digit first.
pub open spec fn spec_digits(n: int) -> Seq<char>
    decreases n,
{
    if n < 10 {
        seq![digit_char(n)]
    } else {
        spec_digits(n / 10) + seq![digit_char(n % 10)]
    }
}

fn digit_str(d: u64) -> (r: &'static str)
    requires
        d < 10,
    ensures
        r@ == seq![digit_char(d as int)],
{
    let r = if d == 0 { "0" }
    else if d == 1 { "1" }
    else if d == 2 { "2" }
    else if d == 3 { "3" }
    else if d == 4 { "4" }
    else if d == 5 { "5" }
    else if d == 6 { "6" }
    else if d == 7 { "7" }
    else { "8" };
    let r = if d == 9 { "9" } else { r };
    proof {
        reveal_strlit("0");
        reveal_strlit("1");
        reveal_strlit("2");
        reveal_strlit("3");
        reveal_strlit("4");
        reveal_strlit("5");
        reveal_strlit("6");
        reveal_strlit("7");
        reveal_strlit("8");
        reveal_strlit("9");
        assert(r@ =~= seq![digit_char(d as int)]);
    }
    r
}

/// Renders `n` in decimal.
pub fn u64_to_string(n: u64) -> (r: String)
    ensures
        r@ == spec_digits(n as int),
    decreases n,
{
    if n < 10 {
        String::from_str(digit_str(n))
    } else {
        let high = u64_to_string(n / 10);
        let low = digit_str(n % 10);
        high.concat(low)
    }
}

} // verus!
