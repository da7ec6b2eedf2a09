//! Character-level text helpers: trimming, splitting, numeric parsing and
//! rendering. All logic works on `Vec<char>` with specifications over
//! `Seq<char>`; strings are converted at the boundaries.

use vstd::prelude::*;

use crate::model::Word;

verus! {

/// An ASCII whitespace character.
pub open spec fn is_ws(c: char) -> bool {
    c == ' ' || c == '\t' || c == '\n' || c == '\r'
}

/// An ASCII decimal digit.
pub open spec fn is_digit(c: char) -> bool {
    '0' <= c <= '9'
}

/// An ASCII letter.
pub open spec fn is_alpha(c: char) -> bool {
    ('a' <= c <= 'z') || ('A' <= c <= 'Z')
}

/// Test a character for ASCII whitespace.
pub fn ws_char(c: char) -> (r: bool)
    ensures
        r == is_ws(c),
{
    c == ' ' || c == '\t' || c == '\n' || c == '\r'
}

/// Test a character for ASCII digit.
pub fn digit_char(c: char) -> (r: bool)
    ensures
        r == is_digit(c),
{
    '0' <= c && c <= '9'
}

/// Test a character for ASCII letter.
pub fn alpha_char(c: char) -> (r: bool)
    ensures
        r == is_alpha(c),
{
    ('a' <= c && c <= 'z') || ('A' <= c && c <= 'Z')
}

/// The characters of a string, in order.
pub fn str_chars(s: &str) -> (r: Vec<char>)
    ensures
        r@ == s@,
{
    let n = s.unicode_len();
    let mut r: Vec<char> = Vec::new();
    let mut i: usize = 0;
    while i < n
        invariant
            0 <= i <= n,
            n == s@.len(),
            r@ == s@.take(i as int),
        decreases n - i,
    {
        let c = s.get_char(i);
        r.push(c);
        proof {
            assert(s@.take(i + 1) =~= s@.take(i as int).push(s@[i as int]));
        }
        i += 1;
    }
    proof {
        assert(s@.take(n as int) =~= s@);
    }
    r
}

/// A string made of the given characters, in order.
///
/// Relies on `String: FromIterator<char>`: collecting characters yields the
/// string of exactly those characters.
#[verifier::external_body]
pub fn chars_string(v: &Vec<char>) -> (r: String)
    ensures
        r@ == v@,
{
    v.iter().collect()
}

/// The characters of `v` in positions `a..b`.
pub fn chars_range(v: &Vec<char>, a: usize, b: usize) -> (r: Vec<char>)
    requires
        0 <= a <= b <= v@.len(),
    ensures
        r@ == v@.subrange(a as int, b as int),
{
    let mut r: Vec<char> = Vec::new();
    let mut i: usize = a;
    while i < b
        invariant
            a <= i <= b <= v@.len(),
            r@ == v@.subrange(a as int, i as int),
        decreases b - i,
    {
        r.push(v[i]);
        proof {
            assert(v@.subrange(a as int, i + 1) =~= v@.subrange(a as int, i as int).push(
                v@[i as int],
            ));
        }
        i += 1;
    }
    r
}

/// Whether `s` equals `t`.
pub fn chars_eq(s: &Vec<char>, t: &[char]) -> (r: bool)
    ensures
        r == (s@ == t@),
{
    if s.len() != t.len() {
        return false;
    }
    let mut i: usize = 0;
    while i < s.len()
        invariant
            0 <= i <= s@.len(),
            s@.len() == t@.len(),
            forall|j: int| 0 <= j < i ==> s@[j] == t@[j],
        decreases s@.len() - i,
    {
        if s[i] != t[i] {
            return false;
        }
        i += 1;
    }
    assert(s@ =~= t@);
    true
}

/// `s` without leading ASCII whitespace.
pub open spec fn trim_start_spec(s: Seq<char>) -> Seq<char>
    decreases s.len(),
{
    if s.len() > 0 && is_ws(s[0]) {
        trim_start_spec(s.drop_first())
    } else {
        s
    }
}

/// `s` without trailing ASCII whitespace.
pub open spec fn trim_end_spec(s: Seq<char>) -> Seq<char>
    decreases s.len(),
{
    if s.len() > 0 && is_ws(s.last()) {
        trim_end_spec(s.drop_last())
    } else {
        s
    }
}

/// `s` without leading and trailing ASCII whitespace.
pub open spec fn trim_spec(s: Seq<char>) -> Seq<char> {
    trim_end_spec(trim_start_spec(s))
}

/// Dropping a whitespace prefix does not change the trimmed-start form.
proof fn lemma_trim_start_skip(s: Seq<char>, k: int)
    requires
        0 <= k <= s.len(),
        forall|j: int| 0 <= j < k ==> is_ws(s[j]),
    ensures
        trim_start_spec(s) == trim_start_spec(s.skip(k)),
    decreases k,
{
    if k > 0 {
        assert(s.drop_first() =~= s.skip(1));
        assert(s.skip(1).skip(k - 1) =~= s.skip(k));
        lemma_trim_start_skip(s.skip(1), k - 1);
    } else {
        assert(s.skip(0) =~= s);
    }
}

/// Dropping a whitespace suffix does not change the trimmed-end form.
proof fn lemma_trim_end_take(s: Seq<char>, k: int)
    requires
        0 <= k <= s.len(),
        forall|j: int| k <= j < s.len() ==> is_ws(s[j]),
    ensures
        trim_end_spec(s) == trim_end_spec(s.take(k)),
    decreases s.len() - k,
{
    if k < s.len() {
        assert(s.drop_last() =~= s.take(s.len() - 1));
        assert(s.take(s.len() - 1).take(k) =~= s.take(k));
        lemma_trim_end_take(s.take(s.len() - 1), k);
    } else {
        assert(s.take(k) =~= s);
    }
}

/// Trim ASCII whitespace from both ends.
#[verifier::loop_isolation(false)]
pub fn trim_chars(v: &Vec<char>) -> (r: Vec<char>)
    ensures
        r@ == trim_spec(v@),
{
    let mut start: usize = 0;
    while start < v.len() && ws_char(v[start])
        invariant
            0 <= start <= v@.len(),
            forall|j: int| 0 <= j < start ==> is_ws(v@[j]),
        decreases v@.len() - start,
    {
        start += 1;
    }
    proof {
        lemma_trim_start_skip(v@, start as int);
        if start < v@.len() {
            assert(trim_start_spec(v@.skip(start as int)) == v@.skip(start as int));
        } else {
            assert(v@.skip(start as int) =~= Seq::<char>::empty());
        }
    }
    let mut end: usize = v.len();
    while end > start && ws_char(v[end - 1])
        invariant
            start <= end <= v@.len(),
            forall|j: int| end <= j < v@.len() ==> is_ws(v@[j]),
        decreases end,
    {
        end -= 1;
    }
    proof {
        let t = v@.skip(start as int);
        assert(t.len() == v@.len() - start);
        assert(forall|j: int|
            end - start <= j < t.len() ==> is_ws(#[trigger] t[j]));
        lemma_trim_end_take(t, end - start);
        if end > start {
            assert(!is_ws(t[end - start - 1]));
            assert(trim_end_spec(t.take(end - start)) == t.take(end - start));
        } else {
            assert(t.take(0) =~= Seq::<char>::empty());
        }
        assert(t.take(end - start) =~= v@.subrange(start as int, end as int));
    }
    chars_range(v, start, end)
}

/// `s` without any leading ASCII digits.
pub open spec fn strip_digits_spec(s: Seq<char>) -> Seq<char>
    decreases s.len(),
{
    if s.len() > 0 && is_digit(s[0]) {
        strip_digits_spec(s.drop_first())
    } else {
        s
    }
}

/// Dropping a digit prefix does not change the digit-stripped form.
proof fn lemma_strip_digits_skip(s: Seq<char>, k: int)
    requires
        0 <= k <= s.len(),
        forall|j: int| 0 <= j < k ==> is_digit(s[j]),
    ensures
        strip_digits_spec(s) == strip_digits_spec(s.skip(k)),
    decreases k,
{
    if k > 0 {
        assert(s.drop_first() =~= s.skip(1));
        assert(s.skip(1).skip(k - 1) =~= s.skip(k));
        lemma_strip_digits_skip(s.skip(1), k - 1);
    } else {
        assert(s.skip(0) =~= s);
    }
}

/// Strip all leading ASCII digits.
#[verifier::loop_isolation(false)]
pub fn strip_digits(v: &Vec<char>) -> (r: Vec<char>)
    ensures
        r@ == strip_digits_spec(v@),
{
    let mut start: usize = 0;
    while start < v.len() && digit_char(v[start])
        invariant
            0 <= start <= v@.len(),
            forall|j: int| 0 <= j < start ==> is_digit(v@[j]),
        decreases v@.len() - start,
    {
        start += 1;
    }
    proof {
        lemma_strip_digits_skip(v@, start as int);
        if start < v@.len() {
            assert(strip_digits_spec(v@.skip(start as int)) == v@.skip(start as int));
        } else {
            assert(v@.skip(start as int) =~= Seq::<char>::empty());
        }
        assert(v@.skip(start as int) =~= v@.subrange(start as int, v@.len() as int));
    }
    chars_range(v, start, v.len())
}

/// `s` with every copy of the non-empty suffix `pat` removed from its end.
pub open spec fn strip_suffix_rep_spec(s: Seq<char>, pat: Seq<char>) -> Seq<char>
    decreases s.len(),
{
    if pat.len() > 0 && s.len() >= pat.len() && s.subrange(
        s.len() - pat.len(),
        s.len() as int,
    ) == pat {
        strip_suffix_rep_spec(s.take(s.len() - pat.len()), pat)
    } else {
        s
    }
}

/// Whether `v` ends with `pat`.
#[verifier::loop_isolation(false)]
pub fn ends_with(v: &Vec<char>, pat: &[char]) -> (r: bool)
    ensures
        r == (v@.len() >= pat@.len() && v@.subrange(
            v@.len() - pat@.len(),
            v@.len() as int,
        ) == pat@),
{
    if v.len() < pat.len() {
        return false;
    }
    let off = v.len() - pat.len();
    let mut i: usize = 0;
    while i < pat.len()
        invariant
            0 <= i <= pat@.len(),
            pat@.len() <= v@.len(),
            off == v@.len() - pat@.len(),
            forall|j: int| 0 <= j < i ==> v@[off + j] == pat@[j],
        decreases pat@.len() - i,
    {
        if v[off + i] != pat[i] {
            assert(v@.subrange(v@.len() - pat@.len(), v@.len() as int)[i as int] != pat@[i as int]);
            return false;
        }
        i += 1;
    }
    assert(v@.subrange(v@.len() - pat@.len(), v@.len() as int) =~= pat@);
    true
}

/// Remove every copy of the non-empty suffix `pat` from the end of `v`.
pub fn strip_suffix_rep(v: Vec<char>, pat: &[char]) -> (r: Vec<char>)
    requires
        pat@.len() > 0,
    ensures
        r@ == strip_suffix_rep_spec(v@, pat@),
    decreases v@.len(),
{
    let mut v = v;
    if ends_with(&v, pat) {
        let n = v.len() - pat.len();
        v.truncate(n);
        proof {
            assert(v@ =~= v@.take(n as int));
        }
        strip_suffix_rep(v, pat)
    } else {
        v
    }
}

/// The first index of `c` in `s`, if any.
pub open spec fn find_spec(s: Seq<char>, c: char) -> Option<int>
    decreases s.len(),
{
    if s.len() == 0 {
        None
    } else if s[0] == c {
        Some(0int)
    } else {
        match find_spec(s.drop_first(), c) {
            None => None,
            Some(i) => Some(i + 1),
        }
    }
}

/// `find_spec` finds the first occurrence.
pub proof fn lemma_find_spec(s: Seq<char>, c: char)
    ensures
        match find_spec(s, c) {
            Some(i) => 0 <= i < s.len() && s[i] == c && forall|j: int| 0 <= j < i ==> s[j] != c,
            None => forall|j: int| 0 <= j < s.len() ==> s[j] != c,
        },
    decreases s.len(),
{
    if s.len() > 0 && s[0] != c {
        lemma_find_spec(s.drop_first(), c);
        assert(forall|j: int| 1 <= j < s.len() ==> s[j] == s.drop_first()[j - 1]);
    }
}

/// Find the first occurrence of `c`.
pub fn find_char(v: &Vec<char>, c: char) -> (r: Option<usize>)
    ensures
        match r {
            Some(i) => find_spec(v@, c) == Some(i as int),
            None => find_spec(v@, c) is None,
        },
{
    proof {
        lemma_find_spec(v@, c);
    }
    let mut i: usize = 0;
    while i < v.len()
        invariant
            0 <= i <= v@.len(),
            forall|j: int| 0 <= j < i ==> v@[j] != c,
            match find_spec(v@, c) {
                Some(k) => 0 <= k < v@.len() && v@[k] == c && forall|j: int|
                    0 <= j < k ==> v@[j] != c,
                None => forall|j: int| 0 <= j < v@.len() ==> v@[j] != c,
            },
        decreases v@.len() - i,
    {
        if v[i] == c {
            return Some(i);
        }
        i += 1;
    }
    None
}

/// `s` split at every occurrence of `c`: the pieces between occurrences, in
/// order; always at least one piece.
pub open spec fn split_spec(s: Seq<char>, c: char) -> Seq<Seq<char>>
    decreases s.len(),
{
    match find_spec(s, c) {
        None => seq![s],
        Some(i) => if 0 <= i < s.len() {
            seq![s.take(i)] + split_spec(s.skip(i + 1), c)
        } else {
            seq![s]
        },
    }
}

/// The character sequences held by a vector of character vectors.
pub open spec fn chars_views(r: Seq<Vec<char>>) -> Seq<Seq<char>> {
    Seq::new(r.len(), |i: int| r[i]@)
}

/// Appending a vector appends its view.
pub proof fn lemma_chars_views_push(r: Seq<Vec<char>>, x: Vec<char>)
    ensures
        chars_views(r.push(x)) == chars_views(r).push(x@),
{
    assert(chars_views(r.push(x)) =~= chars_views(r).push(x@));
}

/// Split `v` at every occurrence of `c`.
#[verifier::loop_isolation(false)]
pub fn split_chars(v: &Vec<char>, c: char) -> (r: Vec<Vec<char>>)
    ensures
        chars_views(r@) == split_spec(v@, c),
    decreases v@.len(),
{
    proof {
        lemma_find_spec(v@, c);
    }
    match find_char(v, c) {
        None => {
            let mut r: Vec<Vec<char>> = Vec::new();
            r.push(chars_range(v, 0, v.len()));
            proof {
                assert(v@.subrange(0, v@.len() as int) =~= v@);
                assert(chars_views(r@) =~= split_spec(v@, c));
            }
            r
        },
        Some(i) => {
            let n = v.len();
            proof {
                assert((i as int) < v@.len());
            }
            let head = chars_range(v, 0, i);
            let rest = chars_range(v, i + 1, n);
            let tail = split_chars(&rest, c);
            let mut r: Vec<Vec<char>> = Vec::new();
            r.push(head);
            let mut k: usize = 0;
            while k < tail.len()
                invariant
                    0 <= k <= tail@.len(),
                    chars_views(r@) =~= seq![head@] + chars_views(tail@).take(k as int),
                decreases tail@.len() - k,
            {
                let ghost r0 = r@;
                let piece = clone_chars(&tail[k]);
                proof {
                    lemma_chars_views_push(r0, piece);
                }
                r.push(piece);
                proof {
                    assert(chars_views(tail@).take(k + 1) =~= chars_views(tail@).take(
                        k as int,
                    ).push(tail@[k as int]@));
                    assert(chars_views(r@) == chars_views(r0).push(tail@[k as int]@));
                    assert(chars_views(r@) =~= seq![head@] + chars_views(tail@).take(k + 1));
                }
                k += 1;
            }
            proof {
                assert(chars_views(tail@).take(tail@.len() as int) =~= chars_views(tail@));
                assert(rest@ =~= v@.skip(i + 1));
                assert(head@ =~= v@.take(i as int));
                assert(chars_views(r@) =~= split_spec(v@, c));
            }
            r
        },
    }
}

/// Clone a character vector; the clone holds the same characters.
pub fn clone_chars(v: &Vec<char>) -> (r: Vec<char>)
    ensures
        r@ == v@,
{
    let r = v.clone();
    proof {
        assert forall|i: int| 0 <= i < v@.len() implies r@[i] == v@[i] by {
            assert(cloned::<char>(v@[i], r@[i]));
        }
        assert(r@ =~= v@);
    }
    r
}

/// Whether every character is an ASCII digit.
pub open spec fn all_digits(s: Seq<char>) -> bool {
    forall|i: int| 0 <= i < s.len() ==> is_digit(s[i])
}

/// The numeric value of a digit sequence, most significant digit first.
pub open spec fn digits_val(s: Seq<char>) -> int
    decreases s.len(),
{
    if s.len() == 0 {
        0
    } else {
        digits_val(s.drop_last()) * 10 + (s.last() as int - '0' as int)
    }
}

/// A digit sequence's value is at least the value of any of its prefixes.
proof fn lemma_digits_val_mono(s: Seq<char>, i: int)
    requires
        0 <= i <= s.len(),
        all_digits(s),
    ensures
        digits_val(s) >= 0,
        digits_val(s.take(i)) <= digits_val(s),
    decreases s.len(),
{
    if s.len() == 0 {
        assert(s.take(i) =~= s);
    } else if i == s.len() {
        assert(s.take(i) =~= s);
        assert(all_digits(s.drop_last()));
        lemma_digits_val_mono(s.drop_last(), s.len() - 1);
    } else {
        assert(all_digits(s.drop_last()));
        assert(s.drop_last().take(i) =~= s.take(i));
        lemma_digits_val_mono(s.drop_last(), i);
    }
}

/// The value parsed from an unsigned decimal literal: an optional leading
/// `'+'`, then at least one digit; fails when empty, on any other character,
/// or when the value does not fit.
pub open spec fn parse_usize_spec(s: Seq<char>) -> Option<usize> {
    let ds = if s.len() > 0 && s[0] == '+' {
        s.drop_first()
    } else {
        s
    };
    if ds.len() > 0 && all_digits(ds) && digits_val(ds) <= usize::MAX {
        Some(digits_val(ds) as usize)
    } else {
        None
    }
}

/// Parse an unsigned decimal literal.
#[verifier::loop_isolation(false)]
pub fn parse_usize(v: &Vec<char>) -> (r: Option<usize>)
    ensures
        r == parse_usize_spec(v@),
{
    let start: usize = if v.len() > 0 && v[0] == '+' {
        1
    } else {
        0
    };
    let ghost ds = if v@.len() > 0 && v@[0] == '+' {
        v@.drop_first()
    } else {
        v@
    };
    proof {
        assert(ds =~= v@.subrange(start as int, v@.len() as int));
    }
    if v.len() == start {
        return None;
    }
    let mut acc: usize = 0;
    let mut i: usize = start;
    while i < v.len()
        invariant
            start <= i <= v@.len(),
            all_digits(v@.subrange(start as int, i as int)),
            acc == digits_val(v@.subrange(start as int, i as int)),
        decreases v@.len() - i,
    {
        let c = v[i];
        if !digit_char(c) {
            proof {
                assert(!is_digit(ds[i - start]));
            }
            return None;
        }
        let d: usize = ((c as u32) - 48) as usize;
        let ghost pre = v@.subrange(start as int, i as int);
        let ghost pre1 = v@.subrange(start as int, i + 1);
        proof {
            assert(pre1.drop_last() =~= pre);
            assert(pre1.last() == v@[i as int]);
            assert(digits_val(pre1) == acc * 10 + d);
        }
        let next = match acc.checked_mul(10) {
            Some(t) => t.checked_add(d),
            None => None,
        };
        match next {
            Some(n) => {
                acc = n;
            },
            None => {
                proof {
                    assert(digits_val(pre1) > usize::MAX);
                    if all_digits(ds) {
                        lemma_digits_val_mono(ds, i + 1 - start);
                        assert(ds.take(i + 1 - start) =~= pre1);
                        assert(digits_val(ds) > usize::MAX);
                    }
                }
                return None;
            },
        }
        i += 1;
    }
    proof {
        assert(v@.subrange(start as int, v@.len() as int) =~= ds);
    }
    Some(acc)
}

/// The character for one decimal digit.
pub open spec fn dec_digit(d: int) -> char {
    if d == 0 {
        '0'
    } else if d == 1 {
        '1'
    } else if d == 2 {
        '2'
    } else if d == 3 {
        '3'
    } else if d == 4 {
        '4'
    } else if d == 5 {
        '5'
    } else if d == 6 {
        '6'
    } else if d == 7 {
        '7'
    } else if d == 8 {
        '8'
    } else {
        '9'
    }
}

/// The decimal rendering of a non-negative number.
pub open spec fn dec_chars(n: int) -> Seq<char>
    decreases n,
{
    if n < 10 {
        seq![dec_digit(n)]
    } else {
        dec_chars(n / 10).push(dec_digit(n % 10))
    }
}

/// The decimal rendering of a word: a minus sign for negatives, then digits.
pub open spec fn int_chars(w: int) -> Seq<char> {
    if w < 0 {
        seq!['-'] + dec_chars(-w)
    } else {
        dec_chars(w)
    }
}

/// The character for one decimal digit.
fn dec_digit_char(d: u64) -> (c: char)
    requires
        d < 10,
    ensures
        c == dec_digit(d as int),
{
    match d {
        0 => '0',
        1 => '1',
        2 => '2',
        3 => '3',
        4 => '4',
        5 => '5',
        6 => '6',
        7 => '7',
        8 => '8',
        _ => '9',
    }
}

/// Append the decimal rendering of `n`.
fn push_dec(n: u64, out: &mut Vec<char>)
    ensures
        final(out)@ == old(out)@ + dec_chars(n as int),
    decreases n,
{
    if n < 10 {
        out.push(dec_digit_char(n));
        proof {
            assert(old(out)@ + dec_chars(n as int) =~= out@);
        }
    } else {
        let ghost mid = old(out)@ + dec_chars(n as int / 10);
        push_dec(n / 10, out);
        proof {
            assert(out@ == mid);
        }
        out.push(dec_digit_char(n % 10));
        proof {
            assert(old(out)@ + dec_chars(n as int) =~= out@);
        }
    }
}

/// The decimal rendering of a word.
pub fn word_chars(w: Word) -> (r: Vec<char>)
    ensures
        r@ == int_chars(w as int),
{
    let mut out: Vec<char> = Vec::new();
    if w >= 0 {
        push_dec(w as u64, &mut out);
        proof {
            assert(Seq::<char>::empty() + dec_chars(w as int) =~= dec_chars(w as int));
        }
    } else {
        out.push('-');
        let mag: u64 = if w == i64::MIN {
            9223372036854775808u64
        } else {
            (-w) as u64
        };
        proof {
            assert(mag as int == -(w as int));
        }
        let ghost pre = out@;
        push_dec(mag, &mut out);
        proof {
            assert(pre + dec_chars(mag as int) =~= seq!['-'] + dec_chars(-(w as int)));
        }
    }
    out
}

/// The character for one hexadecimal digit, upper case.
pub open spec fn hex_digit(d: int) -> char {
    if d == 0 {
        '0'
    } else if d == 1 {
        '1'
    } else if d == 2 {
        '2'
    } else if d == 3 {
        '3'
    } else if d == 4 {
        '4'
    } else if d == 5 {
        '5'
    } else if d == 6 {
        '6'
    } else if d == 7 {
        '7'
    } else if d == 8 {
        '8'
    } else if d == 9 {
        '9'
    } else if d == 10 {
        'A'
    } else if d == 11 {
        'B'
    } else if d == 12 {
        'C'
    } else if d == 13 {
        'D'
    } else if d == 14 {
        'E'
    } else {
        'F'
    }
}

/// The upper-case hexadecimal rendering of a byte sequence: two digits per
/// byte, high nibble first.
pub open spec fn hex_chars(bs: Seq<u8>) -> Seq<char> {
    Seq::new(
        bs.len() * 2,
        |i: int|
            if i % 2 == 0 {
                hex_digit(bs[i / 2] as int / 16)
            } else {
                hex_digit(bs[i / 2] as int % 16)
            },
    )
}

/// Render bytes as upper-case hexadecimal.
///
/// Relies on `hex::encode_upper`: each byte becomes two upper-case
/// hexadecimal digits, high nibble first, in byte order.
#[verifier::external_body]
pub fn hex_upper_chars(bytes: &Vec<u8>) -> (r: Vec<char>)
    ensures
        r@ == hex_chars(bytes@),
{
    hex::encode_upper(bytes.as_slice()).chars().collect()
}

/// The big-endian bytes of a word's two's-complement value.
pub open spec fn be_bytes_spec(w: Word) -> Seq<u8> {
    Seq::new(8, |i: int| (((w as u64) >> (((7 - i) * 8) as u64)) & 0xff) as u8)
}

/// A byte-sized mask leaves at most a byte.
proof fn lemma_mask_byte(x: u64)
    ensures
        x & 0xff <= 0xff,
{
    assert(x & 0xff <= 0xff) by (bit_vector);
}

/// The big-endian bytes of a word's two's-complement value.
pub fn word_be_bytes(w: Word) -> (r: Vec<u8>)
    ensures
        r@ == be_bytes_spec(w),
{
    let u = w as u64;
    let mut r: Vec<u8> = Vec::new();
    let mut i: usize = 0;
    while i < 8
        invariant
            0 <= i <= 8,
            u == w as u64,
            r@.len() == i,
            forall|j: int| 0 <= j < i ==> r@[j] == be_bytes_spec(w)[j],
        decreases 8 - i,
    {
        let sh: u64 = ((7 - i) as u64) * 8;
        let b = (u >> sh) & 0xff;
        proof {
            lemma_mask_byte(u >> sh);
        }
        r.push(b as u8);
        i += 1;
    }
    proof {
        assert(r@ =~= be_bytes_spec(w));
    }
    r
}

/// The textual rendering of a word read as a boolean: `false` for zero,
/// `true` for one, empty for anything else.
pub open spec fn bool_chars(w: Word) -> Seq<char> {
    if w == 0 {
        seq!['f', 'a', 'l', 's', 'e']
    } else if w == 1 {
        seq!['t', 'r', 'u', 'e']
    } else {
        Seq::empty()
    }
}

/// Render a word read as a boolean.
pub fn bool_word_chars(w: Word) -> (r: Vec<char>)
    ensures
        r@ == bool_chars(w),
{
    let mut r: Vec<char> = Vec::new();
    if w == 0 {
        r.push('f');
        r.push('a');
        r.push('l');
        r.push('s');
        r.push('e');
        proof {
            assert(r@ =~= bool_chars(w));
        }
    } else if w == 1 {
        r.push('t');
        r.push('r');
        r.push('u');
        r.push('e');
        proof {
            assert(r@ =~= bool_chars(w));
        }
    } else {
        proof {
            assert(r@ =~= bool_chars(w));
        }
    }
    r
}

/// Append all of `p` to `out`.
pub fn extend_chars(out: &mut Vec<char>, p: &Vec<char>)
    ensures
        final(out)@ == old(out)@ + p@,
{
    let mut i: usize = 0;
    while i < p.len()
        invariant
            0 <= i <= p@.len(),
            out@ == old(out)@ + p@.take(i as int),
        decreases p@.len() - i,
    {
        out.push(p[i]);
        proof {
            assert(old(out)@ + p@.take(i + 1) =~= (old(out)@ + p@.take(i as int)).push(
                p@[i as int],
            ));
        }
        i += 1;
    }
    proof {
        assert(p@.take(p@.len() as int) =~= p@);
    }
}

/// The pieces joined with the separator between consecutive pieces.
pub open spec fn join_spec(parts: Seq<Seq<char>>, sep: Seq<char>) -> Seq<char>
    decreases parts.len(),
{
    if parts.len() == 0 {
        Seq::empty()
    } else if parts.len() == 1 {
        parts[0]
    } else {
        parts[0] + sep + join_spec(parts.drop_first(), sep)
    }
}

/// Join character vectors with a separator.
#[verifier::loop_isolation(false)]
pub fn join_chars(parts: &Vec<Vec<char>>, sep: &Vec<char>) -> (r: Vec<char>)
    ensures
        r@ == join_spec(chars_views(parts@), sep@),
{
    let ghost views = chars_views(parts@);
    let mut out: Vec<char> = Vec::new();
    proof {
        assert(views.skip(0) =~= views);
        assert(out@ + join_spec(views, sep@) =~= join_spec(views, sep@));
    }
    let mut i: usize = 0;
    while i < parts.len()
        invariant
            0 <= i <= parts@.len(),
            views == chars_views(parts@),
            out@ + join_spec(views.skip(i as int), sep@) == join_spec(views, sep@),
        decreases parts@.len() - i,
    {
        proof {
            assert(views.skip(i as int)[0] == parts@[i as int]@);
            assert(views.skip(i as int).drop_first() =~= views.skip(i + 1));
        }
        extend_chars(&mut out, &parts[i]);
        if i + 1 < parts.len() {
            extend_chars(&mut out, sep);
            proof {
                assert(out@ + join_spec(views.skip(i + 1), sep@) =~= join_spec(views, sep@));
            }
        } else {
            proof {
                assert(views.skip(i + 1) =~= Seq::<Seq<char>>::empty());
                assert(out@ + join_spec(views.skip(i + 1), sep@) =~= join_spec(views, sep@));
            }
        }
        i += 1;
    }
    proof {
        assert(views.skip(parts@.len() as int) =~= Seq::<Seq<char>>::empty());
        assert(out@ + Seq::<char>::empty() =~= out@);
    }
    out
}


} // verus!
