//! Character-sequence utilities shared by the conversation codec and the
//! mutation pipeline: trimming, line-ending normalisation, substring search,
//! literal replacement and decimal digits, each with an exact specification.

use vstd::prelude::*;

verus! {

/// The whitespace characters recognised when trimming: ASCII whitespace.
pub open spec fn is_ws_char(c: char) -> bool {
    c == ' ' || c == '\t' || c == '\n' || c == '\r' || c == '\u{c}'
}

/// Executable form of [`is_ws_char`].
pub fn ws_char(c: char) -> (r: bool)
    ensures
        r == is_ws_char(c),
{
    c == ' ' || c == '\t' || c == '\n' || c == '\r' || c == '\u{c}'
}

/// `s` with leading whitespace removed.
pub open spec fn trim_start(s: Seq<char>) -> Seq<char>
    decreases s.len(),
{
    if s.len() > 0 && is_ws_char(s[0]) {
        trim_start(s.drop_first())
    } else {
        s
    }
}

/// `s` with trailing whitespace removed.
pub open spec fn trim_end(s: Seq<char>) -> Seq<char>
    decreases s.len(),
{
    if s.len() > 0 && is_ws_char(s.last()) {
        trim_end(s.drop_last())
    } else {
        s
    }
}

/// `s` with surrounding whitespace removed.
pub open spec fn trim(s: Seq<char>) -> Seq<char> {
    trim_end(trim_start(s))
}

/// The characters of `s`, one per element.
pub fn chars_of(s: &str) -> (r: Vec<char>)
    ensures
        r@ == s@,
{
    let n = s.unicode_len();
    let mut r: Vec<char> = Vec::new();
    let mut i: usize = 0;
    while i < n
        invariant
            n == s@.len(),
            i <= n,
            r@ == s@.subrange(0, i as int),
        decreases n - i,
    {
        r.push(s.get_char(i));
        i = i + 1;
        proof {
            assert(r@ =~= s@.subrange(0, i as int));
        }
    }
    proof {
        assert(r@ =~= s@);
    }
    r
}

/// The string whose characters are exactly `v`.
///
/// Relies on `core::iter::Iterator::collect` building a `String` from the
/// characters of the slice in order.
#[verifier::external_body]
pub(crate) fn string_of(v: &[char]) -> (r: String)
    ensures
        r@ == v@,
{
    v.iter().collect()
}

/// `trim_start` removes exactly the maximal whitespace prefix.
pub proof fn lemma_trim_start_skip(s: Seq<char>, i: int)
    requires
        0 <= i <= s.len(),
        forall|k: int| 0 <= k < i ==> is_ws_char(s[k]),
        i == s.len() || !is_ws_char(s[i]),
    ensures
        trim_start(s) == s.subrange(i, s.len() as int),
    decreases i,
{
    if i == 0 {
        assert(s.subrange(0, s.len() as int) =~= s);
    } else {
        assert(is_ws_char(s[0]));
        lemma_trim_start_skip(s.drop_first(), i - 1);
        assert(s.drop_first().subrange(i - 1, s.drop_first().len() as int) =~= s.subrange(
            i,
            s.len() as int,
        ));
    }
}

/// `trim_end` removes exactly the maximal whitespace suffix.
pub proof fn lemma_trim_end_take(s: Seq<char>, i: int)
    requires
        0 <= i <= s.len(),
        forall|k: int| i <= k < s.len() ==> is_ws_char(s[k]),
        i == 0 || !is_ws_char(s[i - 1]),
    ensures
        trim_end(s) == s.subrange(0, i),
    decreases s.len() - i,
{
    if i == s.len() {
        assert(s.subrange(0, i) =~= s);
    } else {
        assert(is_ws_char(s.last()));
        lemma_trim_end_take(s.drop_last(), i);
        assert(s.drop_last().subrange(0, i) =~= s.subrange(0, i));
    }
}

/// `v` with surrounding whitespace removed.
pub fn trim_chars(v: &[char]) -> (r: Vec<char>)
    ensures
        r@ == trim(v@),
{
    let n = v.len();
    let mut start: usize = 0;
    while start < n && ws_char(v[start])
        invariant
            n == v@.len(),
            start <= n,
            forall|k: int| 0 <= k < start ==> is_ws_char(v@[k]),
        decreases n - start,
    {
        start = start + 1;
    }
    proof {
        lemma_trim_start_skip(v@, start as int);
    }
    let ghost t = trim_start(v@);
    let mut end: usize = n;
    while end > start && ws_char(v[end - 1])
        invariant
            n == v@.len(),
            start <= end <= n,
            t == v@.subrange(start as int, n as int),
            forall|k: int| end <= k < n ==> is_ws_char(v@[k]),
        decreases end,
    {
        end = end - 1;
    }
    proof {
        assert(forall|k: int| end - start <= k < t.len() ==> is_ws_char(t[k]));
        assert(end - start == 0 || !is_ws_char(t[end - start - 1]));
        lemma_trim_end_take(t, end - start);
    }
    let mut r: Vec<char> = Vec::new();
    let mut i: usize = start;
    while i < end
        invariant
            start <= i <= end <= n,
            n == v@.len(),
            r@ == v@.subrange(start as int, i as int),
        decreases end - i,
    {
        r.push(v[i]);
        i = i + 1;
        proof {
            assert(r@ =~= v@.subrange(start as int, i as int));
        }
    }
    proof {
        assert(v@.subrange(start as int, end as int) =~= trim_end(t).subrange(
            0,
            trim_end(t).len() as int,
        ));
        assert(trim_end(t).subrange(0, trim_end(t).len() as int) =~= trim_end(t));
    }
    r
}

/// `pat` occurs in `s` at position `i`.
pub open spec fn matches_at(s: Seq<char>, pat: Seq<char>, i: int) -> bool {
    0 <= i && i + pat.len() <= s.len() && s.subrange(i, i + pat.len()) == pat
}

/// The first position `>= from` at which `pat` occurs in `s`, if any.
pub open spec fn find_from(s: Seq<char>, pat: Seq<char>, from: int) -> Option<int>
    decreases s.len() - from,
{
    if from < 0 || from + pat.len() > s.len() {
        None
    } else if pat.len() == 0 {
        Some(from)
    } else if s.subrange(from, from + pat.len()) == pat {
        Some(from)
    } else {
        find_from(s, pat, from + 1)
    }
}

/// Searching from a position that does not match continues one further on.
pub proof fn lemma_find_step(s: Seq<char>, pat: Seq<char>, from: int)
    requires
        0 <= from,
        pat.len() > 0,
        !matches_at(s, pat, from),
    ensures
        find_from(s, pat, from) == find_from(s, pat, from + 1),
{
}

/// If the first pattern character appears nowhere in `[from, to)`, the search
/// from `from` equals the search from `to`.
pub proof fn lemma_find_skip_region(s: Seq<char>, pat: Seq<char>, from: int, to: int)
    requires
        0 <= from <= to <= s.len(),
        pat.len() > 0,
        forall|k: int| from <= k < to ==> s[k] != pat[0],
    ensures
        find_from(s, pat, from) == find_from(s, pat, to),
    decreases to - from,
{
    if from < to {
        if from + pat.len() <= s.len() {
            assert(s.subrange(from, from + pat.len())[0] == s[from]);
            assert(s.subrange(from, from + pat.len()) != pat);
        }
        assert(!matches_at(s, pat, from));
        lemma_find_step(s, pat, from);
        lemma_find_skip_region(s, pat, from + 1, to);
    }
}

/// Any match position returned lies at or after `from` and truly matches.
pub proof fn lemma_find_spec(s: Seq<char>, pat: Seq<char>, from: int)
    requires
        0 <= from,
    ensures
        match find_from(s, pat, from) {
            Some(i) => from <= i && matches_at(s, pat, i) && forall|k: int|
                from <= k < i ==> !matches_at(s, pat, k),
            None => forall|k: int| from <= k ==> !matches_at(s, pat, k),
        },
    decreases s.len() - from,
{
    if from + pat.len() > s.len() {
    } else if pat.len() == 0 {
        assert(s.subrange(from, from + pat.len()) =~= pat);
    } else if s.subrange(from, from + pat.len()) == pat {
    } else {
        lemma_find_spec(s, pat, from + 1);
    }
}

/// The characters of `a` equal those of `b`.
pub fn chars_eq(a: &[char], b: &[char]) -> (r: bool)
    ensures
        r == (a@ == b@),
{
    if a.len() != b.len() {
        proof {
            assert(a@ != b@);
        }
        return false;
    }
    let n = a.len();
    let mut i: usize = 0;
    while i < n
        invariant
            n == a@.len() == b@.len(),
            i <= n,
            forall|k: int| 0 <= k < i ==> a@[k] == b@[k],
        decreases n - i,
    {
        if a[i] != b[i] {
            proof {
                assert(a@ != b@);
            }
            return false;
        }
        i = i + 1;
    }
    proof {
        assert(a@ =~= b@);
    }
    true
}

/// `pat` occurs in `hay` at position `i` (executable form of [`matches_at`]).
pub fn slice_matches_at(hay: &[char], pat: &[char], i: usize) -> (r: bool)
    ensures
        r == matches_at(hay@, pat@, i as int),
{
    if i > hay.len() || pat.len() > hay.len() - i {
        proof {
            assert(!matches_at(hay@, pat@, i as int));
        }
        return false;
    }
    let m = pat.len();
    let mut k: usize = 0;
    while k < m
        invariant
            m == pat@.len(),
            i + m <= hay@.len(),
            hay@.len() <= usize::MAX,
            k <= m,
            forall|j: int| 0 <= j < k ==> hay@[i + j] == pat@[j],
        decreases m - k,
    {
        if hay[i + k] != pat[k] {
            proof {
                assert(hay@.subrange(i as int, i + m) != pat@) by {
                    assert(hay@.subrange(i as int, i + m)[k as int] == hay@[i + k]);
                }
            }
            return false;
        }
        k = k + 1;
    }
    proof {
        assert(hay@.subrange(i as int, i + m) =~= pat@);
    }
    true
}

/// The first occurrence of `pat` in `hay` at or after `from` (executable form
/// of [`find_from`]).
pub fn find_pattern(hay: &[char], pat: &[char], from: usize) -> (r: Option<usize>)
    ensures
        match r {
            Some(i) => find_from(hay@, pat@, from as int) == Some(i as int),
            None => find_from(hay@, pat@, from as int) is None,
        },
{
    if pat.len() == 0 {
        if from <= hay.len() {
            return Some(from);
        }
        return None;
    }
    if pat.len() > hay.len() {
        return None;
    }
    let bound = hay.len() - pat.len();
    let mut i: usize = from;
    while i <= bound
        invariant
            from <= i,
            pat@.len() > 0,
            hay@.len() <= usize::MAX,
            bound == hay@.len() - pat@.len(),
            find_from(hay@, pat@, from as int) == find_from(hay@, pat@, i as int),
        decreases bound + 1 - i,
    {
        if slice_matches_at(hay, pat, i) {
            return Some(i);
        }
        proof {
            lemma_find_step(hay@, pat@, i as int);
        }
        i = i + 1;
    }
    None
}

/// `s` with every CRLF pair replaced by a lone LF.
pub open spec fn normalize_newlines(s: Seq<char>) -> Seq<char>
    decreases s.len(),
{
    if s.len() >= 2 && s[0] == '\r' && s[1] == '\n' {
        seq!['\n'] + normalize_newlines(s.skip(2))
    } else if s.len() > 0 {
        seq![s[0]] + normalize_newlines(s.skip(1))
    } else {
        Seq::empty()
    }
}

/// Executable form of [`normalize_newlines`].
pub fn normalize_newlines_chars(v: &[char]) -> (r: Vec<char>)
    ensures
        r@ == normalize_newlines(v@),
{
    let n = v.len();
    let mut r: Vec<char> = Vec::new();
    let mut i: usize = 0;
    proof {
        assert(v@.skip(0) =~= v@);
        assert(normalize_newlines(v@) =~= r@ + normalize_newlines(v@.skip(0)));
    }
    while i < n
        invariant
            n == v@.len(),
            i <= n,
            normalize_newlines(v@) == r@ + normalize_newlines(v@.skip(i as int)),
        decreases n - i,
    {
        let ghost pre = r@;
        let ghost rest = v@.skip(i as int);
        if v[i] == '\r' && i + 1 < n && v[i + 1] == '\n' {
            r.push('\n');
            proof {
                assert(rest[0] == '\r' && rest[1] == '\n');
                assert(rest.skip(2) =~= v@.skip(i + 2));
                assert(pre + normalize_newlines(rest) =~= r@ + normalize_newlines(v@.skip(i + 2)));
            }
            i = i + 2;
        } else {
            r.push(v[i]);
            proof {
                assert(rest[0] == v@[i as int]);
                assert(!(rest.len() >= 2 && rest[0] == '\r' && rest[1] == '\n'));
                assert(rest.skip(1) =~= v@.skip(i + 1));
                assert(pre + normalize_newlines(rest) =~= r@ + normalize_newlines(v@.skip(i + 1)));
            }
            i = i + 1;
        }
    }
    proof {
        assert(v@.skip(n as int) =~= Seq::<char>::empty());
        assert(normalize_newlines(v@) =~= r@);
    }
    r
}

/// Every occurrence of `pat` in `s` replaced by `rep`, scanning left to right
/// over non-overlapping occurrences. An empty `pat` leaves `s` unchanged.
pub open spec fn replace_all(s: Seq<char>, pat: Seq<char>, rep: Seq<char>) -> Seq<char>
    decreases s.len(),
{
    if pat.len() == 0 {
        s
    } else {
        match find_from(s, pat, 0) {
            Some(i) => if 0 <= i && i + pat.len() <= s.len() {
                s.subrange(0, i) + rep + replace_all(s.skip(i + pat.len()), pat, rep)
            } else {
                s
            },
            None => s,
        }
    }
}

/// Searching a suffix is searching the whole text at an offset.
pub proof fn lemma_find_shift(s: Seq<char>, pat: Seq<char>, c: int, x: int)
    requires
        0 <= c <= s.len(),
        0 <= x,
    ensures
        find_from(s.skip(c), pat, x) == match find_from(s, pat, c + x) {
            Some(i) => Some(i - c),
            None => None::<int>,
        },
    decreases s.len() - c - x,
{
    let t = s.skip(c);
    if x + pat.len() > t.len() {
    } else if pat.len() == 0 {
    } else {
        assert(t.subrange(x, x + pat.len()) =~= s.subrange(c + x, c + x + pat.len()));
        if s.subrange(c + x, c + x + pat.len()) == pat {
        } else {
            lemma_find_shift(s, pat, c, x + 1);
        }
    }
}

/// Appends `v[a..b]` to `out`.
pub fn push_range(out: &mut Vec<char>, v: &[char], a: usize, b: usize)
    requires
        a <= b <= v@.len(),
    ensures
        final(out)@ == old(out)@ + v@.subrange(a as int, b as int),
{
    let mut i: usize = a;
    proof {
        assert(out@ =~= out@ + v@.subrange(a as int, a as int));
    }
    while i < b
        invariant
            a <= i <= b <= v@.len(),
            out@ == old(out)@ + v@.subrange(a as int, i as int),
        decreases b - i,
    {
        out.push(v[i]);
        i = i + 1;
        proof {
            assert(out@ =~= old(out)@ + v@.subrange(a as int, i as int));
        }
    }
}

/// Appends the characters of `s` to `out`.
pub fn push_str_chars(out: &mut Vec<char>, s: &str)
    ensures
        final(out)@ == old(out)@ + s@,
{
    let cs = chars_of(s);
    let n = cs.len();
    push_range(out, cs.as_slice(), 0, n);
    proof {
        assert(cs@.subrange(0, cs@.len() as int) =~= s@);
    }
}

/// Executable form of [`replace_all`].
pub fn replace_all_chars(hay: &[char], pat: &[char], rep: &[char]) -> (r: Vec<char>)
    ensures
        r@ == replace_all(hay@, pat@, rep@),
{
    let mut r: Vec<char> = Vec::new();
    if pat.len() == 0 {
        push_range(&mut r, hay, 0, hay.len());
        proof {
            assert(r@ =~= hay@);
        }
        return r;
    }
    let hn = hay.len();
    let mut cur: usize = 0;
    proof {
        assert(hay@.skip(0) =~= hay@);
    }
    while cur < hn
        invariant
            hn == hay@.len(),
            cur <= hay@.len(),
            hay@.len() <= usize::MAX,
            pat@.len() > 0,
            replace_all(hay@, pat@, rep@) == r@ + replace_all(
                hay@.skip(cur as int),
                pat@,
                rep@,
            ),
        decreases hay@.len() - cur,
    {
        let ghost suffix = hay@.skip(cur as int);
        let found = find_pattern(hay, pat, cur);
        proof {
            lemma_find_shift(hay@, pat@, cur as int, 0);
        }
        match found {
            Some(j) => {
                let ghost cur0 = cur as int;
                let ghost r0 = r@;
                proof {
                    lemma_find_spec(hay@, pat@, cur as int);
                    assert(find_from(suffix, pat@, 0) == Some(j - cur));
                    assert(suffix.subrange(0, j - cur) =~= hay@.subrange(cur as int, j as int));
                    assert(suffix.skip(j - cur + pat@.len()) =~= hay@.skip(j + pat@.len()));
                    assert(replace_all(suffix, pat@, rep@) == hay@.subrange(cur0, j as int) + rep@
                        + replace_all(hay@.skip(j + pat@.len()), pat@, rep@));
                }
                push_range(&mut r, hay, cur, j);
                push_range(&mut r, rep, 0, rep.len());
                cur = j + pat.len();
                proof {
                    assert(rep@.subrange(0, rep@.len() as int) =~= rep@);
                    assert(r@ =~= r0 + hay@.subrange(cur0, j as int) + rep@);
                    assert(r0 + replace_all(suffix, pat@, rep@) =~= r@ + replace_all(
                        hay@.skip(cur as int),
                        pat@,
                        rep@,
                    ));
                }
            },
            None => {
                proof {
                    assert(find_from(suffix, pat@, 0) is None);
                    assert(replace_all(suffix, pat@, rep@) == suffix);
                }
                let ghost r0 = r@;
                push_range(&mut r, hay, cur, hay.len());
                cur = hay.len();
                proof {
                    assert(hay@.skip(cur as int) =~= Seq::<char>::empty());
                    assert(find_from(Seq::<char>::empty(), pat@, 0) is None);
                    assert(r0 + replace_all(suffix, pat@, rep@) =~= r@ + replace_all(
                        hay@.skip(cur as int),
                        pat@,
                        rep@,
                    ));
                }
            },
        }
    }
    proof {
        assert(hay@.skip(cur as int) =~= Seq::<char>::empty());
        assert(replace_all(Seq::<char>::empty(), pat@, rep@) == Seq::<char>::empty());
        assert(r@ =~= replace_all(hay@, pat@, rep@));
    }
    r
}

/// `c` is a decimal digit.
pub open spec fn is_digit_char(c: char) -> bool {
    48 <= c as u32 <= 57
}

/// Executable form of [`is_digit_char`].
pub fn digit_char(c: char) -> (r: bool)
    ensures
        r == is_digit_char(c),
{
    '0' <= c && c <= '9'
}

/// The numeric value of a digit character.
pub open spec fn digit_val(c: char) -> int {
    c as u32 - 48
}

/// The digit character for a value in `0..=9`.
pub open spec fn char_of_digit(d: int) -> char {
    if d == 0 {
        '0'
    } else if d == 1 {
        '1'
    } else if d == 2 {
        '2'
    } else if d == 3 {
        '3'
    } else if d == 4 {
        '4'
    } else if d == 5 {
        '5'
    } else if d == 6 {
        '6'
    } else if d == 7 {
        '7'
    } else if d == 8 {
        '8'
    } else {
        '9'
    }
}

/// The shortest decimal representation of `n`.
pub open spec fn dec_digits_of(n: nat) -> Seq<char>
    decreases n,
{
    if n < 10 {
        seq![char_of_digit(n as int)]
    } else {
        dec_digits_of(n / 10).push(char_of_digit((n % 10) as int))
    }
}

/// The value of a sequence of digit characters, most significant first.
pub open spec fn digits_value(s: Seq<char>) -> int
    decreases s.len(),
{
    if s.len() == 0 {
        0
    } else {
        digits_value(s.drop_last()) * 10 + digit_val(s.last())
    }
}

/// Every character of `s` is a decimal digit.
pub open spec fn all_digits(s: Seq<char>) -> bool {
    forall|k: int| 0 <= k < s.len() ==> is_digit_char(s[k])
}

/// The value of an all-digit sequence is non-negative.
pub proof fn lemma_digits_value_nonneg(s: Seq<char>)
    requires
        all_digits(s),
    ensures
        digits_value(s) >= 0,
    decreases s.len(),
{
    if s.len() > 0 {
        assert(all_digits(s.drop_last()));
        lemma_digits_value_nonneg(s.drop_last());
        assert(is_digit_char(s.last()));
    }
}

/// A digit character carries exactly the value it was made from.
pub proof fn lemma_digit_roundtrip(d: int)
    requires
        0 <= d <= 9,
    ensures
        is_digit_char(char_of_digit(d)),
        digit_val(char_of_digit(d)) == d,
{
    assert('0' as u32 == 48);
    assert('1' as u32 == 49);
    assert('2' as u32 == 50);
    assert('3' as u32 == 51);
    assert('4' as u32 == 52);
    assert('5' as u32 == 53);
    assert('6' as u32 == 54);
    assert('7' as u32 == 55);
    assert('8' as u32 == 56);
    assert('9' as u32 == 57);
}

/// The decimal representation of `n` is made of digits and evaluates to `n`.
pub proof fn lemma_dec_digits_of(n: nat)
    ensures
        dec_digits_of(n).len() >= 1,
        all_digits(dec_digits_of(n)),
        digits_value(dec_digits_of(n)) == n,
    decreases n,
{
    if n < 10 {
        lemma_digit_roundtrip(n as int);
        let s = dec_digits_of(n);
        assert(s.drop_last() =~= Seq::<char>::empty());
        assert(digits_value(s) == digits_value(s.drop_last()) * 10 + digit_val(s.last()));
    } else {
        lemma_dec_digits_of(n / 10);
        lemma_digit_roundtrip((n % 10) as int);
        let s = dec_digits_of(n);
        let p = dec_digits_of(n / 10);
        assert(s.drop_last() =~= p);
        assert(s.last() == char_of_digit((n % 10) as int));
        assert(forall|k: int| 0 <= k < s.len() ==> is_digit_char(s[k])) by {
            assert(forall|k: int| 0 <= k < p.len() ==> s[k] == p[k]);
        }
        assert(n == (n / 10) * 10 + n % 10) by (nonlinear_arith);
    }
}

/// Executable form of [`char_of_digit`].
pub fn char_for_digit(d: u32) -> (c: char)
    requires
        d <= 9,
    ensures
        c == char_of_digit(d as int),
{
    if d == 0 {
        '0'
    } else if d == 1 {
        '1'
    } else if d == 2 {
        '2'
    } else if d == 3 {
        '3'
    } else if d == 4 {
        '4'
    } else if d == 5 {
        '5'
    } else if d == 6 {
        '6'
    } else if d == 7 {
        '7'
    } else if d == 8 {
        '8'
    } else {
        '9'
    }
}

/// Appends the decimal representation of `n` to `out`.
pub fn push_decimal(out: &mut Vec<char>, n: u32)
    ensures
        final(out)@ == old(out)@ + dec_digits_of(n as nat),
    decreases n,
{
    if n < 10 {
        out.push(char_for_digit(n));
        proof {
            assert(final(out)@ =~= old(out)@ + dec_digits_of(n as nat));
        }
    } else {
        proof {
            assert(n / 10 < n) by (nonlinear_arith)
                requires
                    n >= 10,
            ;
        }
        push_decimal(out, n / 10);
        out.push(char_for_digit(n % 10));
        proof {
            assert(final(out)@ =~= old(out)@ + dec_digits_of(n as nat));
        }
    }
}

/// The value of the digit run `v[start..end]`, capped at `100000` so that it
/// fits in a machine word whatever the run's length.
pub fn digits_value_capped(v: &[char], start: usize, end: usize) -> (r: u32)
    requires
        start <= end <= v@.len(),
        forall|k: int| start <= k < end ==> is_digit_char(v@[k]),
    ensures
        ({
            let val = digits_value(v@.subrange(start as int, end as int));
            &&& (val <= 99999 ==> r == val)
            &&& (val > 99999 ==> r == 100000)
        }),
{
    let mut acc: u32 = 0;
    let mut i: usize = start;
    proof {
        assert(v@.subrange(start as int, start as int) =~= Seq::<char>::empty());
    }
    while i < end
        invariant
            start <= i <= end <= v@.len(),
            forall|k: int| start <= k < end ==> is_digit_char(v@[k]),
            acc <= 100000,
            ({
                let val = digits_value(v@.subrange(start as int, i as int));
                &&& (val <= 99999 ==> acc == val)
                &&& (val > 99999 ==> acc == 100000)
            }),
        decreases end - i,
    {
        let ghost pre = v@.subrange(start as int, i as int);
        let ghost val = digits_value(pre);
        proof {
            assert(all_digits(pre));
            lemma_digits_value_nonneg(pre);
        }
        let c = v[i];
        let d: u32 = (c as u32) - 48;
        let next = acc * 10 + d;
        if next > 99999 {
            acc = 100000;
        } else {
            acc = next;
        }
        i = i + 1;
        proof {
            let post = v@.subrange(start as int, i as int);
            assert(post.drop_last() =~= pre);
            assert(digits_value(post) == val * 10 + digit_val(c));
            if val > 99999 {
                assert(digits_value(post) > 99999);
            }
        }
    }
    acc
}

/// `c` with an uppercase ASCII letter folded to lowercase; anything else as is.
pub open spec fn lower_char(c: char) -> char {
    if 65 <= c as u32 <= 90 {
        ((c as u32 + 32) as char)
    } else {
        c
    }
}

/// `s` with every uppercase ASCII letter folded to lowercase.
pub open spec fn lower_seq(s: Seq<char>) -> Seq<char> {
    Seq::new(s.len(), |i: int| lower_char(s[i]))
}

/// Executable form of [`lower_char`].
pub fn char_to_lower(c: char) -> (r: char)
    ensures
        r == lower_char(c),
{
    let u = c as u32;
    if 65 <= u && u <= 90 {
        (((u + 32) as u8) as char)
    } else {
        c
    }
}

/// Executable form of [`lower_seq`] on a string.
pub fn lowercase_string(s: &str) -> (r: String)
    ensures
        r@ == lower_seq(s@),
{
    let chars = chars_of(s);
    let n = chars.len();
    let mut out: Vec<char> = Vec::new();
    let mut i: usize = 0;
    while i < n
        invariant
            n == chars@.len(),
            chars@ == s@,
            i <= n,
            out@.len() == i,
            forall|k: int| 0 <= k < i ==> out@[k] == lower_char(s@[k]),
        decreases n - i,
    {
        out.push(char_to_lower(chars[i]));
        i = i + 1;
    }
    proof {
        assert(out@ =~= lower_seq(s@));
    }
    string_of(out.as_slice())
}

/// `a` is at or before `b` in lexicographic order by character code.
pub open spec fn seq_char_le(a: Seq<char>, b: Seq<char>) -> bool
    decreases a.len(),
{
    if a.len() == 0 {
        true
    } else if b.len() == 0 {
        false
    } else if (a[0] as u32) < (b[0] as u32) {
        true
    } else if a[0] != b[0] {
        false
    } else {
        seq_char_le(a.drop_first(), b.drop_first())
    }
}

/// Lexicographic order is total.
pub proof fn lemma_seq_char_le_total(a: Seq<char>, b: Seq<char>)
    ensures
        seq_char_le(a, b) || seq_char_le(b, a),
        seq_char_le(a, b) && seq_char_le(b, a) ==> a == b,
    decreases a.len(),
{
    if a.len() > 0 && b.len() > 0 {
        vstd::utf8::char_u32_cast(a[0], a[0] as u32);
        vstd::utf8::char_u32_cast(b[0], b[0] as u32);
    }
    if a.len() > 0 && b.len() > 0 && a[0] == b[0] {
        lemma_seq_char_le_total(a.drop_first(), b.drop_first());
        if seq_char_le(a, b) && seq_char_le(b, a) {
            assert(seq_char_le(a.drop_first(), b.drop_first()));
            assert(seq_char_le(b.drop_first(), a.drop_first()));
            assert(a.drop_first() == b.drop_first());
            assert forall|i: int| 0 <= i < a.len() implies a[i] == b[i] by {
                if i > 0 {
                    assert(a[i] == a.drop_first()[i - 1]);
                    assert(b[i] == b.drop_first()[i - 1]);
                }
            }
            assert(a =~= b);
        }
    }
}

/// Lexicographic order is transitive.
pub proof fn lemma_seq_char_le_trans(a: Seq<char>, b: Seq<char>, c: Seq<char>)
    requires
        seq_char_le(a, b),
        seq_char_le(b, c),
    ensures
        seq_char_le(a, c),
    decreases a.len(),
{
    if a.len() > 0 && b.len() > 0 && c.len() > 0 && a[0] == b[0] && b[0] == c[0] {
        lemma_seq_char_le_trans(a.drop_first(), b.drop_first(), c.drop_first());
    }
}

/// Executable form of [`seq_char_le`].
pub fn chars_le(a: &[char], b: &[char]) -> (r: bool)
    ensures
        r == seq_char_le(a@, b@),
{
    let an = a.len();
    let bn = b.len();
    let mut i: usize = 0;
    proof {
        assert(a@.skip(0) =~= a@);
        assert(b@.skip(0) =~= b@);
    }
    while i < an && i < bn
        invariant
            an == a@.len(),
            bn == b@.len(),
            i <= an,
            i <= bn,
            seq_char_le(a@, b@) == seq_char_le(a@.skip(i as int), b@.skip(i as int)),
            seq_char_le(b@, a@) == seq_char_le(b@.skip(i as int), a@.skip(i as int)),
        decreases an - i,
    {
        let ghost sa = a@.skip(i as int);
        let ghost sb = b@.skip(i as int);
        let ca = a[i];
        let cb = b[i];
        proof {
            assert(sa[0] == a@[i as int]);
            assert(sb[0] == b@[i as int]);
            assert(sa.drop_first() =~= a@.skip(i + 1));
            assert(sb.drop_first() =~= b@.skip(i + 1));
        }
        if (ca as u32) < (cb as u32) {
            return true;
        }
        if ca != cb {
            return false;
        }
        i = i + 1;
    }
    proof {
        if i >= an {
            assert(a@.skip(i as int) =~= Seq::<char>::empty());
        } else {
            assert(b@.skip(i as int) =~= Seq::<char>::empty());
            assert(a@.skip(i as int).len() > 0);
        }
    }
    i >= an
}

} // verus!
