use vstd::prelude::*;

verus! {

/// Whether `c` has the Unicode `White_Space` property, which is what
/// `char::is_whitespace` tests.
pub open spec fn is_whitespace(c: char) -> bool {
    ||| ('\u{09}' <= c && c <= '\u{0D}')
    ||| c == ' '
    ||| c == '\u{85}'
    ||| c == '\u{A0}'
    ||| c == '\u{1680}'
    ||| ('\u{2000}' <= c && c <= '\u{200A}')
    ||| c == '\u{2028}'
    ||| c == '\u{2029}'
    ||| c == '\u{202F}'
    ||| c == '\u{205F}'
    ||| c == '\u{3000}'
}

/// Tests `c` for the Unicode `White_Space` property.
pub fn char_is_whitespace(c: char) -> (r: bool)
    ensures
        r == is_whitespace(c),
{
    ('\u{09}' <= c && c <= '\u{0D}') || c == ' ' || c == '\u{85}' || c == '\u{A0}' || c == '\u{1680}'
        || ('\u{2000}' <= c && c <= '\u{200A}') || c == '\u{2028}' || c == '\u{2029}' || c == '\u{202F}'
        || c == '\u{205F}' || c == '\u{3000}'
}

/// The characters of a string slice.
pub fn chars_of(s: &str) -> (v: Vec<char>)
    ensures
        v@ == s@,
{
    let mut v: Vec<char> = Vec::new();
    for c in it: s.chars()
        invariant
            v@ == it.seq().take(it.index() as int),
    {
        v.push(c);
    }
    v
}


/// `s` without its leading whitespace.
pub open spec fn trim_start(s: Seq<char>) -> Seq<char>
    decreases s.len(),
{
    if s.len() > 0 && is_whitespace(s[0]) {
        trim_start(s.drop_first())
    } else {
        s
    }
}

/// `s` without its trailing whitespace.
pub open spec fn trim_end(s: Seq<char>) -> Seq<char>
    decreases s.len(),
{
    if s.len() > 0 && is_whitespace(s.last()) {
        trim_end(s.drop_last())
    } else {
        s
    }
}

/// `s` without leading and trailing whitespace, as `str::trim` gives it.
pub open spec fn trim(s: Seq<char>) -> Seq<char> {
    trim_end(trim_start(s))
}

/// Copies `v[start..end]`.
pub fn copy_range(v: &Vec<char>, start: usize, end: usize) -> (r: Vec<char>)
    requires
        start <= end <= v@.len(),
    ensures
        r@ == v@.subrange(start as int, end as int),
{
    let mut r: Vec<char> = Vec::new();
    let mut k = start;
    while k < end
        invariant
            start <= k <= end <= v@.len(),
            r@ == v@.subrange(start as int, k as int),
        decreases end - k,
    {
        r.push(v[k]);
        assert(v@.subrange(start as int, k + 1) =~= v@.subrange(start as int, k as int).push(v@[k as int]));
        k = k + 1;
    }
    r
}

/// The characters of `v` without leading and trailing whitespace.
pub fn trim_chars(v: &Vec<char>) -> (r: Vec<char>)
    ensures
        r@ == trim(v@),
{
    let n = v.len();
    let mut a: usize = 0;
    assert(v@.subrange(0, n as int) =~= v@);
    while a < n && char_is_whitespace(v[a])
        invariant
            a <= n == v@.len(),
            trim_start(v@) == trim_start(v@.subrange(a as int, n as int)),
        decreases n - a,
    {
        assert(v@.subrange(a as int, n as int).drop_first() =~= v@.subrange(a + 1, n as int));
        a = a + 1;
    }
    let ghost rest = v@.subrange(a as int, n as int);
    assert(trim_start(rest) == rest);
    let mut b: usize = n;
    while b > a && char_is_whitespace(v[b - 1])
        invariant
            a <= b <= n == v@.len(),
            trim_end(rest) == trim_end(v@.subrange(a as int, b as int)),
        decreases b - a,
    {
        assert(v@.subrange(a as int, b as int).drop_last() =~= v@.subrange(a as int, b - 1));
        b = b - 1;
    }
    let r = copy_range(v, a, b);
    assert(trim_end(r@) == r@);
    r
}

/// Whether `s` is empty once trimmed: `s.trim().is_empty()`.
pub fn is_blank(s: &str) -> (r: bool)
    ensures
        r == (trim(s@).len() == 0),
{
    let v = chars_of(s);
    let t = trim_chars(&v);
    t.len() == 0
}

/// The first index at or after `i` where `s` holds `c`, or `s.len()` if
/// there is none.
pub open spec fn find_char_from(s: Seq<char>, c: char, i: int) -> int
    decreases s.len() - i,
{
    if i < 0 || i >= s.len() {
        s.len() as int
    } else if s[i] == c {
        i
    } else {
        find_char_from(s, c, i + 1)
    }
}

/// The first line of `text`, as `str::lines().next()` gives it: `None` for
/// empty text, else the text up to the first `'\n'` (without a `'\r'` right
/// before it), or the whole text if it holds no `'\n'`.
pub open spec fn first_line(text: Seq<char>) -> Option<Seq<char>> {
    if text.len() == 0 {
        None
    } else {
        let i = find_char_from(text, '\n', 0);
        if i == text.len() {
            Some(text)
        } else if i > 0 && text[i - 1] == '\r' {
            Some(text.take(i - 1))
        } else {
            Some(text.take(i))
        }
    }
}

/// The first line of `text`.
pub fn first_line_of(text: &Vec<char>) -> (r: Option<Vec<char>>)
    ensures
        r is Some <==> first_line(text@) is Some,
        r matches Some(line) ==> line@ == first_line(text@)->Some_0,
{
    let n = text.len();
    if n == 0 {
        return None;
    }
    let mut i: usize = 0;
    while i < n && text[i] != '\n'
        invariant
            i <= n == text@.len(),
            find_char_from(text@, '\n', 0) == find_char_from(text@, '\n', i as int),
        decreases n - i,
    {
        i = i + 1;
    }
    if i == n {
        return Some(copy_range(text, 0, n));
    }
    if i > 0 && text[i - 1] == '\r' {
        Some(copy_range(text, 0, i - 1))
    } else {
        Some(copy_range(text, 0, i))
    }
}

/// The whitespace-separated words of `s` seen so far: the finished words and
/// the word still being read.
pub open spec fn word_split(s: Seq<char>) -> (Seq<Seq<char>>, Seq<char>)
    decreases s.len(),
{
    if s.len() == 0 {
        (Seq::empty(), Seq::empty())
    } else {
        let (done, current) = word_split(s.drop_last());
        if is_whitespace(s.last()) {
            if current.len() > 0 {
                (done.push(current), Seq::empty())
            } else {
                (done, Seq::empty())
            }
        } else {
            (done, current.push(s.last()))
        }
    }
}

/// The words of `s`, as `str::split_whitespace` gives them.
pub open spec fn words(s: Seq<char>) -> Seq<Seq<char>> {
    let (done, current) = word_split(s);
    if current.len() > 0 {
        done.push(current)
    } else {
        done
    }
}

/// The `n`-th word of `s` (counting from 0), if `s` has that many words:
/// `s.split_whitespace().nth(n)`.
pub fn nth_word(s: &Vec<char>, n: usize) -> (r: Option<Vec<char>>)
    ensures
        r is Some <==> n < words(s@).len(),
        r matches Some(w) ==> w@ == words(s@)[n as int],
{
    let len = s.len();
    let mut found: Vec<Vec<char>> = Vec::new();
    let mut current: Vec<char> = Vec::new();
    let mut i: usize = 0;
    assert(s@.take(0) =~= Seq::<char>::empty());
    while i < len
        invariant
            i <= len == s@.len(),
            found@.len() == word_split(s@.take(i as int)).0.len(),
            forall|k: int| 0 <= k < found@.len() ==> #[trigger] found@[k]@ == word_split(s@.take(i as int)).0[k],
            current@ == word_split(s@.take(i as int)).1,
        decreases len - i,
    {
        let ghost prefix = s@.take(i as int);
        assert(s@.take(i + 1).drop_last() =~= prefix);
        assert(s@.take(i + 1).last() == s@[i as int]);
        let c = s[i];
        if char_is_whitespace(c) {
            if current.len() > 0 {
                let finished = current;
                found.push(finished);
                current = Vec::new();
            }
        } else {
            current.push(c);
        }
        i = i + 1;
    }
    assert(s@.take(len as int) =~= s@);
    if current.len() > 0 {
        let last = current;
        found.push(last);
    }
    if n < found.len() {
        let w = copy_range(&found[n], 0, found[n].len());
        assert(found@[n as int]@.subrange(0, found@[n as int]@.len() as int) =~= found@[n as int]@);
        Some(w)
    } else {
        None
    }
}

/// Whether `c` is an ASCII decimal digit.
pub open spec fn is_digit(c: char) -> bool {
    '0' <= c && c <= '9'
}

/// The value of a string of decimal digits.
pub open spec fn digits_value(s: Seq<char>) -> int
    decreases s.len(),
{
    if s.len() == 0 {
        0
    } else {
        digits_value(s.drop_last()) * 10 + (s.last() as int - '0' as int)
    }
}

/// The unsigned number that `s` spells, as `FromStr` for an unsigned
/// integer type whose largest value is `max` reads it: an optional `'+'`,
/// then one or more ASCII digits, whose value is at most `max`.
pub open spec fn parse_unsigned(s: Seq<char>, max: int) -> Option<int> {
    let digits = unsigned_digits(s);
    if digits.len() == 0 || !all_digits(digits) || digits_value(digits) > max {
        None
    } else {
        Some(digits_value(digits))
    }
}

/// The digits of an unsigned number: `s` without one leading `'+'`.
pub open spec fn unsigned_digits(s: Seq<char>) -> Seq<char> {
    if s.len() > 0 && s[0] == '+' {
        s.drop_first()
    } else {
        s
    }
}

/// Whether every character of `s` is an ASCII digit.
pub open spec fn all_digits(s: Seq<char>) -> bool {
    forall|i: int| 0 <= i < s.len() ==> is_digit(#[trigger] s[i])
}

proof fn lemma_digits_value_grows(s: Seq<char>, k: int)
    requires
        0 <= k <= s.len(),
        forall|i: int| 0 <= i < s.len() ==> is_digit(#[trigger] s[i]),
    ensures
        digits_value(s.take(k)) <= digits_value(s),
        digits_value(s) >= 0,
    decreases s.len(),
{
    if s.len() > 0 {
        let init = s.drop_last();
        assert(forall|i: int| 0 <= i < init.len() ==> init[i] == s[i]);
        if k == s.len() {
            assert(s.take(k) =~= s);
            lemma_digits_value_grows(init, 0);
        } else {
            assert(s.take(k) =~= init.take(k));
            lemma_digits_value_grows(init, k);
        }
    } else {
        assert(s.take(k) =~= s);
    }
}

/// Reads an unsigned decimal number no greater than `max`, as
/// `str::parse` does for an unsigned integer type whose largest value is
/// `max`.
pub fn parse_decimal(s: &Vec<char>, max: u32) -> (r: Option<u32>)
    ensures
        r is Some <==> parse_unsigned(s@, max as int) is Some,
        r matches Some(v) ==> v as int == parse_unsigned(s@, max as int)->Some_0 && v <= max,
{
    let n = s.len();
    let start: usize = if n > 0 && s[0] == '+' { 1 } else { 0 };
    let ghost digits = unsigned_digits(s@);
    assert(digits =~= s@.subrange(start as int, n as int));
    if start == n {
        return None;
    }
    let mut value: u64 = 0;
    let mut k: usize = start;
    assert(digits.take(0) =~= Seq::<char>::empty());
    while k < n
        invariant
            start <= k <= n == s@.len(),
            digits == s@.subrange(start as int, n as int),
            digits == unsigned_digits(s@),
            forall|i: int| start <= i < k ==> is_digit(#[trigger] s@[i]),
            value as int == digits_value(digits.take(k - start)),
            value <= max,
        decreases n - k,
    {
        let c = s[k];
        assert(digits.take(k + 1 - start).drop_last() =~= digits.take(k - start));
        assert(digits.take(k + 1 - start).last() == c);
        if !('0' <= c && c <= '9') {
            assert(digits[k - start] == c);
            assert(!is_digit(digits[k - start]));
            assert(!all_digits(digits));
            assert(parse_unsigned(s@, max as int) is None);
            return None;
        }
        let d = (c as u32 - '0' as u32) as u64;
        value = value * 10 + d;
        if value > max as u64 {
            proof {
                if all_digits(digits) {
                    lemma_digits_value_grows(digits, k + 1 - start);
                    assert(digits_value(digits) > max);
                }
                assert(parse_unsigned(s@, max as int) is None);
            }
            return None;
        }
        k = k + 1;
    }
    assert(digits.take(n - start) =~= digits);
    assert forall|i: int| 0 <= i < digits.len() implies is_digit(#[trigger] digits[i]) by {
        assert(digits[i] == s@[start + i]);
    }
    assert(all_digits(digits));
    Some(value as u32)
}

/// Whether `needle` occurs in `haystack` at position `i`.
pub open spec fn occurs_at(haystack: Seq<char>, needle: Seq<char>, i: int) -> bool {
    0 <= i && i + needle.len() <= haystack.len() && haystack.subrange(i, i + needle.len()) == needle
}

/// Whether `needle` occurs anywhere in `haystack`, as `str::contains` tests.
pub open spec fn contains(haystack: Seq<char>, needle: Seq<char>) -> bool {
    exists|i: int| occurs_at(haystack, needle, i)
}

/// Whether `needle` occurs in `haystack` at position `i`.
fn matches_at(haystack: &Vec<char>, needle: &Vec<char>, i: usize) -> (r: bool)
    requires
        i + needle@.len() <= haystack@.len(),
    ensures
        r == occurs_at(haystack@, needle@, i as int),
{
    let m = needle.len();
    let hn = haystack.len();
    let mut k: usize = 0;
    while k < m
        invariant
            k <= m == needle@.len(),
            hn == haystack@.len(),
            i + m <= haystack@.len(),
            forall|j: int| 0 <= j < k ==> haystack@[i + j] == needle@[j],
        decreases m - k,
    {
        if haystack[i + k] != needle[k] {
            assert(haystack@.subrange(i as int, i + m)[k as int] != needle@[k as int]);
            return false;
        }
        k = k + 1;
    }
    assert(haystack@.subrange(i as int, i + m) =~= needle@);
    true
}

/// Whether `needle` occurs anywhere in `haystack`.
pub fn contains_chars(haystack: &Vec<char>, needle: &Vec<char>) -> (r: bool)
    ensures
        r == contains(haystack@, needle@),
{
    let n = haystack.len();
    let m = needle.len();
    if m > n {
        assert forall|i: int| !occurs_at(haystack@, needle@, i) by {}
        return false;
    }
    let last = n - m;
    let mut i: usize = 0;
    loop
        invariant
            m <= n,
            i <= last == n - m,
            n == haystack@.len(),
            m == needle@.len(),
            forall|j: int| 0 <= j < i ==> !occurs_at(haystack@, needle@, j),
        ensures
            forall|j: int| 0 <= j <= n - m ==> !occurs_at(haystack@, needle@, j),
        decreases last - i,
    {
        if matches_at(haystack, needle, i) {
            return true;
        }
        if i == last {
            break;
        }
        i = i + 1;
    }
    assert forall|j: int| !occurs_at(haystack@, needle@, j) by {
        if 0 <= j <= n - m {
        }
    }
    false
}

/// Whether two strings hold the same characters.
pub fn str_equal(a: &str, b: &str) -> (r: bool)
    ensures
        r == (a@ == b@),
{
    let va = chars_of(a);
    let vb = chars_of(b);
    if va.len() != vb.len() {
        return false;
    }
    let n = va.len();
    let mut k: usize = 0;
    while k < n
        invariant
            k <= n == va@.len() == vb@.len(),
            va@ == a@,
            vb@ == b@,
            forall|j: int| 0 <= j < k ==> va@[j] == vb@[j],
        decreases n - k,
    {
        if va[k] != vb[k] {
            assert(va@[k as int] != vb@[k as int]);
            return false;
        }
        k = k + 1;
    }
    assert(va@ =~= vb@);
    true
}


/// The text that `String::from_utf8_lossy` makes of `bytes`: each maximal
/// invalid UTF-8 sequence becomes U+FFFD. Named, not written out.
pub uninterp spec fn utf8_lossy(bytes: Seq<u8>) -> Seq<char>;

/// Decodes `bytes` as UTF-8 with `String::from_utf8_lossy` and returns the
/// characters. The contract states the name of the result, and the one fact
/// that std's documentation gives: valid UTF-8 decodes to the characters it
/// encodes.
#[verifier::external_body]
pub(crate) fn decode_utf8_lossy(bytes: &[u8]) -> (text: Vec<char>)
    ensures
        text@ == utf8_lossy(bytes@),
        vstd::utf8::valid_utf8(bytes@) ==> text@ == vstd::utf8::decode_utf8(bytes@),
{
    String::from_utf8_lossy(bytes).chars().collect()
}

/// Builds a `String` from its characters (`String: FromIterator<char>`).
#[verifier::external_body]
pub(crate) fn string_from_chars(chars: &Vec<char>) -> (s: String)
    ensures
        s@ == chars@,
{
    chars.iter().collect()
}


proof fn lemma_trim_start_shape(s: Seq<char>)
    ensures
        trim_start(s).len() > 0 ==> !is_whitespace(trim_start(s)[0]),
    decreases s.len(),
{
    if s.len() > 0 && is_whitespace(s[0]) {
        lemma_trim_start_shape(s.drop_first());
    }
}

proof fn lemma_trim_end_shape(s: Seq<char>)
    ensures
        trim_end(s).len() > 0 ==> !is_whitespace(trim_end(s).last()),
        trim_end(s).len() > 0 ==> trim_end(s)[0] == s[0],
    decreases s.len(),
{
    if s.len() > 0 && is_whitespace(s.last()) {
        lemma_trim_end_shape(s.drop_last());
    }
}

/// Trimmed text that is not empty starts and ends with a character that is
/// not whitespace.
pub proof fn lemma_trimmed_ends_are_not_whitespace(s: Seq<char>)
    ensures
        trim(s).len() > 0 ==> !is_whitespace(trim(s)[0]) && !is_whitespace(trim(s).last()),
{
    lemma_trim_start_shape(s);
    lemma_trim_end_shape(trim_start(s));
}

} // verus!
