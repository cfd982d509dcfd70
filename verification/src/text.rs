use vstd::prelude::*;

verus! {

// ---------------------------------------------------------------------------
// Characters
// ---------------------------------------------------------------------------

/// `c` is one of the ASCII digits `0`-`9`.
pub open spec fn is_digit(c: char) -> bool {
    '0' <= c && c <= '9'
}

/// The numeric value of an ASCII digit.
pub open spec fn digit_value(c: char) -> nat {
    (c as int - '0' as int) as nat
}

/// The ASCII digit that spells `d` (`d < 10`).
pub open spec fn digit_char(d: nat) -> char {
    (d + '0' as int) as char
}

/// Every character of `s` is an ASCII digit.
pub open spec fn all_digits(s: Seq<char>) -> bool {
    forall|i: int| 0 <= i < s.len() ==> is_digit(#[trigger] s[i])
}

pub fn is_digit_exec(c: char) -> (r: bool)
    ensures
        r == is_digit(c),
{
    '0' <= c && c <= '9'
}

// ---------------------------------------------------------------------------
// Building strings
// ---------------------------------------------------------------------------

/// Appends one character to a string (`String::push`).
#[verifier::external_body]
pub(crate) fn push_char(s: &mut String, c: char)
    ensures
        final(s)@ == old(s)@.push(c),
{
    s.push(c);
}

/// Appends a string slice to a string.
pub fn push_str(s: &mut String, t: &str)
    ensures
        final(s)@ == old(s)@ + t@,
{
    s.append(t);
}

/// The string made of the characters of `v`, in order.
pub fn string_of(v: &Vec<char>) -> (r: String)
    ensures
        r@ == v@,
{
    let mut r = String::new();
    let n = v.len();
    for i in 0..n
        invariant
            n == v@.len(),
            r@ == v@.take(i as int),
    {
        push_char(&mut r, v[i]);
        assert(v@.take(i + 1) == v@.take(i as int).push(v@[i as int]));
    }
    assert(v@.take(n as int) == v@);
    r
}

/// The characters of a string slice, in order.
pub fn chars_of(s: &str) -> (r: Vec<char>)
    ensures
        r@ == s@,
{
    let mut r: Vec<char> = Vec::new();
    for c in it: s.chars()
        invariant
            r@ == it.seq().take(it.index() as int),
            it.seq() == s@,
    {
        r.push(c);
    }
    r
}

/// A copy of the characters `v[lo..hi]`.
pub fn sub_chars(v: &Vec<char>, lo: usize, hi: usize) -> (r: Vec<char>)
    requires
        lo <= hi <= v@.len(),
    ensures
        r@ == v@.subrange(lo as int, hi as int),
{
    let mut r: Vec<char> = Vec::new();
    let mut i = lo;
    while i < hi
        invariant
            lo <= i <= hi <= v@.len(),
            r@ == v@.subrange(lo as int, i as int),
        decreases hi - i,
    {
        r.push(v[i]);
        i = i + 1;
    }
    r
}

// ---------------------------------------------------------------------------
// Decimal numbers
// ---------------------------------------------------------------------------

/// The decimal spelling of `n`: most significant digit first, no leading zeros.
pub open spec fn decimal(n: nat) -> Seq<char>
    decreases n,
{
    if n < 10 {
        seq![digit_char(n)]
    } else {
        decimal(n / 10).push(digit_char(n % 10))
    }
}

/// The value of a sequence of decimal digits.
pub open spec fn digits_value(s: Seq<char>) -> nat
    decreases s.len(),
{
    if s.len() == 0 {
        0
    } else {
        digits_value(s.drop_last()) * 10 + digit_value(s.last())
    }
}

/// `s` spells a number in decimal (leading zeros allowed) whose value is at most `max`.
pub open spec fn is_number_text(s: Seq<char>, max: nat) -> bool {
    &&& s.len() > 0
    &&& all_digits(s)
    &&& digits_value(s) <= max
}

pub proof fn lemma_decimal(n: nat)
    ensures
        decimal(n).len() > 0,
        all_digits(decimal(n)),
        digits_value(decimal(n)) == n,
    decreases n,
{
    if n >= 10 {
        lemma_decimal(n / 10);
        let d = decimal(n);
        assert(d.drop_last() == decimal(n / 10));
        assert(digit_value(digit_char(n % 10)) == n % 10);
        assert((n / 10) * 10 + n % 10 == n) by (nonlinear_arith);
        assert(d.last() == digit_char(n % 10));
        assert(digits_value(d) == digits_value(d.drop_last()) * 10 + digit_value(d.last()));
        assert forall|i: int| 0 <= i < d.len() implies is_digit(#[trigger] d[i]) by {
            if i < d.len() - 1 {
                assert(d[i] == decimal(n / 10)[i]);
            }
        }
    } else {
        let d = decimal(n);
        assert(d.drop_last() =~= Seq::<char>::empty());
        assert(digit_value(digit_char(n)) == n);
        assert(digits_value(d) == digits_value(d.drop_last()) * 10 + digit_value(d.last()));
        assert(digits_value(Seq::<char>::empty()) == 0);
    }
}

proof fn lemma_digits_value_prefix(s: Seq<char>, i: int)
    requires
        0 <= i <= s.len(),
    ensures
        digits_value(s.take(i)) <= digits_value(s),
    decreases s.len(),
{
    if i < s.len() {
        lemma_digits_value_prefix(s.drop_last(), i);
        assert(s.drop_last().take(i) == s.take(i));
    } else {
        assert(s.take(i) == s);
    }
}

/// Appends the decimal spelling of `n` to `out`.
pub fn push_decimal(out: &mut String, n: u64)
    ensures
        final(out)@ == old(out)@ + decimal(n as nat),
{
    let mut m: u64 = n;
    let mut rev: Vec<char> = Vec::new();
    while m >= 10
        invariant
            decimal(n as nat) == decimal(m as nat) + rev@.reverse(),
        decreases m,
    {
        let d: u64 = m % 10;
        let c: char = ((d as u8) + 48u8) as char;
        assert(c == digit_char(m as nat % 10));
        let ghost old_rev = rev@;
        rev.push(c);
        assert(rev@.reverse() == seq![c] + old_rev.reverse());
        assert(decimal(m as nat) == decimal(m as nat / 10).push(c));
        assert(decimal(m as nat / 10).push(c) + old_rev.reverse() == decimal(m as nat / 10) + (
        seq![c] + old_rev.reverse()));
        m = m / 10;
    }
    let c0: char = ((m as u8) + 48u8) as char;
    assert(c0 == digit_char(m as nat));
    push_char(out, c0);
    let k = rev.len();
    let ghost start = out@;
    let mut j = k;
    while j > 0
        invariant
            j <= k == rev@.len(),
            out@ == start + rev@.reverse().take(k - j),
        decreases j,
    {
        j = j - 1;
        let ghost before = out@;
        push_char(out, rev[j]);
        assert(rev@.reverse().take(k - j) == rev@.reverse().take(k - j - 1).push(rev@[j as int]));
    }
    assert(rev@.reverse().take(k as int) == rev@.reverse());
}

/// The decimal spelling of an integer, with a leading `-` when it is negative.
pub open spec fn signed_decimal(x: int) -> Seq<char> {
    if x < 0 {
        seq!['-'] + decimal((-x) as nat)
    } else {
        decimal(x as nat)
    }
}

/// The decimal spelling of `x` (`i64::to_string`).
pub fn signed_decimal_string(x: i64) -> (r: String)
    ensures
        r@ == signed_decimal(x as int),
{
    let mut r = String::new();
    if x < 0 {
        push_char(&mut r, '-');
        let m: u64 = (0i128 - (x as i128)) as u64;
        push_decimal(&mut r, m);
    } else {
        push_decimal(&mut r, x as u64);
    }
    r
}

/// Reads `v[lo..hi]` as a decimal number no greater than `max`; `None` when those
/// characters are empty, hold a non-digit, or spell a larger number.
pub fn parse_number(v: &Vec<char>, lo: usize, hi: usize, max: u64) -> (r: Option<u64>)
    requires
        lo <= hi <= v@.len(),
    ensures
        r is Some <==> is_number_text(v@.subrange(lo as int, hi as int), max as nat),
        r matches Some(x) ==> x == digits_value(v@.subrange(lo as int, hi as int)),
{
    let ghost s = v@.subrange(lo as int, hi as int);
    if lo == hi {
        return None;
    }
    let mut value: u128 = 0;
    let mut i = lo;
    while i < hi
        invariant
            lo <= i <= hi <= v@.len(),
            s == v@.subrange(lo as int, hi as int),
            all_digits(s.take(i - lo)),
            value == digits_value(s.take(i - lo)),
            value <= max,
        decreases hi - i,
    {
        let c = v[i];
        assert(s[i - lo] == c);
        if !is_digit_exec(c) {
            return None;
        }
        let d: u128 = ((c as u32) - 48) as u128;
        assert(s.take(i - lo + 1).drop_last() == s.take(i - lo));
        value = value * 10 + d;
        assert(all_digits(s.take(i - lo + 1))) by {
            assert forall|j: int| 0 <= j < i - lo + 1 implies is_digit(#[trigger] s.take(i - lo + 1)[j]) by {
                if j < i - lo {
                    assert(s.take(i - lo + 1)[j] == s.take(i - lo)[j]);
                }
            }
        }
        if value > max as u128 {
            proof {
                lemma_digits_value_prefix(s, i - lo + 1);
            }
            return None;
        }
        i = i + 1;
    }
    assert(s.take(i - lo) == s);
    Some(value as u64)
}


// ---------------------------------------------------------------------------
// Searching and splitting
// ---------------------------------------------------------------------------

/// The index of the first occurrence of `c` in `s`.
pub open spec fn first_index(s: Seq<char>, c: char) -> Option<int>
    decreases s.len(),
{
    if s.len() == 0 {
        None
    } else if s[0] == c {
        Some(0)
    } else {
        match first_index(s.drop_first(), c) {
            Some(i) => Some(i + 1),
            None => None,
        }
    }
}

pub proof fn lemma_first_index(s: Seq<char>, c: char)
    ensures
        first_index(s, c) matches Some(i) ==> 0 <= i < s.len() && s[i] == c && forall|j: int|
            0 <= j < i ==> s[j] != c,
        first_index(s, c) is None ==> forall|j: int| 0 <= j < s.len() ==> s[j] != c,
    decreases s.len(),
{
    if s.len() > 0 && s[0] != c {
        lemma_first_index(s.drop_first(), c);
        assert forall|j: int| 1 <= j < s.len() implies s[j] == s.drop_first()[j - 1] by {}
    }
}

/// `s` cut at its first `c`: the part before it and, when `c` occurs, the part after it.
pub open spec fn split_once(s: Seq<char>, c: char) -> (Seq<char>, Option<Seq<char>>) {
    match first_index(s, c) {
        Some(i) => (s.take(i), Some(s.skip(i + 1))),
        None => (s, None),
    }
}

/// The pieces of `s` between occurrences of `sep` (`str::split`): always at least one piece.
pub open spec fn split(s: Seq<char>, sep: char) -> Seq<Seq<char>>
    decreases s.len(),
{
    if s.len() == 0 {
        seq![Seq::<char>::empty()]
    } else {
        let pre = split(s.drop_last(), sep);
        if s.last() == sep {
            pre.push(Seq::<char>::empty())
        } else {
            pre.update(pre.len() - 1, pre.last().push(s.last()))
        }
    }
}

pub proof fn lemma_split_len(s: Seq<char>, sep: char)
    ensures
        split(s, sep).len() >= 1,
    decreases s.len(),
{
    if s.len() > 0 {
        lemma_split_len(s.drop_last(), sep);
    }
}

/// The index of the first `c` in `v`, if any.
pub fn find_char(v: &Vec<char>, c: char) -> (r: Option<usize>)
    ensures
        r matches Some(i) ==> first_index(v@, c) == Some(i as int),
        r is None ==> first_index(v@, c) is None,
{
    proof {
        lemma_first_index(v@, c);
    }
    let n = v.len();
    for i in 0..n
        invariant
            n == v@.len(),
            forall|j: int| 0 <= j < i ==> v@[j] != c,
            first_index(v@, c) matches Some(k) ==> 0 <= k < v@.len() && v@[k] == c && forall|j: int|
                0 <= j < k ==> v@[j] != c,
            first_index(v@, c) is None ==> forall|j: int| 0 <= j < v@.len() ==> v@[j] != c,
    {
        if v[i] == c {
            return Some(i);
        }
    }
    None
}

/// The characters of an optional vector.
pub open spec fn opt_chars(o: Option<Vec<char>>) -> Option<Seq<char>> {
    match o {
        Some(v) => Some(v@),
        None => None,
    }
}

/// `v` cut at its first `c` (`str::split_once`).
pub fn split_once_chars(v: &Vec<char>, c: char) -> (r: (Vec<char>, Option<Vec<char>>))
    ensures
        r.0@ == split_once(v@, c).0,
        opt_chars(r.1) == split_once(v@, c).1,
{
    proof {
        lemma_first_index(v@, c);
    }
    match find_char(v, c) {
        Some(i) => {
            let n = v.len();
            assert(i < n);
            (sub_chars(v, 0, i), Some(sub_chars(v, i + 1, n)))
        },
        None => (sub_chars(v, 0, v.len()), None),
    }
}

/// A vector of characters is its own deep view.
pub proof fn lemma_chars_deep_view(v: Vec<char>)
    ensures
        v.deep_view() == v@,
{
    assert(v.deep_view() =~= v@);
}

/// The pieces of `v` between occurrences of `sep` (`str::split`).
pub fn split_chars(v: &Vec<char>, sep: char) -> (r: Vec<Vec<char>>)
    ensures
        r.deep_view() == split(v@, sep),
{
    let mut pieces: Vec<Vec<char>> = Vec::new();
    let mut cur: Vec<char> = Vec::new();
    let n = v.len();
    for i in 0..n
        invariant
            n == v@.len(),
            pieces.deep_view().push(cur@) == split(v@.take(i as int), sep),
    {
        let c = v[i];
        let ghost prev = v@.take(i as int);
        assert(v@.take(i + 1).drop_last() == prev);
        proof {
            lemma_split_len(prev, sep);
        }
        if c == sep {
            let done = cur;
            proof {
                lemma_chars_deep_view(done);
            }
            let ghost before = pieces.deep_view();
            pieces.push(done);
            assert(pieces.deep_view() =~= before.push(done@));
            cur = Vec::new();
            assert(pieces.deep_view().push(cur@) =~= split(v@.take(i + 1), sep));
        } else {
            let ghost before = pieces.deep_view();
            let ghost pre = split(prev, sep);
            assert(pre == before.push(cur@));
            assert(v@.take(i + 1).last() == c);
            assert(split(v@.take(i + 1), sep) == pre.update(pre.len() - 1, pre.last().push(c)));
            cur.push(c);
            assert(pieces.deep_view().push(cur@) =~= split(v@.take(i + 1), sep));
        }
    }
    assert(v@.take(n as int) == v@);
    let ghost before = pieces.deep_view();
    proof {
        lemma_chars_deep_view(cur);
    }
    pieces.push(cur);
    assert(pieces.deep_view() =~= before.push(cur@));
    pieces
}

// ---------------------------------------------------------------------------
// Prefixes and suffixes
// ---------------------------------------------------------------------------

/// `s` ends with `t`.
pub open spec fn ends_with(s: Seq<char>, t: Seq<char>) -> bool {
    t.len() <= s.len() && s.skip(s.len() - t.len()) == t
}

/// `s` ends with `t` (`str::ends_with`).
pub fn ends_with_chars(s: &Vec<char>, t: &Vec<char>) -> (r: bool)
    ensures
        r == ends_with(s@, t@),
{
    if t.len() > s.len() {
        return false;
    }
    let sl = s.len();
    let off = sl - t.len();
    let n = t.len();
    for i in 0..n
        invariant
            off + n == sl,
            sl == s@.len(),
            n == t@.len(),
            forall|j: int| 0 <= j < i ==> s@[off + j] == t@[j],
    {
        assert(i < n);
        if s[off + i] != t[i] {
            assert(s@.skip(off as int)[i as int] != t@[i as int]);
            return false;
        }
    }
    assert(s@.skip(off as int) =~= t@);
    true
}

// ---------------------------------------------------------------------------
// Case
// ---------------------------------------------------------------------------

/// `c` is an ASCII letter or digit.
pub open spec fn is_ascii_alnum(c: char) -> bool {
    is_digit(c) || ('a' <= c && c <= 'z') || ('A' <= c && c <= 'Z')
}

/// `c` with an ASCII upper-case letter turned into lower case.
pub open spec fn ascii_lower_char(c: char) -> char {
    if 'A' <= c && c <= 'Z' {
        (c as int + 32) as char
    } else {
        c
    }
}

/// `s` with ASCII upper-case letters turned into lower case (`str::to_ascii_lowercase`).
pub open spec fn ascii_lower(s: Seq<char>) -> Seq<char> {
    s.map_values(|c: char| ascii_lower_char(c))
}

pub fn ascii_lower_char_exec(c: char) -> (r: char)
    ensures
        r == ascii_lower_char(c),
{
    if 'A' <= c && c <= 'Z' {
        ((c as u8) + 32u8) as char
    } else {
        c
    }
}

/// `v` with ASCII upper-case letters turned into lower case.
pub fn ascii_lower_chars(v: &Vec<char>) -> (r: Vec<char>)
    ensures
        r@ == ascii_lower(v@),
{
    let mut r: Vec<char> = Vec::new();
    let n = v.len();
    for i in 0..n
        invariant
            n == v@.len(),
            r@ == ascii_lower(v@.take(i as int)),
    {
        r.push(ascii_lower_char_exec(v[i]));
        assert(ascii_lower(v@.take(i + 1)) =~= ascii_lower(v@.take(i as int)).push(
            ascii_lower_char(v@[i as int]),
        ));
    }
    assert(v@.take(n as int) == v@);
    r
}

/// The Unicode lower-case form of `s`, as `str::to_lowercase` computes it.
pub uninterp spec fn unicode_lowercase(s: Seq<char>) -> Seq<char>;

/// `str::to_lowercase`: its result is named `unicode_lowercase`.
#[verifier::external_body]
pub(crate) fn to_lowercase(s: &str) -> (r: String)
    ensures
        r@ == unicode_lowercase(s@),
{
    s.to_lowercase()
}

// ---------------------------------------------------------------------------
// Ordering of character sequences
// ---------------------------------------------------------------------------

/// Lexicographic comparison by code point (which is how `str` compares):
/// negative, zero or positive.
pub open spec fn chars_order(a: Seq<char>, b: Seq<char>) -> int
    decreases a.len(),
{
    if a.len() == 0 && b.len() == 0 {
        0
    } else if a.len() == 0 {
        -1
    } else if b.len() == 0 {
        1
    } else if a[0] < b[0] {
        -1
    } else if b[0] < a[0] {
        1
    } else {
        chars_order(a.drop_first(), b.drop_first())
    }
}

pub proof fn lemma_chars_order_facts(a: Seq<char>, b: Seq<char>)
    ensures
        chars_order(a, b) == -chars_order(b, a),
        -1 <= chars_order(a, b) <= 1,
        chars_order(a, b) == 0 <==> a == b,
    decreases a.len(),
{
    if a.len() > 0 && b.len() > 0 && a[0] == b[0] {
        lemma_chars_order_facts(a.drop_first(), b.drop_first());
        if a.drop_first() == b.drop_first() {
            assert(a =~= seq![a[0]] + a.drop_first());
            assert(b =~= seq![b[0]] + b.drop_first());
        }
        if a == b {
            assert(a.drop_first() == b.drop_first());
        }
    } else if a.len() == 0 && b.len() == 0 {
        assert(a =~= b);
    }
}

pub proof fn lemma_chars_order_trans(a: Seq<char>, b: Seq<char>, c: Seq<char>)
    requires
        chars_order(a, b) <= 0,
        chars_order(b, c) <= 0,
    ensures
        chars_order(a, c) <= 0,
        chars_order(a, b) < 0 || chars_order(b, c) < 0 ==> chars_order(a, c) < 0,
    decreases a.len(),
{
    lemma_chars_order_facts(a, b);
    lemma_chars_order_facts(b, c);
    lemma_chars_order_facts(a, c);
    if a.len() > 0 && b.len() > 0 && c.len() > 0 && a[0] == b[0] && b[0] == c[0] {
        lemma_chars_order_trans(a.drop_first(), b.drop_first(), c.drop_first());
    }
}

/// Lexicographic comparison by code point: -1, 0 or 1.
pub fn compare_chars(a: &Vec<char>, b: &Vec<char>) -> (r: i8)
    ensures
        r == chars_order(a@, b@),
{
    let mut i: usize = 0;
    assert(a@.skip(0) == a@ && b@.skip(0) == b@);
    while i < a.len() && i < b.len()
        invariant
            i <= a@.len(),
            i <= b@.len(),
            chars_order(a@, b@) == chars_order(a@.skip(i as int), b@.skip(i as int)),
        decreases a@.len() - i,
    {
        if a[i] < b[i] {
            return -1;
        }
        if b[i] < a[i] {
            return 1;
        }
        assert(a@.skip(i as int).drop_first() == a@.skip(i + 1));
        assert(b@.skip(i as int).drop_first() == b@.skip(i + 1));
        i = i + 1;
    }
    if i < a.len() {
        1
    } else if i < b.len() {
        -1
    } else {
        0
    }
}

// ---------------------------------------------------------------------------
// Whitespace
// ---------------------------------------------------------------------------

/// Unicode `White_Space`, the set that `char::is_whitespace` tests for.
pub open spec fn is_whitespace(c: char) -> bool {
    ('\u{9}' <= c && c <= '\u{d}') || c == ' ' || c == '\u{85}' || c == '\u{a0}' || c == '\u{1680}'
        || ('\u{2000}' <= c && c <= '\u{200a}') || c == '\u{2028}' || c == '\u{2029}' || c
        == '\u{202f}' || c == '\u{205f}' || c == '\u{3000}'
}

pub fn is_whitespace_exec(c: char) -> (r: bool)
    ensures
        r == is_whitespace(c),
{
    ('\u{9}' <= c && c <= '\u{d}') || c == ' ' || c == '\u{85}' || c == '\u{a0}' || c == '\u{1680}'
        || ('\u{2000}' <= c && c <= '\u{200a}') || c == '\u{2028}' || c == '\u{2029}' || c
        == '\u{202f}' || c == '\u{205f}' || c == '\u{3000}'
}

/// `s` without its leading whitespace.
pub open spec fn trim_start(s: Seq<char>) -> Seq<char>
    decreases s.len(),
{
    if s.len() > 0 && is_whitespace(s[0]) {
        trim_start(s.drop_first())
    } else {
        s
    }
}

/// `s` without its trailing whitespace.
pub open spec fn trim_end(s: Seq<char>) -> Seq<char>
    decreases s.len(),
{
    if s.len() > 0 && is_whitespace(s.last()) {
        trim_end(s.drop_last())
    } else {
        s
    }
}

/// `s` without leading and trailing whitespace (`str::trim`).
pub open spec fn trim(s: Seq<char>) -> Seq<char> {
    trim_end(trim_start(s))
}

/// `v` without leading and trailing whitespace.
pub fn trim_chars(v: &Vec<char>) -> (r: Vec<char>)
    ensures
        r@ == trim(v@),
{
    let n = v.len();
    let mut lo: usize = 0;
    assert(v@.skip(0) == v@);
    while lo < n && is_whitespace_exec(v[lo])
        invariant
            lo <= n == v@.len(),
            trim_start(v@) == trim_start(v@.skip(lo as int)),
        decreases n - lo,
    {
        assert(v@.skip(lo as int).drop_first() == v@.skip(lo + 1));
        lo = lo + 1;
    }
    let mut hi: usize = n;
    while hi > lo && is_whitespace_exec(v[hi - 1])
        invariant
            lo <= hi <= n == v@.len(),
            trim_start(v@) == v@.skip(lo as int),
            trim(v@) == trim_end(v@.subrange(lo as int, hi as int)),
        decreases hi,
    {
        assert(v@.subrange(lo as int, hi as int).drop_last() == v@.subrange(lo as int, hi - 1));
        hi = hi - 1;
    }
    sub_chars(v, lo, hi)
}


// ---------------------------------------------------------------------------
// Facts about searching and splitting
// ---------------------------------------------------------------------------

/// `c` occurs nowhere in `s`.
pub open spec fn lacks(s: Seq<char>, c: char) -> bool {
    forall|i: int| 0 <= i < s.len() ==> s[i] != c
}

pub proof fn lemma_first_index_at(s: Seq<char>, c: char, i: int)
    requires
        0 <= i < s.len(),
        s[i] == c,
        lacks(s.take(i), c),
    ensures
        first_index(s, c) == Some(i),
{
    lemma_first_index(s, c);
    assert forall|j: int| 0 <= j < i implies s[j] != c by {
        assert(s.take(i)[j] == s[j]);
    }
    match first_index(s, c) {
        Some(k) => {
            if k < i {
                assert(s[k] != c);
            }
            if k > i {
                assert(s[i] != c);
            }
        },
        None => {
            assert(s[i] != c);
        },
    }
}

pub proof fn lemma_first_index_none(s: Seq<char>, c: char)
    requires
        lacks(s, c),
    ensures
        first_index(s, c) is None,
{
    lemma_first_index(s, c);
}

/// Splitting a text that does not hold the separator gives the text itself.
pub proof fn lemma_split_lacking(s: Seq<char>, sep: char)
    requires
        lacks(s, sep),
    ensures
        split(s, sep) == seq![s],
    decreases s.len(),
{
    if s.len() > 0 {
        lemma_split_lacking(s.drop_last(), sep);
        assert(s.drop_last().push(s.last()) =~= s);
    } else {
        assert(s =~= Seq::<char>::empty());
    }
}

/// Splitting at a separator splits the two sides independently.
pub proof fn lemma_split_concat(x: Seq<char>, y: Seq<char>, sep: char)
    ensures
        split(x + seq![sep] + y, sep) == split(x, sep) + split(y, sep),
    decreases y.len(),
{
    lemma_split_len(x, sep);
    lemma_split_len(y, sep);
    let s = x + seq![sep] + y;
    if y.len() == 0 {
        assert(s.drop_last() =~= x);
        assert(split(s, sep) =~= split(x, sep) + split(y, sep));
    } else {
        lemma_split_concat(x, y.drop_last(), sep);
        assert(s.drop_last() =~= x + seq![sep] + y.drop_last());
        lemma_split_len(y.drop_last(), sep);
        assert(split(s, sep) =~= split(x, sep) + split(y, sep));
    }
}

/// When every piece of `split(s, sep)` satisfies `ok` character by character, so does
/// every character of `s` other than the separator.
pub proof fn lemma_split_chars_ok(s: Seq<char>, sep: char, ok: spec_fn(char) -> bool)
    requires
        forall|i: int, j: int|
            0 <= i < split(s, sep).len() && 0 <= j < split(s, sep)[i].len() ==> ok(
                #[trigger] split(s, sep)[i][j],
            ),
    ensures
        forall|k: int| 0 <= k < s.len() ==> s[k] == sep || ok(#[trigger] s[k]),
    decreases s.len(),
{
    if s.len() > 0 {
        let pre = split(s.drop_last(), sep);
        lemma_split_len(s.drop_last(), sep);
        let whole = split(s, sep);
        assert forall|i: int, j: int| 0 <= i < pre.len() && 0 <= j < pre[i].len() implies ok(
            #[trigger] pre[i][j],
        ) by {
            if s.last() == sep {
                assert(whole[i] == pre[i]);
            } else if i < pre.len() - 1 {
                assert(whole[i] == pre[i]);
            } else {
                assert(whole[i] == pre[i].push(s.last()));
                assert(whole[i][j] == pre[i][j]);
            }
        }
        lemma_split_chars_ok(s.drop_last(), sep, ok);
        assert forall|k: int| 0 <= k < s.len() implies s[k] == sep || ok(#[trigger] s[k]) by {
            if k < s.len() - 1 {
                assert(s[k] == s.drop_last()[k]);
            } else if s.last() != sep {
                let w = pre.len() - 1;
                assert(whole[w] == pre[w].push(s.last()));
                assert(whole[w][pre[w].len() as int] == s.last());
            }
        }
    }
}

/// Every character of `decimal(n)` is a digit, so it holds no other character.
pub proof fn lemma_decimal_lacks(n: nat, c: char)
    requires
        !is_digit(c),
    ensures
        lacks(decimal(n), c),
{
    lemma_decimal(n);
}

// ---------------------------------------------------------------------------
// Facts about ASCII lower case
// ---------------------------------------------------------------------------

/// `c` is not an ASCII letter, so lower-casing leaves it and nothing else becomes it.
pub open spec fn is_caseless(c: char) -> bool {
    !('a' <= c && c <= 'z') && !('A' <= c && c <= 'Z')
}

pub proof fn lemma_ascii_lower_idempotent(s: Seq<char>)
    ensures
        ascii_lower(ascii_lower(s)) == ascii_lower(s),
{
    assert(ascii_lower(ascii_lower(s)) =~= ascii_lower(s));
}

pub proof fn lemma_first_index_lower(s: Seq<char>, c: char)
    requires
        is_caseless(c),
    ensures
        first_index(ascii_lower(s), c) == first_index(s, c),
{
    let l = ascii_lower(s);
    lemma_first_index(s, c);
    assert forall|j: int| 0 <= j < s.len() implies (l[j] == c <==> s[j] == c) by {}
    match first_index(s, c) {
        Some(i) => {
            assert(lacks(l.take(i), c)) by {
                assert forall|j: int| 0 <= j < i implies l.take(i)[j] != c by {
                    assert(s[j] != c);
                }
            }
            lemma_first_index_at(l, c, i);
        },
        None => {
            lemma_first_index_none(l, c);
        },
    }
}

/// Lower-case each piece of a split.
pub open spec fn lower_pieces(p: Seq<Seq<char>>) -> Seq<Seq<char>> {
    p.map_values(|x: Seq<char>| ascii_lower(x))
}

pub proof fn lemma_split_lower(s: Seq<char>, sep: char)
    requires
        is_caseless(sep),
    ensures
        split(ascii_lower(s), sep) == lower_pieces(split(s, sep)),
    decreases s.len(),
{
    let l = ascii_lower(s);
    if s.len() > 0 {
        lemma_split_lower(s.drop_last(), sep);
        assert(l.drop_last() =~= ascii_lower(s.drop_last()));
        lemma_split_len(s.drop_last(), sep);
        let pre = split(s.drop_last(), sep);
        assert(ascii_lower(Seq::<char>::empty()) =~= Seq::<char>::empty());
        if s.last() == sep {
            assert(l.last() == sep);
            assert(split(l, sep) == split(l.drop_last(), sep).push(Seq::<char>::empty()));
            assert(split(l, sep) =~= lower_pieces(split(s, sep)));
        } else {
            assert(l.last() != sep);
            assert(ascii_lower(pre.last().push(s.last())) =~= ascii_lower(pre.last()).push(
                l.last(),
            ));
            assert(split(l, sep) =~= lower_pieces(split(s, sep)));
        }
    } else {
        assert(ascii_lower(Seq::<char>::empty()) =~= Seq::<char>::empty());
        assert(l.len() == 0);
        assert(split(l, sep) =~= lower_pieces(split(s, sep)));
    }
}

pub proof fn lemma_number_text_lower(s: Seq<char>, max: nat)
    ensures
        is_number_text(ascii_lower(s), max) == is_number_text(s, max),
        is_number_text(s, max) ==> ascii_lower(s) == s,
{
    let l = ascii_lower(s);
    if all_digits(s) {
        assert(l =~= s);
    }
    if all_digits(l) {
        assert forall|i: int| 0 <= i < s.len() implies is_digit(#[trigger] s[i]) by {
            assert(is_digit(l[i]));
        }
        assert(l =~= s);
    }
}


// ---------------------------------------------------------------------------
// Words
// ---------------------------------------------------------------------------

/// The maximal runs of non-whitespace characters of `s`, in order (`str::split_whitespace`).
pub open spec fn words(s: Seq<char>) -> Seq<Seq<char>>
    decreases s.len(),
{
    if s.len() == 0 {
        Seq::<Seq<char>>::empty()
    } else {
        let pre = words(s.drop_last());
        let c = s.last();
        if is_whitespace(c) {
            pre
        } else if s.len() >= 2 && !is_whitespace(s[s.len() - 2]) {
            pre.update(pre.len() - 1, pre.last().push(c))
        } else {
            pre.push(seq![c])
        }
    }
}

/// A text that ends in a non-whitespace character has at least one word.
pub proof fn lemma_words_nonempty(s: Seq<char>)
    requires
        s.len() > 0,
        !is_whitespace(s.last()),
    ensures
        words(s).len() > 0,
    decreases s.len(),
{
    if s.len() >= 2 && !is_whitespace(s[s.len() - 2]) {
        lemma_words_nonempty(s.drop_last());
    }
}

/// The words of `v` (`str::split_whitespace`).
pub fn words_of(v: &Vec<char>) -> (r: Vec<Vec<char>>)
    ensures
        r.deep_view() == words(v@),
{
    let mut r: Vec<Vec<char>> = Vec::new();
    let n = v.len();
    for i in 0..n
        invariant
            n == v@.len(),
            r.deep_view() == words(v@.take(i as int)),
    {
        let c = v[i];
        let ghost prev = v@.take(i as int);
        let ghost cur = v@.take(i + 1);
        assert(cur.drop_last() == prev);
        assert(cur.last() == c);
        if is_whitespace_exec(c) {
        } else if i >= 1 && !is_whitespace_exec(v[i - 1]) {
            assert(cur[cur.len() - 2] == v@[i - 1]);
            proof {
                lemma_words_nonempty(prev);
            }
            let k = r.len() - 1;
            let mut last = r.pop().unwrap();
            let ghost before = r.deep_view();
            proof {
                lemma_chars_deep_view(last);
            }
            last.push(c);
            proof {
                lemma_chars_deep_view(last);
            }
            r.push(last);
            assert(r.deep_view() =~= words(cur));
        } else {
            let ghost before = r.deep_view();
            let mut w: Vec<char> = Vec::new();
            w.push(c);
            proof {
                lemma_chars_deep_view(w);
            }
            r.push(w);
            assert(r.deep_view() =~= words(cur));
        }
    }
    assert(v@.take(n as int) == v@);
    r
}

/// Strings made of the character vectors `v`, in order.
pub fn strings_of(v: &Vec<Vec<char>>) -> (r: Vec<String>)
    ensures
        r.deep_view() == v.deep_view(),
{
    let mut r: Vec<String> = Vec::new();
    let n = v.len();
    for i in 0..n
        invariant
            n == v@.len(),
            r@.len() == i,
            r.deep_view() == v.deep_view().take(i as int),
    {
        proof {
            lemma_chars_deep_view(v@[i as int]);
        }
        let s = string_of(&v[i]);
        let ghost before = r@;
        r.push(s);
        assert forall|j: int| 0 <= j < i + 1 implies #[trigger] r.deep_view()[j] == v.deep_view().take(
            i + 1,
        )[j] by {
            if j < i {
                assert(r@[j] == before[j]);
                assert(r.deep_view()[j] == before[j]@);
            }
        }
        assert(r.deep_view() =~= v.deep_view().take(i + 1));
    }
    assert(v.deep_view().take(n as int) =~= v.deep_view());
    r
}

/// `a` and `b` spell the same text.
pub fn str_equal(a: &str, b: &str) -> (r: bool)
    ensures
        r == (a@ == b@),
{
    let x = chars_of(a);
    let y = chars_of(b);
    let c = compare_chars(&x, &y);
    proof {
        lemma_chars_order_facts(x@, y@);
    }
    c == 0
}

/// `s` without its trailing `c`s (`str::trim_end_matches` with a character).
pub open spec fn trim_end_char(s: Seq<char>, c: char) -> Seq<char>
    decreases s.len(),
{
    if s.len() > 0 && s.last() == c {
        trim_end_char(s.drop_last(), c)
    } else {
        s
    }
}

/// `s` without its trailing `c`s.
pub fn trim_end_char_exec(s: &str, c: char) -> (r: String)
    ensures
        r@ == trim_end_char(s@, c),
{
    let v = chars_of(s);
    let mut hi = v.len();
    assert(v@.take(hi as int) == v@);
    while hi > 0 && v[hi - 1] == c
        invariant
            hi <= v@.len(),
            trim_end_char(s@, c) == trim_end_char(v@.take(hi as int), c),
            v@ == s@,
        decreases hi,
    {
        assert(v@.take(hi as int).drop_last() == v@.take(hi - 1));
        hi = hi - 1;
    }
    string_of(&sub_chars(&v, 0, hi))
}

/// `s` with every trailing occurrence of `t` removed, one after another
/// (`str::trim_end_matches` with a string pattern).
pub open spec fn trim_end_matches(s: Seq<char>, t: Seq<char>) -> Seq<char>
    decreases s.len(),
{
    if t.len() > 0 && ends_with(s, t) {
        trim_end_matches(s.subrange(0, s.len() - t.len()), t)
    } else {
        s
    }
}

/// `s` with every trailing occurrence of `t` removed.
pub fn trim_end_matches_exec(s: &str, t: &str) -> (r: String)
    ensures
        r@ == trim_end_matches(s@, t@),
{
    let tv = chars_of(t);
    let mut cur = chars_of(s);
    while tv.len() > 0 && ends_with_chars(&cur, &tv)
        invariant
            tv@ == t@,
            trim_end_matches(cur@, t@) == trim_end_matches(s@, t@),
        decreases cur@.len(),
    {
        cur = sub_chars(&cur, 0, cur.len() - tv.len());
    }
    string_of(&cur)
}

} // verus!
