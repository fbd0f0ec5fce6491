//! Text handling on character sequences: the handful of string operations that
//! the access log applies to the first line of an HTTP message.
use vstd::prelude::*;
use vstd::utf8::{decode_utf8, valid_utf8};

verus! {

broadcast use vstd::seq_lib::group_seq_properties;

/// Calls `std::str::from_utf8`, which succeeds exactly on valid UTF-8 and then
/// views the same bytes as a string of the characters they encode.
#[verifier::external_body]
pub(crate) fn str_from_utf8(bytes: &[u8]) -> (r: Option<&str>)
    ensures
        r is Some <==> valid_utf8(bytes@),
        r matches Some(s) ==> s@ == decode_utf8(bytes@),
{
    std::str::from_utf8(bytes).ok()
}

/// Calls `String::from_iter` on characters: the string of exactly those characters.
#[verifier::external_body]
pub(crate) fn string_from_chars(chars: &[char]) -> (s: String)
    ensures
        s@ == chars@,
{
    chars.iter().collect::<String>()
}

/// The characters of a string, in order.
pub fn chars_of(s: &str) -> (v: Vec<char>)
    ensures
        v@ == s@,
{
    broadcast use vstd::string::group_string_axioms;
    let mut v: Vec<char> = Vec::new();
    for c in it: s.chars()
        invariant
            it.seq() == s@,
            v@ == it.seq().take(it.index() as int),
    {
        v.push(c);
        assert(v@ =~= it.seq().take(it.index() + 1));
    }
    assert(v@ =~= s@);
    v
}

// ---------------------------------------------------------------------------
// First occurrence of a character

/// The index of the first `c` in `s`, or the length of `s` when it holds none.
pub open spec fn first_index(s: Seq<char>, c: char) -> int
    decreases s.len(),
{
    if s.len() == 0 {
        0
    } else if s[0] == c {
        0
    } else {
        1 + first_index(s.drop_first(), c)
    }
}

/// `k` is the index of the first `c` in `s`, or the length of `s` when it holds none.
pub open spec fn is_first_index(s: Seq<char>, c: char, k: int) -> bool {
    &&& 0 <= k <= s.len()
    &&& forall|j: int| 0 <= j < k ==> s[j] != c
    &&& k < s.len() ==> s[k] == c
}

/// `first_index` is characterised by `is_first_index`.
pub proof fn lemma_first_index(s: Seq<char>, c: char, k: int)
    ensures
        is_first_index(s, c, first_index(s, c)),
        is_first_index(s, c, k) ==> k == first_index(s, c),
    decreases s.len(),
{
    if s.len() > 0 && s[0] != c {
        let t = s.drop_first();
        lemma_first_index(t, c, k - 1);
        let f = first_index(t, c);
        assert forall|j: int| 0 <= j < f + 1 implies s[j] != c by {
            if j > 0 {
                assert(s[j] == t[j - 1]);
            }
        }
        if is_first_index(s, c, k) {
            assert(k > 0);
            assert forall|j: int| 0 <= j < k - 1 implies t[j] != c by {
                assert(t[j] == s[j + 1]);
            }
            assert(is_first_index(t, c, k - 1));
        }
    }
}

/// The index of the first `c` in `s`, or the length of `s` when it holds none.
pub fn find_char(s: &[char], c: char) -> (k: usize)
    ensures
        k == first_index(s@, c),
        is_first_index(s@, c, k as int),
{
    let mut i: usize = 0;
    while i < s.len() && s[i] != c
        invariant
            i <= s.len(),
            forall|j: int| 0 <= j < i ==> s@[j] != c,
        decreases s.len() - i,
    {
        i = i + 1;
    }
    proof {
        lemma_first_index(s@, c, i as int);
    }
    i
}

/// The first line of `t`: what `split('\n')` yields first.
pub open spec fn first_line(t: Seq<char>) -> Seq<char> {
    t.take(first_index(t, '\n'))
}

/// The first line of `t`: its characters up to the first line feed, or all of it.
pub fn first_line_of(t: &[char]) -> (line: Vec<char>)
    ensures
        line@ == first_line(t@),
{
    let k = find_char(t, '\n');
    let mut line: Vec<char> = Vec::new();
    let mut i: usize = 0;
    while i < k
        invariant
            k <= t@.len(),
            i <= k,
            line@ == t@.take(i as int),
        decreases k - i,
    {
        line.push(t[i]);
        i = i + 1;
        assert(line@ =~= t@.take(i as int));
    }
    line
}

// ---------------------------------------------------------------------------
// Substrings

/// `needle` occurs in `hay` at index `i`.
pub open spec fn occurs_at(hay: Seq<char>, needle: Seq<char>, i: int) -> bool {
    0 <= i && i + needle.len() <= hay.len() && hay.subrange(i, i + needle.len()) == needle
}

/// `needle` occurs somewhere in `hay`.
pub open spec fn contains_seq(hay: Seq<char>, needle: Seq<char>) -> bool {
    exists|i: int| occurs_at(hay, needle, i)
}

/// Whether `needle` occurs in `hay` at index `i`.
fn matches_at(hay: &[char], needle: &[char], i: usize) -> (r: bool)
    requires
        i <= hay@.len(),
    ensures
        r == occurs_at(hay@, needle@, i as int),
{
    if needle.len() > hay.len() - i {
        return false;
    }
    let mut j: usize = 0;
    while j < needle.len()
        invariant
            i + needle.len() <= hay.len(),
            j <= needle.len(),
            forall|m: int| 0 <= m < j ==> hay@[i + m] == needle@[m],
        decreases needle.len() - j,
    {
        if hay[i + j] != needle[j] {
            assert(hay@.subrange(i as int, i + needle@.len())[j as int] != needle@[j as int]);
            return false;
        }
        j = j + 1;
    }
    assert(hay@.subrange(i as int, i + needle@.len()) =~= needle@);
    true
}

/// Whether `needle` occurs in `hay`.
pub fn contains(hay: &[char], needle: &[char]) -> (r: bool)
    ensures
        r == contains_seq(hay@, needle@),
{
    if needle.len() > hay.len() {
        return false;
    }
    let last = hay.len() - needle.len();
    let mut i: usize = 0;
    while i < last
        invariant
            last + needle.len() == hay.len(),
            i <= last,
            forall|m: int| 0 <= m < i ==> !occurs_at(hay@, needle@, m),
        decreases last - i,
    {
        if matches_at(hay, needle, i) {
            return true;
        }
        i = i + 1;
    }
    let found = matches_at(hay, needle, last);
    assert(!found ==> forall|m: int| !occurs_at(hay@, needle@, m));
    found
}

/// `hay` with every occurrence of `pat` taken out, scanning from the left and
/// resuming after each occurrence: what `hay.replace(pat, "")` gives.
pub open spec fn remove_all(hay: Seq<char>, pat: Seq<char>) -> Seq<char>
    decreases hay.len(),
{
    if pat.len() == 0 || hay.len() < pat.len() {
        hay
    } else if hay.take(pat.len() as int) == pat {
        remove_all(hay.skip(pat.len() as int), pat)
    } else {
        seq![hay[0]] + remove_all(hay.skip(1), pat)
    }
}

/// `hay` with every occurrence of `pat` taken out, as `replace(pat, "")` does.
pub fn remove_all_of(hay: &[char], pat: &[char]) -> (out: Vec<char>)
    ensures
        out@ == remove_all(hay@, pat@),
{
    let mut out: Vec<char> = Vec::new();
    if pat.len() == 0 {
        let mut k: usize = 0;
        while k < hay.len()
            invariant
                k <= hay@.len(),
                out@ == hay@.take(k as int),
            decreases hay.len() - k,
        {
            out.push(hay[k]);
            k = k + 1;
            assert(out@ =~= hay@.take(k as int));
        }
        assert(out@ =~= hay@);
        return out;
    }
    let mut i: usize = 0;
    assert(hay@.skip(0) =~= hay@);
    while i < hay.len()
        invariant
            pat@.len() > 0,
            i <= hay@.len(),
            remove_all(hay@, pat@) == out@ + remove_all(hay@.skip(i as int), pat@),
        decreases hay.len() - i,
    {
        let ghost rest = hay@.skip(i as int);
        if matches_at(hay, pat, i) {
            assert(rest.take(pat@.len() as int) =~= hay@.subrange(i as int, i + pat@.len()));
            assert(rest.skip(pat@.len() as int) =~= hay@.skip(i + pat@.len()));
            i = i + pat.len();
        } else {
            proof {
                if rest.len() >= pat@.len() {
                    assert(rest.take(pat@.len() as int) =~= hay@.subrange(i as int, i + pat@.len()));
                }
            }
            assert(rest.skip(1) =~= hay@.skip(i + 1));
            assert(rest[0] == hay@[i as int]);
            let ghost before = out@;
            out.push(hay[i]);
            assert(out@ =~= before + seq![hay@[i as int]]);
            assert(before + (seq![hay@[i as int]] + remove_all(hay@.skip(i + 1), pat@)) =~= out@
                + remove_all(hay@.skip(i + 1), pat@));
            i = i + 1;
        }
    }
    assert(hay@.skip(i as int) =~= Seq::<char>::empty());
    assert(out@ + Seq::<char>::empty() =~= out@);
    out
}

// ---------------------------------------------------------------------------
// White space

/// The Unicode `White_Space` property, which `char::is_whitespace` tests.
pub open spec fn is_white_space(c: char) -> bool {
    let u = c as u32;
    ||| 0x9 <= u <= 0xd
    ||| u == 0x20
    ||| u == 0x85
    ||| u == 0xa0
    ||| u == 0x1680
    ||| 0x2000 <= u <= 0x200a
    ||| u == 0x2028
    ||| u == 0x2029
    ||| u == 0x202f
    ||| u == 0x205f
    ||| u == 0x3000
}

/// Whether `c` has the Unicode `White_Space` property.
pub fn white_space(c: char) -> (r: bool)
    ensures
        r == is_white_space(c),
{
    let u = c as u32;
    (0x9 <= u && u <= 0xd) || u == 0x20 || u == 0x85 || u == 0xa0 || u == 0x1680 || (0x2000 <= u
        && u <= 0x200a) || u == 0x2028 || u == 0x2029 || u == 0x202f || u == 0x205f || u == 0x3000
}

/// `s` without its leading white space.
pub open spec fn trim_start(s: Seq<char>) -> Seq<char>
    decreases s.len(),
{
    if s.len() > 0 && is_white_space(s[0]) {
        trim_start(s.drop_first())
    } else {
        s
    }
}

/// `s` without its trailing white space.
pub open spec fn trim_end(s: Seq<char>) -> Seq<char>
    decreases s.len(),
{
    if s.len() > 0 && is_white_space(s.last()) {
        trim_end(s.drop_last())
    } else {
        s
    }
}

/// `s` without leading and trailing white space: what `str::trim` gives.
pub open spec fn trim(s: Seq<char>) -> Seq<char> {
    trim_end(trim_start(s))
}

/// `s` without leading and trailing white space, as `str::trim` does.
pub fn trimmed(s: &[char]) -> (out: Vec<char>)
    ensures
        out@ == trim(s@),
{
    let n = s.len();
    let mut a: usize = 0;
    assert(s@.skip(0) =~= s@);
    while a < n && white_space(s[a])
        invariant
            n == s@.len(),
            a <= n,
            trim_start(s@) == trim_start(s@.skip(a as int)),
        decreases n - a,
    {
        assert(s@.skip(a as int).drop_first() =~= s@.skip(a + 1));
        a = a + 1;
    }
    assert(trim_start(s@) == s@.subrange(a as int, n as int)) by {
        assert(s@.skip(a as int) =~= s@.subrange(a as int, n as int));
    }
    let mut b: usize = n;
    while b > a && white_space(s[b - 1])
        invariant
            n == s@.len(),
            a <= b <= n,
            trim_end(s@.subrange(a as int, n as int)) == trim_end(s@.subrange(a as int, b as int)),
        decreases b - a,
    {
        assert(s@.subrange(a as int, b as int).drop_last() =~= s@.subrange(a as int, b - 1));
        b = b - 1;
    }
    let mut out: Vec<char> = Vec::new();
    let mut i: usize = a;
    while i < b
        invariant
            n == s@.len(),
            a <= i <= b <= n,
            out@ == s@.subrange(a as int, i as int),
        decreases b - i,
    {
        out.push(s[i]);
        i = i + 1;
        assert(out@ =~= s@.subrange(a as int, i as int));
    }
    out
}

/// Trimming twice gives what trimming once gave.
pub proof fn lemma_trim_idempotent(s: Seq<char>)
    ensures
        trim(trim(s)) == trim(s),
{
    lemma_trim_start_shape(s);
    lemma_trim_start_of_trim_end(trim_start(s));
    lemma_trim_end_fixed(trim_start(s));
}

/// What `trim_start` leaves is empty or starts with a character that is not white space.
proof fn lemma_trim_start_shape(s: Seq<char>)
    ensures
        trim_start(s).len() == 0 || !is_white_space(trim_start(s)[0]),
    decreases s.len(),
{
    if s.len() > 0 && is_white_space(s[0]) {
        lemma_trim_start_shape(s.drop_first());
    }
}

/// Trimming the end of a sequence whose end is already trimmed changes nothing.
proof fn lemma_trim_end_fixed(s: Seq<char>)
    ensures
        trim_end(trim_end(s)) == trim_end(s),
    decreases s.len(),
{
    if s.len() > 0 && is_white_space(s.last()) {
        lemma_trim_end_fixed(s.drop_last());
    }
}

/// Trimming the end of a sequence that does not start with white space leaves
/// a sequence whose start needs no trimming.
proof fn lemma_trim_start_of_trim_end(s: Seq<char>)
    requires
        s.len() == 0 || !is_white_space(s[0]),
    ensures
        trim_start(trim_end(s)) == trim_end(s),
    decreases s.len(),
{
    if s.len() > 0 && is_white_space(s.last()) {
        let t = s.drop_last();
        if t.len() > 0 {
            assert(t[0] == s[0]);
        }
        lemma_trim_start_of_trim_end(t);
    }
}

// ---------------------------------------------------------------------------
// Splitting on a space

/// What `s.split_once(' ')` gives: the text before the first space and the
/// text after it, or `None` when `s` holds no space.
pub open spec fn split_once_space(s: Seq<char>) -> Option<(Seq<char>, Seq<char>)> {
    let k = first_index(s, ' ');
    if k < s.len() {
        Some((s.take(k), s.skip(k + 1)))
    } else {
        None
    }
}

// ---------------------------------------------------------------------------
// Decimal integers

/// `c` is an ASCII decimal digit.
pub open spec fn is_digit(c: char) -> bool {
    '0' <= c <= '9'
}

/// The value of an ASCII digit.
pub open spec fn digit_value(c: char) -> nat {
    (c as nat - '0' as nat) as nat
}

/// The value of a sequence of decimal digits, most significant first.
pub open spec fn digits_value(s: Seq<char>) -> nat
    decreases s.len(),
{
    if s.len() == 0 {
        0
    } else {
        digits_value(s.drop_last()) * 10 + digit_value(s.last())
    }
}

/// Every character of `s` is an ASCII digit.
pub open spec fn all_digits(s: Seq<char>) -> bool {
    forall|i: int| 0 <= i < s.len() ==> #[trigger] is_digit(s[i])
}

/// The digits of a number after its optional sign.
pub open spec fn unsigned_part(s: Seq<char>) -> Seq<char> {
    if s.len() > 0 && (s[0] == '-' || s[0] == '+') {
        s.drop_first()
    } else {
        s
    }
}

/// What `s.parse::<i32>()` gives: an optional `+` or `-`, then at least one
/// ASCII digit and nothing else, with a value in the range of `i32`.
pub open spec fn parse_i32(s: Seq<char>) -> Option<i32> {
    let digits = unsigned_part(s);
    if digits.len() == 0 || !all_digits(digits) {
        None
    } else {
        let v: int = if s[0] == '-' {
            -digits_value(digits)
        } else {
            digits_value(digits) as int
        };
        if i32::MIN <= v <= i32::MAX {
            Some(v as i32)
        } else {
            None
        }
    }
}

/// A longer run of digits is worth at least as much as its prefix.
proof fn lemma_digits_value_prefix(s: Seq<char>, i: int)
    requires
        0 <= i <= s.len(),
    ensures
        digits_value(s.take(i)) <= digits_value(s),
    decreases s.len() - i,
{
    if i < s.len() {
        lemma_digits_value_prefix(s, i + 1);
        assert(s.take(i + 1).drop_last() =~= s.take(i));
    } else {
        assert(s.take(i) =~= s);
    }
}

/// The value of the digits `s[start..]`, when they are all digits and the value
/// is at most 2^31; `None` otherwise.
fn small_digits_value(s: &[char], start: usize) -> (r: Option<u64>)
    requires
        start <= s@.len(),
    ensures
        r matches Some(v) ==> all_digits(s@.skip(start as int)) && v == digits_value(
            s@.skip(start as int),
        ) && v <= 0x8000_0000,
        r is None ==> !all_digits(s@.skip(start as int)) || digits_value(s@.skip(start as int))
            > 0x8000_0000,
{
    let ghost digits = s@.skip(start as int);
    let n = s.len();
    let mut acc: u64 = 0;
    let mut i: usize = start;
    while i < n
        invariant
            n == s@.len(),
            start <= i <= n,
            digits == s@.skip(start as int),
            all_digits(digits.take(i - start)),
            acc == digits_value(digits.take(i - start)),
            acc <= 0x8000_0000,
        decreases n - i,
    {
        let c = s[i];
        assert(digits[i - start] == c);
        if !('0' <= c && c <= '9') {
            assert(!is_digit(digits[i - start]));
            return None;
        }
        let d = (c as u32 - '0' as u32) as u64;
        let ghost prefix = digits.take(i + 1 - start);
        assert(prefix.drop_last() =~= digits.take(i - start));
        assert(prefix.last() == c);
        acc = acc * 10 + d;
        i = i + 1;
        assert(all_digits(digits.take(i - start))) by {
            assert forall|j: int| 0 <= j < i - start implies #[trigger] is_digit(
                digits.take(i - start)[j],
            ) by {
                if j < i - 1 - start {
                    assert(digits.take(i - start)[j] == digits.take(i - 1 - start)[j]);
                }
            }
        }
        if acc > 0x8000_0000 {
            proof {
                lemma_digits_value_prefix(digits, i - start);
            }
            return None;
        }
    }
    assert(digits.take(n - start) =~= digits);
    Some(acc)
}

/// The `i32` that `s` spells, as `s.parse::<i32>()` reads it.
pub fn parse_i32_of(s: &[char]) -> (r: Option<i32>)
    ensures
        r == parse_i32(s@),
{
    let n = s.len();
    if n == 0 {
        return None;
    }
    let signed = s[0] == '-' || s[0] == '+';
    let start: usize = if signed {
        1
    } else {
        0
    };
    assert(unsigned_part(s@) =~= s@.skip(start as int));
    if start == n {
        return None;
    }
    match small_digits_value(s, start) {
        None => None,
        Some(v) => {
            if s[0] == '-' {
                Some((0 - (v as i64)) as i32)
            } else if v <= 0x7fff_ffff {
                Some(v as i32)
            } else {
                None
            }
        },
    }
}

/// The decimal digit character for `d`.
pub open spec fn digit_char(d: nat) -> char {
    ('0' as nat + d) as char
}

/// The decimal spelling of `n`, without leading zeros.
pub open spec fn nat_decimal(n: nat) -> Seq<char>
    decreases n,
{
    if n < 10 {
        seq![digit_char(n)]
    } else {
        nat_decimal(n / 10) + seq![digit_char(n % 10)]
    }
}

/// What `n.to_string()` gives for an `i32`: a minus sign for a negative number,
/// then the decimal digits of its magnitude.
pub open spec fn i32_decimal(n: i32) -> Seq<char> {
    if n < 0 {
        seq!['-'] + nat_decimal((-n) as nat)
    } else {
        nat_decimal(n as nat)
    }
}

/// Appends the decimal digits of `n` to `out`.
fn push_decimal(out: &mut Vec<char>, n: u32)
    ensures
        final(out)@ == old(out)@ + nat_decimal(n as nat),
    decreases n,
{
    if n >= 10 {
        push_decimal(out, n / 10);
    }
    let d = n % 10;
    let c = ('0' as u8 + d as u8) as char;
    assert(c == digit_char((n % 10) as nat));
    out.push(c);
}

/// The decimal spelling of `n`, as `n.to_string()` gives it.
pub fn decimal_of(n: i32) -> (out: Vec<char>)
    ensures
        out@ == i32_decimal(n),
{
    let mut out: Vec<char> = Vec::new();
    if n < 0 {
        out.push('-');
        let m: u32 = (0 - (n as i64)) as u32;
        push_decimal(&mut out, m);
    } else {
        push_decimal(&mut out, n as u32);
    }
    out
}

// ---------------------------------------------------------------------------
// Padding

/// `s` followed by spaces up to `width` characters: what the format
/// specification `{:<width}` writes for a string.
pub open spec fn pad_right(s: Seq<char>, width: nat) -> Seq<char> {
    if s.len() < width {
        s + Seq::new((width - s.len()) as nat, |i: int| ' ')
    } else {
        s
    }
}

/// `s` followed by spaces up to `width` characters.
pub fn padded(s: &[char], width: usize) -> (out: Vec<char>)
    ensures
        out@ == pad_right(s@, width as nat),
{
    let mut out: Vec<char> = Vec::new();
    let mut i: usize = 0;
    while i < s.len()
        invariant
            i <= s@.len(),
            out@ == s@.take(i as int),
        decreases s.len() - i,
    {
        out.push(s[i]);
        i = i + 1;
        assert(out@ =~= s@.take(i as int));
    }
    assert(s@.take(s@.len() as int) =~= s@);
    let mut k: usize = s.len();
    while k < width
        invariant
            s@.len() <= k <= width || (k == s@.len() && k >= width),
            out@ == s@ + Seq::new((k - s@.len()) as nat, |j: int| ' '),
        decreases width - k,
    {
        out.push(' ');
        k = k + 1;
        assert(out@ =~= s@ + Seq::new((k - s@.len()) as nat, |j: int| ' '));
    }
    if s.len() >= width {
        assert(out@ =~= s@);
    } else {
        assert(out@ =~= s@ + Seq::new((width - s@.len()) as nat, |j: int| ' '));
    }
    out
}

/// The decimal spelling of a natural number is all digits, and its value is the number.
proof fn lemma_nat_decimal(n: nat)
    ensures
        nat_decimal(n).len() > 0,
        all_digits(nat_decimal(n)),
        digits_value(nat_decimal(n)) == n,
    decreases n,
{
    let s = nat_decimal(n);
    if n >= 10 {
        lemma_nat_decimal(n / 10);
        assert(s.drop_last() =~= nat_decimal(n / 10));
        assert(s.last() == digit_char(n % 10));
        assert(digit_value(digit_char(n % 10)) == n % 10);
        assert((n / 10) * 10 + n % 10 == n) by (nonlinear_arith);
        assert(digits_value(s) == digits_value(s.drop_last()) * 10 + digit_value(s.last()));
        assert(digits_value(s.drop_last()) == n / 10);
        assert forall|i: int| 0 <= i < s.len() implies #[trigger] is_digit(s[i]) by {
            if i < s.len() - 1 {
                assert(s[i] == nat_decimal(n / 10)[i]);
            }
        }
    } else {
        assert(s.drop_last() =~= Seq::<char>::empty());
        assert(digit_value(digit_char(n)) == n);
        assert(digits_value(s) == digits_value(s.drop_last()) * 10 + digit_value(s.last()));
        assert(digits_value(s.drop_last()) == 0);
    }
}

/// The decimal spelling of an `i32` reads back as that `i32`.
pub proof fn lemma_decimal_parses_back(n: i32)
    ensures
        parse_i32(i32_decimal(n)) == Some(n),
{
    let s = i32_decimal(n);
    if n < 0 {
        let m = (-n) as nat;
        lemma_nat_decimal(m);
        assert(s[0] == '-');
        assert(unsigned_part(s) =~= nat_decimal(m));
        assert(-(digits_value(unsigned_part(s)) as int) == n as int);
    } else {
        lemma_nat_decimal(n as nat);
        assert(is_digit(s[0]));
        assert(s[0] != '-' && s[0] != '+');
        assert(unsigned_part(s) == s);
        assert(digits_value(unsigned_part(s)) == n as int);
    }
}

/// Padding keeps the whole text in front, never cuts it, and only adds spaces:
/// the result is the text followed by spaces, as long as the text or the width,
/// whichever is more.
pub proof fn lemma_pad_right_keeps_text(s: Seq<char>, width: nat)
    ensures
        pad_right(s, width).take(s.len() as int) == s,
        pad_right(s, width).len() == if s.len() >= width {
            s.len()
        } else {
            width
        },
        forall|i: int| s.len() <= i < pad_right(s, width).len() ==> pad_right(s, width)[i] == ' ',
{
    let p = pad_right(s, width);
    assert(p.take(s.len() as int) =~= s);
}

/// The first line is the text before the first line feed: when `k` is the index
/// of the first line feed (or the length, when there is none), the first line is
/// the first `k` characters.
pub proof fn lemma_first_line_before_line_feed(t: Seq<char>, k: int)
    requires
        0 <= k <= t.len(),
        forall|j: int| 0 <= j < k ==> t[j] != '\n',
        k < t.len() ==> t[k] == '\n',
    ensures
        first_line(t) == t.take(k),
{
    lemma_first_index(t, '\n', k);
}

/// What leading white space `trim_start` drops: a run of white space, up to the
/// first character that is not.
proof fn lemma_trim_start_drops(s: Seq<char>) -> (a: int)
    ensures
        0 <= a <= s.len(),
        trim_start(s) == s.skip(a),
        forall|i: int| 0 <= i < a ==> is_white_space(s[i]),
        a < s.len() ==> !is_white_space(s[a]),
    decreases s.len(),
{
    if s.len() > 0 && is_white_space(s[0]) {
        let b = lemma_trim_start_drops(s.drop_first());
        assert(s.drop_first().skip(b) =~= s.skip(b + 1));
        assert forall|i: int| 0 <= i < b + 1 implies is_white_space(s[i]) by {
            if i > 0 {
                assert(s[i] == s.drop_first()[i - 1]);
            }
        }
        if b + 1 < s.len() {
            assert(s[b + 1] == s.drop_first()[b]);
        }
        b + 1
    } else {
        assert(s.skip(0) =~= s);
        0
    }
}

/// What trailing white space `trim_end` drops: a run of white space, back to the
/// last character that is not.
proof fn lemma_trim_end_drops(s: Seq<char>) -> (b: int)
    ensures
        0 <= b <= s.len(),
        trim_end(s) == s.take(b),
        forall|i: int| b <= i < s.len() ==> is_white_space(s[i]),
        b > 0 ==> !is_white_space(s[b - 1]),
    decreases s.len(),
{
    if s.len() > 0 && is_white_space(s.last()) {
        let c = lemma_trim_end_drops(s.drop_last());
        assert(s.drop_last().take(c) =~= s.take(c));
        assert forall|i: int| c <= i < s.len() implies is_white_space(s[i]) by {
            if i < s.len() - 1 {
                assert(s[i] == s.drop_last()[i]);
            }
        }
        if c > 0 {
            assert(s[c - 1] == s.drop_last()[c - 1]);
        }
        c
    } else {
        assert(s.take(s.len() as int) =~= s);
        s.len() as int
    }
}

/// Trimming keeps a contiguous part of the text and drops only white space
/// around it: the trimmed text is `s[a..b]`, everything before `a` and from `b`
/// on is white space, and the trimmed text neither starts nor ends with white
/// space.
pub proof fn lemma_trim_drops_only_surrounding_white_space(s: Seq<char>)
    ensures
        exists|a: int, b: int|
            0 <= a <= b <= s.len() && trim(s) == s.subrange(a, b) && (forall|i: int|
                0 <= i < a ==> is_white_space(#[trigger] s[i])) && (forall|i: int|
                b <= i < s.len() ==> is_white_space(#[trigger] s[i])),
        trim(s).len() > 0 ==> !is_white_space(trim(s)[0]) && !is_white_space(trim(s).last()),
{
    let a = lemma_trim_start_drops(s);
    let t = s.skip(a);
    let c = lemma_trim_end_drops(t);
    let b = a + c;
    assert(t.take(c) =~= s.subrange(a, b));
    assert forall|i: int| b <= i < s.len() implies is_white_space(#[trigger] s[i]) by {
        assert(s[i] == t[i - a]);
    }
    assert(trim(s) == s.subrange(a, b));
    if trim(s).len() > 0 {
        assert(trim(s)[0] == s[a]);
        assert(trim(s).last() == t[c - 1]);
    }
}

/// Removing a pattern that does not occur leaves the text as it is.
pub proof fn lemma_remove_absent(hay: Seq<char>, pat: Seq<char>)
    requires
        !contains_seq(hay, pat),
    ensures
        remove_all(hay, pat) == hay,
    decreases hay.len(),
{
    if pat.len() > 0 && hay.len() >= pat.len() {
        assert(!occurs_at(hay, pat, 0));
        assert(hay.subrange(0, pat.len() as int) =~= hay.take(pat.len() as int));
        let t = hay.skip(1);
        assert forall|i: int| !occurs_at(t, pat, i) by {
            if occurs_at(t, pat, i) {
                assert(t.subrange(i, i + pat.len()) =~= hay.subrange(i + 1, i + 1 + pat.len()));
                assert(occurs_at(hay, pat, i + 1));
            }
        }
        lemma_remove_absent(t, pat);
        assert(seq![hay[0]] + t =~= hay);
    }
}

/// Removing a pattern only deletes whole copies of it: the text shrinks by
/// `k` times the pattern's length, where `k` is how many copies went.
pub proof fn lemma_remove_deletes_whole_copies(hay: Seq<char>, pat: Seq<char>) -> (k: nat)
    ensures
        hay.len() == remove_all(hay, pat).len() + k * pat.len(),
    decreases hay.len(),
{
    if pat.len() == 0 || hay.len() < pat.len() {
        0
    } else if hay.take(pat.len() as int) == pat {
        let t = hay.skip(pat.len() as int);
        let k = lemma_remove_deletes_whole_copies(t, pat);
        assert(hay.len() == remove_all(hay, pat).len() + (k + 1) * pat.len()) by (nonlinear_arith)
            requires
                t.len() == remove_all(t, pat).len() + k * pat.len(),
                hay.len() == t.len() + pat.len(),
                remove_all(hay, pat) == remove_all(t, pat),
        ;
        k + 1
    } else {
        let t = hay.skip(1);
        let k = lemma_remove_deletes_whole_copies(t, pat);
        k
    }
}

/// A sign in front of digits: `+` reads as the digits do, `-` reads as their
/// negation (when that fits an `i32`).
pub proof fn lemma_parse_sign(digits: Seq<char>)
    requires
        digits.len() > 0,
        all_digits(digits),
    ensures
        parse_i32(seq!['+'] + digits) == parse_i32(digits),
        digits_value(digits) <= 0x8000_0000 ==> parse_i32(seq!['-'] + digits) == Some(
            (-(digits_value(digits) as int)) as i32,
        ),
        digits_value(digits) > 0x8000_0000 ==> parse_i32(seq!['-'] + digits) is None,
{
    assert(unsigned_part(seq!['+'] + digits) =~= digits);
    assert(unsigned_part(seq!['-'] + digits) =~= digits);
    assert(is_digit(digits[0]));
    assert(unsigned_part(digits) == digits);
}

} // verus!
