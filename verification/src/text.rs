//! Text as the store sees it: UTF-8 bytes compared one by one.
//!
//! Stored timestamps and ids are text columns. Two of them compare the way
//! their bytes do, which for timestamps of one fixed shape is also the order
//! of the instants they denote.

use vstd::prelude::*;
use vstd::string::*;
use vstd::utf8::*;

verus! {

/// `a <= b` from position `i` on, the bytes before `i` being equal.
pub open spec fn bytes_le_from(a: Seq<u8>, b: Seq<u8>, i: int) -> bool
    decreases a.len() - i,
{
    if i < 0 {
        false
    } else if i >= a.len() {
        true
    } else if i >= b.len() {
        false
    } else if a[i] != b[i] {
        a[i] < b[i]
    } else {
        bytes_le_from(a, b, i + 1)
    }
}

/// Lexicographic `a <= b` on bytes: a proper prefix sorts first.
pub open spec fn bytes_le(a: Seq<u8>, b: Seq<u8>) -> bool {
    bytes_le_from(a, b, 0)
}

/// `a <= b` in the order of a binary text column.
pub open spec fn text_le(a: Seq<char>, b: Seq<char>) -> bool {
    bytes_le(encode_utf8(a), encode_utf8(b))
}

/// `a < b` in the order of a binary text column.
pub open spec fn text_lt(a: Seq<char>, b: Seq<char>) -> bool {
    text_le(a, b) && a != b
}

/// The two sequences agree on every position below `i`.
pub open spec fn same_prefix(a: Seq<u8>, b: Seq<u8>, i: int) -> bool {
    &&& 0 <= i <= a.len()
    &&& i <= b.len()
    &&& forall|k: int| 0 <= k < i ==> a[k] == b[k]
}

proof fn lemma_le_from_total(a: Seq<u8>, b: Seq<u8>, i: int)
    requires
        same_prefix(a, b, i),
    ensures
        bytes_le_from(a, b, i) || bytes_le_from(b, a, i),
    decreases a.len() - i,
{
    if i < a.len() && i < b.len() && a[i] == b[i] {
        lemma_le_from_total(a, b, i + 1);
    }
}

proof fn lemma_le_from_antisym(a: Seq<u8>, b: Seq<u8>, i: int)
    requires
        same_prefix(a, b, i),
        bytes_le_from(a, b, i),
        bytes_le_from(b, a, i),
    ensures
        a == b,
    decreases a.len() - i,
{
    if i < a.len() && i < b.len() {
        lemma_le_from_antisym(a, b, i + 1);
    } else {
        assert(a =~= b);
    }
}

proof fn lemma_le_from_trans(a: Seq<u8>, b: Seq<u8>, c: Seq<u8>, i: int)
    requires
        same_prefix(a, b, i),
        same_prefix(b, c, i),
        bytes_le_from(a, b, i),
        bytes_le_from(b, c, i),
    ensures
        bytes_le_from(a, c, i),
    decreases a.len() - i,
{
    if i < a.len() && i < b.len() && i < c.len() && a[i] == b[i] && b[i] == c[i] {
        lemma_le_from_trans(a, b, c, i + 1);
    }
}

/// Text is determined by its bytes.
pub proof fn lemma_text_by_bytes(a: Seq<char>, b: Seq<char>)
    ensures
        encode_utf8(a) == encode_utf8(b) <==> a == b,
{
    encode_utf8_decode_utf8(a);
    encode_utf8_decode_utf8(b);
}

/// Any two texts compare one way or the other.
pub proof fn lemma_text_le_total(a: Seq<char>, b: Seq<char>)
    ensures
        text_le(a, b) || text_le(b, a),
{
    lemma_le_from_total(encode_utf8(a), encode_utf8(b), 0);
}

/// Texts that are at most each other are the same text.
pub proof fn lemma_text_le_antisym(a: Seq<char>, b: Seq<char>)
    requires
        text_le(a, b),
        text_le(b, a),
    ensures
        a == b,
{
    lemma_le_from_antisym(encode_utf8(a), encode_utf8(b), 0);
    lemma_text_by_bytes(a, b);
}

/// The order is transitive.
pub proof fn lemma_text_le_trans(a: Seq<char>, b: Seq<char>, c: Seq<char>)
    requires
        text_le(a, b),
        text_le(b, c),
    ensures
        text_le(a, c),
{
    lemma_le_from_trans(encode_utf8(a), encode_utf8(b), encode_utf8(c), 0);
}

/// Whether `a <= b` as a binary text column orders them.
pub fn str_le(a: &str, b: &str) -> (r: bool)
    ensures
        r == text_le(a@, b@),
{
    let x = a.as_bytes();
    let y = b.as_bytes();
    let mut i: usize = 0;
    while i < x.len() && i < y.len() && x[i] == y[i]
        invariant
            same_prefix(x@, y@, i as int),
            bytes_le(x@, y@) == bytes_le_from(x@, y@, i as int),
        decreases x.len() - i,
    {
        i = i + 1;
    }
    if i >= x.len() {
        true
    } else if i >= y.len() {
        false
    } else {
        x[i] < y[i]
    }
}

/// Whether the two texts are the same.
pub fn str_eq(a: &str, b: &str) -> (r: bool)
    ensures
        r == (a@ == b@),
{
    let x = a.as_bytes();
    let y = b.as_bytes();
    proof {
        lemma_text_by_bytes(a@, b@);
    }
    if x.len() != y.len() {
        return false;
    }
    let mut i: usize = 0;
    while i < x.len()
        invariant
            x@.len() == y@.len(),
            same_prefix(x@, y@, i as int),
            (x@ == y@) <==> (a@ == b@),
        decreases x.len() - i,
    {
        if x[i] != y[i] {
            return false;
        }
        i = i + 1;
    }
    assert(x@ =~= y@);
    true
}

/// Whether `a < b` as a binary text column orders them.
pub fn str_lt(a: &str, b: &str) -> (r: bool)
    ensures
        r == text_lt(a@, b@),
{
    str_le(a, b) && !str_eq(a, b)
}

/// A fresh copy of a text.
pub fn copy_text(s: &str) -> (r: String)
    ensures
        r@ == s@,
{
    String::from_str(s)
}

/// A fresh copy of a text that may be absent.
pub fn copy_opt_text(s: &Option<String>) -> (r: Option<String>)
    ensures
        r.deep_view() == s.deep_view(),
{
    match s {
        Some(t) => Some(copy_text(t.as_str())),
        None => None,
    }
}

/// `prefix` followed by `rest`.
pub fn join_text(prefix: &str, rest: &str) -> (r: String)
    ensures
        r@ == prefix@ + rest@,
{
    String::from_str(prefix).concat(rest)
}

/// The character that writes the digit `d`.
pub open spec fn digit_char(d: int) -> char {
    if d == 0 {
        '0'
    } else if d == 1 {
        '1'
    } else if d == 2 {
        '2'
    } else if d == 3 {
        '3'
    } else if d == 4 {
        '4'
    } else if d == 5 {
        '5'
    } else if d == 6 {
        '6'
    } else if d == 7 {
        '7'
    } else if d == 8 {
        '8'
    } else {
        '9'
    }
}

/// The digit that `c` writes, if it writes one.
pub open spec fn digit_value(c: char) -> Option<int> {
    if c == '0' {
        Some(0)
    } else if c == '1' {
        Some(1)
    } else if c == '2' {
        Some(2)
    } else if c == '3' {
        Some(3)
    } else if c == '4' {
        Some(4)
    } else if c == '5' {
        Some(5)
    } else if c == '6' {
        Some(6)
    } else if c == '7' {
        Some(7)
    } else if c == '8' {
        Some(8)
    } else if c == '9' {
        Some(9)
    } else {
        None
    }
}

/// A number in decimal, without sign or leading zeros.
pub open spec fn decimal_text(n: nat) -> Seq<char>
    decreases n,
{
    if n < 10 {
        seq![digit_char(n as int)]
    } else {
        decimal_text(n / 10).push(digit_char((n % 10) as int))
    }
}

fn digit_str(d: u64) -> (r: &'static str)
    requires
        d < 10,
    ensures
        r@ == seq![digit_char(d as int)],
{
    proof {
        reveal_strlit("0");
        reveal_strlit("1");
        reveal_strlit("2");
        reveal_strlit("3");
        reveal_strlit("4");
        reveal_strlit("5");
        reveal_strlit("6");
        reveal_strlit("7");
        reveal_strlit("8");
        reveal_strlit("9");
    }
    let r = if d == 0 {
        "0"
    } else if d == 1 {
        "1"
    } else if d == 2 {
        "2"
    } else if d == 3 {
        "3"
    } else if d == 4 {
        "4"
    } else if d == 5 {
        "5"
    } else if d == 6 {
        "6"
    } else if d == 7 {
        "7"
    } else if d == 8 {
        "8"
    } else {
        "9"
    };
    assert(r@ =~= seq![digit_char(d as int)]);
    r
}

/// Writes a number in decimal.
pub fn decimal_string(n: u64) -> (r: String)
    ensures
        r@ == decimal_text(n as nat),
    decreases n,
{
    if n < 10 {
        String::from_str(digit_str(n))
    } else {
        let head = decimal_string(n / 10);
        let r = head.concat(digit_str(n % 10));
        assert(r@ =~= decimal_text(n as nat));
        r
    }
}

/// The digits `s[0..n]` read as a decimal number; a character that is no
/// digit counts as zero.
pub open spec fn digits_value(s: Seq<char>, n: int) -> nat
    decreases n,
{
    if n <= 0 {
        0
    } else {
        let d = match digit_value(s[n - 1]) {
            Some(d) => d,
            None => 0,
        };
        (digits_value(s, n - 1) * 10 + d) as nat
    }
}

/// The text without the `+` that may lead it.
pub open spec fn unsigned_digits(text: Seq<char>) -> Seq<char> {
    if text.len() > 0 && text[0] == '+' {
        text.subrange(1, text.len() as int)
    } else {
        text
    }
}

/// What a text says as an unsigned number of at most `max`, read the way
/// Rust's integer types read a string: an optional `+`, then one or more
/// decimal digits and nothing else.
pub open spec fn unsigned_of_text(text: Seq<char>, max: nat) -> Option<nat> {
    let digits = unsigned_digits(text);
    if digits.len() > 0 && (forall|i: int|
        0 <= i < digits.len() ==> digit_value(#[trigger] digits[i]) is Some) && digits_value(
        digits,
        digits.len() as int,
    ) <= max {
        Some(digits_value(digits, digits.len() as int))
    } else {
        None
    }
}

proof fn lemma_digits_value_grows(s: Seq<char>, m: int, n: int)
    requires
        0 <= m <= n <= s.len(),
    ensures
        digits_value(s, m) <= digits_value(s, n),
    decreases n - m,
{
    if m < n {
        lemma_digits_value_grows(s, m + 1, n);
        assert(digits_value(s, m) <= digits_value(s, m + 1)) by (nonlinear_arith)
            requires
                digits_value(s, m + 1) >= digits_value(s, m) * 10,
        ;
    }
}

fn digit_of(c: char) -> (r: Option<u64>)
    ensures
        match r {
            Some(d) => digit_value(c) == Some(d as int) && d < 10,
            None => digit_value(c) is None,
        },
{
    if c == '0' {
        Some(0)
    } else if c == '1' {
        Some(1)
    } else if c == '2' {
        Some(2)
    } else if c == '3' {
        Some(3)
    } else if c == '4' {
        Some(4)
    } else if c == '5' {
        Some(5)
    } else if c == '6' {
        Some(6)
    } else if c == '7' {
        Some(7)
    } else if c == '8' {
        Some(8)
    } else if c == '9' {
        Some(9)
    } else {
        None
    }
}

/// Reads an unsigned number of at most `max`.
pub fn parse_unsigned(text: &str, max: u64) -> (r: Option<u64>)
    ensures
        match r {
            Some(n) => unsigned_of_text(text@, max as nat) == Some(n as nat),
            None => unsigned_of_text(text@, max as nat) is None,
        },
{
    let len = text.unicode_len();
    let start: usize = if len > 0 && text.get_char(0) == '+' {
        1
    } else {
        0
    };
    let ghost digits = text@.subrange(start as int, len as int);
    assert(digits =~= unsigned_digits(text@));
    if start >= len {
        return None;
    }
    let mut value: u64 = 0;
    let mut i: usize = start;
    while i < len
        invariant
            start <= i <= len,
            start < len,
            len == text@.len(),
            start == (if text@.len() > 0 && text@[0] == '+' {
                1int
            } else {
                0int
            }),
            digits == text@.subrange(start as int, len as int),
            digits == unsigned_digits(text@),
            forall|k: int| 0 <= k < i - start ==> digit_value(#[trigger] digits[k]) is Some,
            value == digits_value(digits, i - start),
            value <= max,
        decreases len - i,
    {
        let c = text.get_char(i);
        assert(digits[i - start] == c);
        match digit_of(c) {
            None => {
                return None;
            },
            Some(d) => {
                proof {
                    lemma_digits_value_grows(digits, i - start + 1, digits.len() as int);
                    assert(digits_value(digits, i - start + 1) == value * 10 + d);
                }
                if d > max || value > (max - d) / 10 {
                    return None;
                }
                value = value * 10 + d;
            },
        }
        i = i + 1;
    }
    assert(i - start == digits.len());
    Some(value)
}

/// White space as Unicode defines it, which is what Rust trims.
pub open spec fn is_whitespace(c: char) -> bool {
    let n = c as u32;
    ||| 0x09 <= n <= 0x0d
    ||| n == 0x20
    ||| n == 0x85
    ||| n == 0xa0
    ||| n == 0x1680
    ||| 0x2000 <= n <= 0x200a
    ||| n == 0x2028
    ||| n == 0x2029
    ||| n == 0x202f
    ||| n == 0x205f
    ||| n == 0x3000
}

/// Whether a character is white space.
pub fn char_is_whitespace(c: char) -> (r: bool)
    ensures
        r == is_whitespace(c),
{
    let n = c as u32;
    (0x09 <= n && n <= 0x0d) || n == 0x20 || n == 0x85 || n == 0xa0 || n == 0x1680 || (0x2000 <= n
        && n <= 0x200a) || n == 0x2028 || n == 0x2029 || n == 0x202f || n == 0x205f || n == 0x3000
}

/// The first position at or after `i` that holds no white space.
pub open spec fn skip_whitespace(s: Seq<char>, i: int) -> int
    decreases s.len() - i,
{
    if 0 <= i < s.len() && is_whitespace(s[i]) {
        skip_whitespace(s, i + 1)
    } else {
        i
    }
}

/// The end of the text before position `j` once white space at its end is
/// dropped, but not below `floor`.
pub open spec fn drop_whitespace(s: Seq<char>, j: int, floor: int) -> int
    decreases j,
{
    if 0 <= floor < j <= s.len() && is_whitespace(s[j - 1]) {
        drop_whitespace(s, j - 1, floor)
    } else {
        j
    }
}

/// The text without the white space that leads it.
pub open spec fn trimmed_start(s: Seq<char>) -> Seq<char> {
    s.subrange(skip_whitespace(s, 0), s.len() as int)
}

/// The text without the white space at either end.
pub open spec fn trimmed(s: Seq<char>) -> Seq<char> {
    let from = skip_whitespace(s, 0);
    s.subrange(from, drop_whitespace(s, s.len() as int, from))
}

/// The text is empty or all white space.
pub open spec fn is_blank(s: Seq<char>) -> bool {
    trimmed(s).len() == 0
}

proof fn lemma_skip_whitespace(s: Seq<char>, i: int)
    requires
        0 <= i <= s.len(),
    ensures
        i <= skip_whitespace(s, i) <= s.len(),
    decreases s.len() - i,
{
    if i < s.len() && is_whitespace(s[i]) {
        lemma_skip_whitespace(s, i + 1);
    }
}

proof fn lemma_drop_whitespace(s: Seq<char>, j: int, floor: int)
    requires
        0 <= floor <= j <= s.len(),
    ensures
        floor <= drop_whitespace(s, j, floor) <= j,
    decreases j,
{
    if floor < j && is_whitespace(s[j - 1]) {
        lemma_drop_whitespace(s, j - 1, floor);
    }
}

fn skip_whitespace_in(s: &str, len: usize) -> (r: usize)
    requires
        len == s@.len(),
    ensures
        r == skip_whitespace(s@, 0),
        r <= len,
{
    let mut i: usize = 0;
    proof {
        lemma_skip_whitespace(s@, 0);
    }
    while i < len && char_is_whitespace(s.get_char(i))
        invariant
            i <= len,
            len == s@.len(),
            skip_whitespace(s@, 0) == skip_whitespace(s@, i as int),
        decreases len - i,
    {
        i = i + 1;
    }
    i
}

/// The text without the white space that leads it.
pub fn trim_start(s: &str) -> (r: &str)
    ensures
        r@ == trimmed_start(s@),
{
    let len = s.unicode_len();
    let from = skip_whitespace_in(s, len);
    s.substring_char(from, len)
}

/// The text without the white space at either end.
pub fn trim(s: &str) -> (r: &str)
    ensures
        r@ == trimmed(s@),
{
    let len = s.unicode_len();
    let from = skip_whitespace_in(s, len);
    let mut to: usize = len;
    proof {
        lemma_drop_whitespace(s@, len as int, from as int);
    }
    while to > from && char_is_whitespace(s.get_char(to - 1))
        invariant
            from <= to <= len,
            len == s@.len(),
            drop_whitespace(s@, len as int, from as int) == drop_whitespace(
                s@,
                to as int,
                from as int,
            ),
        decreases to,
    {
        to = to - 1;
    }
    s.substring_char(from, to)
}

/// A character with an upper-case letter of ASCII turned to lower case.
pub open spec fn ascii_lower(c: char) -> u32 {
    let n = c as u32;
    if 0x41 <= n <= 0x5a {
        (n + 0x20) as u32
    } else {
        n
    }
}

/// The two texts are the same but for the case of their ASCII letters.
pub open spec fn same_ignoring_ascii_case(a: Seq<char>, b: Seq<char>) -> bool {
    &&& a.len() == b.len()
    &&& forall|i: int| 0 <= i < a.len() ==> ascii_lower(#[trigger] a[i]) == ascii_lower(b[i])
}

fn lower(c: char) -> (r: u32)
    ensures
        r == ascii_lower(c),
{
    let n = c as u32;
    if 0x41 <= n && n <= 0x5a {
        n + 0x20
    } else {
        n
    }
}

/// Whether the first `n` characters of `s` are `prefix` but for the case of
/// ASCII letters, `n` being the length of `prefix`.
pub fn starts_with_ignoring_ascii_case(s: &str, prefix: &str) -> (r: bool)
    ensures
        r == (s@.len() >= prefix@.len() && same_ignoring_ascii_case(
            s@.subrange(0, prefix@.len() as int),
            prefix@,
        )),
{
    let n = prefix.unicode_len();
    if s.unicode_len() < n {
        return false;
    }
    let ghost head = s@.subrange(0, n as int);
    let mut i: usize = 0;
    while i < n
        invariant
            i <= n,
            n == prefix@.len(),
            n <= s@.len(),
            head == s@.subrange(0, n as int),
            forall|k: int| 0 <= k < i ==> ascii_lower(#[trigger] head[k]) == ascii_lower(prefix@[k]),
        decreases n - i,
    {
        assert(head[i as int] == s@[i as int]);
        if lower(s.get_char(i)) != lower(prefix.get_char(i)) {
            return false;
        }
        i = i + 1;
    }
    true
}

} // verus!
