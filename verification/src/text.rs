use vstd::prelude::*;

verus! {

broadcast use vstd::string::group_string_axioms;

// ---------------------------------------------------------------------------
// Character classes
// ---------------------------------------------------------------------------

/// Unicode general category `Cc`: C0 controls, DEL and C1 controls.
pub open spec fn is_control(c: char) -> bool {
    (c as u32) <= 0x1f || (0x7f <= (c as u32) && (c as u32) <= 0x9f)
}

/// Unicode `White_Space` property.
pub open spec fn is_whitespace(c: char) -> bool {
    let u = c as u32;
    ||| 0x09 <= u <= 0x0d
    ||| u == 0x20
    ||| u == 0x85
    ||| u == 0xa0
    ||| u == 0x1680
    ||| 0x2000 <= u <= 0x200a
    ||| u == 0x2028
    ||| u == 0x2029
    ||| u == 0x202f
    ||| u == 0x205f
    ||| u == 0x3000
}

pub open spec fn is_ascii_digit(b: u8) -> bool {
    0x30 <= b <= 0x39
}

pub open spec fn is_ascii_alpha(b: u8) -> bool {
    (0x41 <= b <= 0x5a) || (0x61 <= b <= 0x7a)
}

pub open spec fn is_ascii_alphanumeric(b: u8) -> bool {
    is_ascii_digit(b) || is_ascii_alpha(b)
}

pub open spec fn is_ascii_hexdigit(b: u8) -> bool {
    is_ascii_digit(b) || (0x41 <= b <= 0x46) || (0x61 <= b <= 0x66)
}

pub fn char_is_control(c: char) -> (b: bool)
    ensures
        b == is_control(c),
{
    let u = c as u32;
    u <= 0x1f || (0x7f <= u && u <= 0x9f)
}

pub fn char_is_whitespace(c: char) -> (b: bool)
    ensures
        b == is_whitespace(c),
{
    let u = c as u32;
    (0x09 <= u && u <= 0x0d) || u == 0x20 || u == 0x85 || u == 0xa0 || u == 0x1680 || (0x2000
        <= u && u <= 0x200a) || u == 0x2028 || u == 0x2029 || u == 0x202f || u == 0x205f || u
        == 0x3000
}

pub fn byte_is_ascii_alphanumeric(b: u8) -> (r: bool)
    ensures
        r == is_ascii_alphanumeric(b),
{
    (0x30 <= b && b <= 0x39) || (0x41 <= b && b <= 0x5a) || (0x61 <= b && b <= 0x7a)
}

pub fn byte_is_ascii_hexdigit(b: u8) -> (r: bool)
    ensures
        r == is_ascii_hexdigit(b),
{
    (0x30 <= b && b <= 0x39) || (0x41 <= b && b <= 0x46) || (0x61 <= b && b <= 0x66)
}

// ---------------------------------------------------------------------------
// Conversions between strings and character vectors
// ---------------------------------------------------------------------------

/// The characters of `s`, in order.
pub fn chars_of(s: &str) -> (v: Vec<char>)
    ensures
        v@ == s@,
{
    let mut v: Vec<char> = Vec::new();
    for c in it: s.chars()
        invariant
            it.seq() == s@,
            v@ == it.seq().take(it.index() as int),
    {
        v.push(c);
    }
    v
}

/// `String::from_iter` over the characters of `v`.
#[verifier::external_body]
pub(crate) fn string_from_chars(v: &Vec<char>) -> (s: String)
    ensures
        s@ == v@,
{
    v.iter().collect()
}

/// `String::from_utf8`: the text whose UTF-8 encoding is `bytes`, or nothing
/// when they are not valid UTF-8 (as the std documentation states).
#[verifier::external_body]
pub(crate) fn utf8_text(bytes: Vec<u8>) -> (r: Option<String>)
    ensures
        r is Some <==> vstd::utf8::valid_utf8(bytes@),
        r matches Some(s) ==> vstd::utf8::encode_utf8(s@) == bytes@,
{
    String::from_utf8(bytes).ok()
}

/// `a` followed by `b`.
pub fn concat(a: &str, b: &str) -> (r: String)
    ensures
        r@ == a@ + b@,
{
    let mut out = chars_of(a);
    let w = chars_of(b);
    let ghost head = out@;
    let mut i: usize = 0;
    while i < w.len()
        invariant
            i <= w.len(),
            out@ == head + w@.take(i as int),
        decreases w.len() - i,
    {
        out.push(w[i]);
        assert(w@.take(i + 1) =~= w@.take(i as int).push(w@[i as int]));
        i = i + 1;
    }
    assert(w@.take(w@.len() as int) =~= w@);
    string_from_chars(&out)
}

/// Appends the characters of `s`.
pub fn push_str(out: &mut Vec<char>, s: &str)
    ensures
        final(out)@ == old(out)@ + s@,
{
    let v = chars_of(s);
    let ghost head = out@;
    let mut i: usize = 0;
    while i < v.len()
        invariant
            i <= v.len(),
            v@ == s@,
            out@ == head + v@.take(i as int),
        decreases v.len() - i,
    {
        out.push(v[i]);
        assert(v@.take(i + 1) =~= v@.take(i as int).push(v@[i as int]));
        i = i + 1;
    }
    assert(v@.take(v@.len() as int) =~= v@);
}

pub fn str_eq(a: &str, b: &str) -> (r: bool)
    ensures
        r == (a@ == b@),
{
    let x = chars_of(a);
    let y = chars_of(b);
    chars_eq(&x, &y)
}

pub fn chars_eq(x: &Vec<char>, y: &Vec<char>) -> (r: bool)
    ensures
        r == (x@ == y@),
{
    if x.len() != y.len() {
        return false;
    }
    let mut i: usize = 0;
    while i < x.len()
        invariant
            x.len() == y.len(),
            i <= x.len(),
            forall|k: int| 0 <= k < i ==> x@[k] == y@[k],
        decreases x.len() - i,
    {
        if x[i] != y[i] {
            return false;
        }
        i = i + 1;
    }
    assert(x@ =~= y@);
    true
}

// ---------------------------------------------------------------------------
// Predicates over character sequences
// ---------------------------------------------------------------------------

pub open spec fn has_control(s: Seq<char>) -> bool {
    exists|i: int| 0 <= i < s.len() && is_control(#[trigger] s[i])
}

pub open spec fn is_blank(s: Seq<char>) -> bool {
    forall|i: int| 0 <= i < s.len() ==> is_whitespace(#[trigger] s[i])
}

pub open spec fn has_char(s: Seq<char>, c: char) -> bool {
    exists|i: int| 0 <= i < s.len() && s[i] == c
}

pub fn chars_have_control(s: &Vec<char>) -> (r: bool)
    ensures
        r == has_control(s@),
{
    let mut i: usize = 0;
    while i < s.len()
        invariant
            i <= s.len(),
            forall|k: int| 0 <= k < i ==> !is_control(#[trigger] s@[k]),
        decreases s.len() - i,
    {
        if char_is_control(s[i]) {
            return true;
        }
        i = i + 1;
    }
    false
}

pub fn str_has_control(s: &str) -> (r: bool)
    ensures
        r == has_control(s@),
{
    let v = chars_of(s);
    chars_have_control(&v)
}

pub fn chars_are_blank(s: &Vec<char>) -> (r: bool)
    ensures
        r == is_blank(s@),
{
    let mut i: usize = 0;
    while i < s.len()
        invariant
            i <= s.len(),
            forall|k: int| 0 <= k < i ==> is_whitespace(#[trigger] s@[k]),
        decreases s.len() - i,
    {
        if !char_is_whitespace(s[i]) {
            return false;
        }
        i = i + 1;
    }
    true
}

/// `s.trim().is_empty()`.
pub fn str_is_blank(s: &str) -> (r: bool)
    ensures
        r == is_blank(s@),
{
    let v = chars_of(s);
    chars_are_blank(&v)
}

pub fn str_has_char(s: &str, c: char) -> (r: bool)
    ensures
        r == has_char(s@, c),
{
    let v = chars_of(s);
    let mut i: usize = 0;
    while i < v.len()
        invariant
            v@ == s@,
            i <= v.len(),
            forall|k: int| 0 <= k < i ==> v@[k] != c,
        decreases v.len() - i,
    {
        if v[i] == c {
            return true;
        }
        i = i + 1;
    }
    false
}


// ---------------------------------------------------------------------------
// Trimming, case mapping, searching
// ---------------------------------------------------------------------------

pub open spec fn trim_start(s: Seq<char>) -> Seq<char>
    decreases s.len(),
{
    if s.len() > 0 && is_whitespace(s[0]) {
        trim_start(s.drop_first())
    } else {
        s
    }
}

pub open spec fn trim_end(s: Seq<char>) -> Seq<char>
    decreases s.len(),
{
    if s.len() > 0 && is_whitespace(s.last()) {
        trim_end(s.drop_last())
    } else {
        s
    }
}

/// `str::trim`: leading and trailing white space removed.
pub open spec fn trim(s: Seq<char>) -> Seq<char> {
    trim_end(trim_start(s))
}

pub fn trim_chars(v: &Vec<char>) -> (r: Vec<char>)
    ensures
        r@ == trim(v@),
{
    let mut i: usize = 0;
    assert(v@.skip(0) =~= v@);
    while i < v.len() && char_is_whitespace(v[i])
        invariant
            i <= v.len(),
            trim_start(v@) == trim_start(v@.skip(i as int)),
        decreases v.len() - i,
    {
        assert(v@.skip(i as int).drop_first() =~= v@.skip(i + 1));
        i = i + 1;
    }
    let mut j: usize = v.len();
    while j > i && char_is_whitespace(v[j - 1])
        invariant
            i <= j <= v.len(),
            trim_start(v@) == v@.skip(i as int),
            trim(v@) == trim_end(v@.subrange(i as int, j as int)),
        decreases j,
    {
        assert(v@.subrange(i as int, j as int).drop_last() =~= v@.subrange(i as int, j - 1));
        j = j - 1;
    }
    let mut r: Vec<char> = Vec::new();
    let mut k: usize = i;
    while k < j
        invariant
            i <= k <= j <= v.len(),
            r@ == v@.subrange(i as int, k as int),
        decreases j - k,
    {
        r.push(v[k]);
        k = k + 1;
    }
    r
}

pub open spec fn ascii_lower(c: char) -> char {
    if 'A' <= c && c <= 'Z' {
        ((c as u32) + 32) as char
    } else {
        c
    }
}

pub open spec fn ascii_lowercase(s: Seq<char>) -> Seq<char> {
    s.map_values(|c: char| ascii_lower(c))
}

pub fn char_to_ascii_lower(c: char) -> (r: char)
    ensures
        r == ascii_lower(c),
{
    if 'A' <= c && c <= 'Z' {
        let b: u8 = c as u8;
        assert(b == c as u32);
        let l: u8 = b + 32;
        let r = l as char;
        assert(r == ((c as u32) + 32) as char);
        r
    } else {
        c
    }
}

pub fn chars_to_ascii_lower(v: &Vec<char>) -> (r: Vec<char>)
    ensures
        r@ == ascii_lowercase(v@),
{
    let mut r: Vec<char> = Vec::new();
    let mut i: usize = 0;
    while i < v.len()
        invariant
            i <= v.len(),
            r@ == ascii_lowercase(v@.take(i as int)),
        decreases v.len() - i,
    {
        r.push(char_to_ascii_lower(v[i]));
        assert(ascii_lowercase(v@.take(i + 1)) =~= ascii_lowercase(v@.take(i as int)).push(
            ascii_lower(v@[i as int]),
        ));
        i = i + 1;
    }
    assert(v@.take(v.len() as int) =~= v@);
    r
}

pub open spec fn starts_with(s: Seq<char>, p: Seq<char>) -> bool {
    p.len() <= s.len() && s.take(p.len() as int) == p
}

pub open spec fn ends_with(s: Seq<char>, p: Seq<char>) -> bool {
    p.len() <= s.len() && s.skip(s.len() - p.len()) == p
}

pub open spec fn occurs_at(s: Seq<char>, p: Seq<char>, i: int) -> bool {
    0 <= i && i + p.len() <= s.len() && s.subrange(i, i + p.len()) == p
}

pub open spec fn contains(s: Seq<char>, p: Seq<char>) -> bool {
    exists|i: int| occurs_at(s, p, i)
}

pub fn chars_occur_at(s: &Vec<char>, p: &Vec<char>, i: usize) -> (r: bool)
    ensures
        r == occurs_at(s@, p@, i as int),
{
    if i > s.len() || p.len() > s.len() - i {
        return false;
    }
    let mut k: usize = 0;
    while k < p.len()
        invariant
            i + p.len() <= s.len(),
            k <= p.len(),
            forall|m: int| 0 <= m < k ==> s@[i + m] == p@[m],
        decreases p.len() - k,
    {
        if s[i + k] != p[k] {
            assert(s@.subrange(i as int, i + p.len())[k as int] != p@[k as int]);
            return false;
        }
        k = k + 1;
    }
    assert(s@.subrange(i as int, i + p.len()) =~= p@);
    true
}

pub fn chars_starts_with(s: &Vec<char>, p: &Vec<char>) -> (r: bool)
    ensures
        r == starts_with(s@, p@),
{
    let r = chars_occur_at(s, p, 0);
    proof {
        if p@.len() <= s@.len() {
            assert(s@.take(p@.len() as int) =~= s@.subrange(0, p@.len() as int));
        }
    }
    r
}

pub fn chars_ends_with(s: &Vec<char>, p: &Vec<char>) -> (r: bool)
    ensures
        r == ends_with(s@, p@),
{
    if p.len() > s.len() {
        return false;
    }
    let r = chars_occur_at(s, p, s.len() - p.len());
    proof {
        assert(s@.skip(s@.len() - p@.len()) =~= s@.subrange(
            s@.len() - p@.len(),
            s@.len() as int,
        ));
    }
    r
}

pub fn chars_contains(s: &Vec<char>, p: &Vec<char>) -> (r: bool)
    ensures
        r == contains(s@, p@),
{
    if p.len() > s.len() {
        assert forall|i: int| !occurs_at(s@, p@, i) by {}
        return false;
    }
    let last = s.len() - p.len();
    let mut i: usize = 0;
    loop
        invariant
            p.len() <= s.len(),
            last == s.len() - p.len(),
            i <= last,
            forall|m: int| 0 <= m < i ==> !occurs_at(s@, p@, m),
        ensures
            forall|m: int| 0 <= m <= last ==> !occurs_at(s@, p@, m),
        decreases last - i,
    {
        if chars_occur_at(s, p, i) {
            return true;
        }
        if i == last {
            break;
        }
        i = i + 1;
    }
    assert forall|m: int| !occurs_at(s@, p@, m) by {}
    false
}

pub fn str_contains(s: &str, p: &str) -> (r: bool)
    ensures
        r == contains(s@, p@),
{
    let a = chars_of(s);
    let b = chars_of(p);
    chars_contains(&a, &b)
}


// ---------------------------------------------------------------------------
// UTF-8 lengths
// ---------------------------------------------------------------------------

/// Number of bytes in the UTF-8 encoding of `c` (`char::len_utf8`).
pub open spec fn char_utf8_len(c: char) -> nat {
    let u = c as u32;
    if u <= 0x7f {
        1
    } else if u <= 0x7ff {
        2
    } else if u <= 0xffff {
        3
    } else {
        4
    }
}

/// Number of bytes in the UTF-8 encoding of `s` (`str::len`).
pub open spec fn utf8_len(s: Seq<char>) -> nat {
    vstd::utf8::encode_utf8(s).len()
}

pub proof fn lemma_encode_scalar_len(c: char)
    ensures
        vstd::utf8::encode_scalar(c as u32).len() == char_utf8_len(c),
{
    vstd::utf8::char_is_scalar(c);
}

pub proof fn lemma_utf8_len_push(s: Seq<char>, c: char)
    ensures
        utf8_len(s.push(c)) == utf8_len(s) + char_utf8_len(c),
    decreases s.len(),
{
    lemma_encode_scalar_len(c);
    if s.len() == 0 {
        assert(s.push(c).drop_first() =~= Seq::<char>::empty());
        assert(vstd::utf8::encode_utf8(Seq::<char>::empty()) =~= Seq::<u8>::empty());
    } else {
        assert(s.push(c).drop_first() =~= s.drop_first().push(c));
        lemma_utf8_len_push(s.drop_first(), c);
    }
}

pub proof fn lemma_utf8_len_empty()
    ensures
        utf8_len(Seq::<char>::empty()) == 0,
{
}

pub fn char_len_utf8(c: char) -> (n: usize)
    ensures
        n == char_utf8_len(c),
{
    let u = c as u32;
    if u <= 0x7f {
        1
    } else if u <= 0x7ff {
        2
    } else if u <= 0xffff {
        3
    } else {
        4
    }
}

/// The number of bytes in the UTF-8 encoding of `s` (`str::len`).
pub fn byte_len(s: &str) -> (n: usize)
    ensures
        n == utf8_len(s@),
{
    s.as_bytes_vec().len()
}

// ---------------------------------------------------------------------------
// Decimal numbers
// ---------------------------------------------------------------------------

pub open spec fn is_digit_char(c: char) -> bool {
    '0' <= c && c <= '9'
}

pub open spec fn all_digits(s: Seq<char>) -> bool {
    forall|i: int| 0 <= i < s.len() ==> is_digit_char(#[trigger] s[i])
}

pub open spec fn digit_value(c: char) -> nat {
    ((c as u32) - 0x30) as nat
}

pub open spec fn digits_value(s: Seq<char>) -> nat
    decreases s.len(),
{
    if s.len() == 0 {
        0
    } else {
        digits_value(s.drop_last()) * 10 + digit_value(s.last())
    }
}

/// The digits that the unsigned `FromStr` implementations read: one optional
/// leading `+`, then at least one ASCII digit and nothing else.
pub open spec fn unsigned_digits(s: Seq<char>) -> Option<Seq<char>> {
    let d = if s.len() > 0 && s[0] == '+' {
        s.drop_first()
    } else {
        s
    };
    if d.len() > 0 && all_digits(d) {
        Some(d)
    } else {
        None
    }
}

/// `FromStr` for an unsigned integer type whose largest value is `max`.
pub open spec fn parse_unsigned(s: Seq<char>, max: nat) -> Option<nat> {
    match unsigned_digits(s) {
        Some(d) => if digits_value(d) <= max {
            Some(digits_value(d))
        } else {
            None
        },
        None => None,
    }
}

proof fn lemma_digits_value_monotone(d: Seq<char>, i: int, j: int)
    requires
        0 <= i <= j <= d.len(),
        all_digits(d),
    ensures
        digits_value(d.take(i)) <= digits_value(d.take(j)),
    decreases j - i,
{
    if i < j {
        lemma_digits_value_monotone(d, i, j - 1);
        assert(d.take(j).drop_last() =~= d.take(j - 1));
    }
}

pub fn parse_u64(s: &str) -> (r: Option<u64>)
    ensures
        match r {
            Some(v) => parse_unsigned(s@, u64::MAX as nat) == Some(v as nat),
            None => parse_unsigned(s@, u64::MAX as nat) is None,
        },
{
    let v = chars_of(s);
    let start: usize = if v.len() > 0 && v[0] == '+' {
        1
    } else {
        0
    };
    let ghost d = if s@.len() > 0 && s@[0] == '+' {
        s@.drop_first()
    } else {
        s@
    };
    assert(d =~= v@.skip(start as int));
    assert(unsigned_digits(s@) == (if d.len() > 0 && all_digits(d) {
        Some(d)
    } else {
        None
    }));
    if start >= v.len() {
        assert(d.len() == 0);
        assert(unsigned_digits(s@) is None);
        return None;
    }
    let mut k: usize = start;
    while k < v.len()
        invariant
            start <= k <= v.len(),
            d =~= v@.skip(start as int),
            d.len() > 0,
            unsigned_digits(s@) == (if d.len() > 0 && all_digits(d) {
                Some(d)
            } else {
                None
            }),
            forall|m: int| start <= m < k ==> is_digit_char(#[trigger] v@[m]),
        decreases v.len() - k,
    {
        if !('0' <= v[k] && v[k] <= '9') {
            assert(!is_digit_char(d[k - start]));
            assert(!all_digits(d));
            assert(unsigned_digits(s@) is None);
            return None;
        }
        k = k + 1;
    }
    assert(all_digits(d));
    let mut acc: u64 = 0;
    let mut k: usize = start;
    while k < v.len()
        invariant
            start <= k <= v.len(),
            d =~= v@.skip(start as int),
            all_digits(d),
            d.len() > 0,
            unsigned_digits(s@) == Some(d),
            acc as nat == digits_value(d.take(k - start)),
        decreases v.len() - k,
    {
        let c = v[k];
        assert(c == d[k - start]);
        let digit: u64 = (c as u32 - 0x30) as u64;
        assert(d.take(k - start + 1).drop_last() =~= d.take(k - start));
        if acc > (u64::MAX - digit) / 10 {
            proof {
                assert(acc * 10 + digit > u64::MAX) by (nonlinear_arith)
                    requires
                        acc > (u64::MAX - digit) / 10,
                        digit <= 9,
                ;
                assert(digit == digit_value(d.take(k - start + 1).last()));
                assert(digits_value(d.take(k - start + 1)) > u64::MAX);
                lemma_digits_value_monotone(d, k - start + 1, d.len() as int);
                assert(d.take(d.len() as int) =~= d);
                assert(unsigned_digits(s@) == Some(d));
            }
            return None;
        }
        acc = acc * 10 + digit;
        k = k + 1;
    }
    assert(d.take(d.len() as int) =~= d);
    Some(acc)
}

pub fn parse_u32(s: &str) -> (r: Option<u32>)
    ensures
        match r {
            Some(v) => parse_unsigned(s@, u32::MAX as nat) == Some(v as nat),
            None => parse_unsigned(s@, u32::MAX as nat) is None,
        },
{
    match parse_u64(s) {
        Some(v) => if v <= u32::MAX as u64 {
            Some(v as u32)
        } else {
            None
        },
        None => None,
    }
}

pub fn parse_u16(s: &str) -> (r: Option<u16>)
    ensures
        match r {
            Some(v) => parse_unsigned(s@, u16::MAX as nat) == Some(v as nat),
            None => parse_unsigned(s@, u16::MAX as nat) is None,
        },
{
    match parse_u64(s) {
        Some(v) => if v <= u16::MAX as u64 {
            Some(v as u16)
        } else {
            None
        },
        None => None,
    }
}

pub open spec fn digit_char(d: nat) -> char {
    (0x30 + d) as char
}

/// The decimal representation of `n`, without leading zeros.
pub open spec fn decimal(n: nat) -> Seq<char>
    decreases n,
{
    if n < 10 {
        seq![digit_char(n)]
    } else {
        decimal(n / 10).push(digit_char(n % 10))
    }
}

pub fn decimal_chars(n: u64) -> (r: Vec<char>)
    ensures
        r@ == decimal(n as nat),
    decreases n,
{
    if n < 10 {
        let c = ((n as u8) + 0x30) as char;
        vec![c]
    } else {
        let mut r = decimal_chars(n / 10);
        let c = (((n % 10) as u8) + 0x30) as char;
        r.push(c);
        r
    }
}

/// A lowercase hexadecimal digit.
pub open spec fn hex_digit(d: nat) -> char {
    if d < 10 {
        (0x30 + d) as char
    } else {
        (0x61 + d - 10) as char
    }
}

/// The lowercase hexadecimal representation of `n`, without leading zeros.
pub open spec fn hex(n: nat) -> Seq<char>
    decreases n,
{
    if n < 16 {
        seq![hex_digit(n)]
    } else {
        hex(n / 16).push(hex_digit(n % 16))
    }
}

pub fn hex_digit_char(d: u8) -> (c: char)
    requires
        d < 16,
    ensures
        c == hex_digit(d as nat),
{
    if d < 10 {
        (d + 0x30) as char
    } else {
        (d - 10 + 0x61) as char
    }
}

pub fn hex_chars(n: u64) -> (r: Vec<char>)
    ensures
        r@ == hex(n as nat),
    decreases n,
{
    if n < 16 {
        vec![hex_digit_char(n as u8)]
    } else {
        let mut r = hex_chars(n / 16);
        r.push(hex_digit_char((n % 16) as u8));
        r
    }
}


pub fn chars_eq_str(v: &Vec<char>, s: &str) -> (r: bool)
    ensures
        r == (v@ == s@),
{
    let w = chars_of(s);
    chars_eq(v, &w)
}

pub fn chars_contain_str(v: &Vec<char>, s: &str) -> (r: bool)
    ensures
        r == contains(v@, s@),
{
    let w = chars_of(s);
    chars_contains(v, &w)
}

pub fn chars_end_with_str(v: &Vec<char>, s: &str) -> (r: bool)
    ensures
        r == ends_with(v@, s@),
{
    let w = chars_of(s);
    chars_ends_with(v, &w)
}

pub fn chars_start_with_str(v: &Vec<char>, s: &str) -> (r: bool)
    ensures
        r == starts_with(v@, s@),
{
    let w = chars_of(s);
    chars_starts_with(v, &w)
}

/// The characters of an optional text, or nothing.
pub open spec fn opt_chars(value: Option<String>) -> Seq<char> {
    match value {
        Some(v) => v@,
        None => Seq::<char>::empty(),
    }
}

pub fn opt_chars_of(value: &Option<String>) -> (r: Vec<char>)
    ensures
        r@ == opt_chars(*value),
{
    match value {
        Some(v) => chars_of(v.as_str()),
        None => Vec::new(),
    }
}

} // verus!
