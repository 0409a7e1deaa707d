//! Byte-level helpers for the line grammar: searches and decimal numbers.
use vstd::prelude::*;

verus! {

pub const SPACE: u8 = 32;
pub const HASH: u8 = 35;
pub const LPAREN: u8 = 40;
pub const RPAREN: u8 = 41;
pub const STAR: u8 = 42;
pub const PLUS: u8 = 43;
pub const MINUS: u8 = 45;
pub const DOT: u8 = 46;
pub const SLASH: u8 = 47;
pub const ZERO: u8 = 48;
pub const NINE: u8 = 57;
pub const COLON: u8 = 58;
pub const LT: u8 = 60;
pub const EQUALS: u8 = 61;
pub const GT: u8 = 62;
pub const AT: u8 = 64;
pub const LBRACKET: u8 = 91;
pub const RBRACKET: u8 = 93;
pub const LBRACE: u8 = 123;
pub const PIPE: u8 = 124;
pub const RBRACE: u8 = 125;
pub const TILDE: u8 = 126;

/// `i` is the first position of `c` in `s`.
pub open spec fn first_at(s: Seq<u8>, c: u8, i: int) -> bool {
    &&& 0 <= i < s.len()
    &&& s[i] == c
    &&& forall|j: int| 0 <= j < i ==> s[j] != c
}

/// `i` is the last position of `c` in `s`.
pub open spec fn last_at(s: Seq<u8>, c: u8, i: int) -> bool {
    &&& 0 <= i < s.len()
    &&& s[i] == c
    &&& forall|j: int| i < j < s.len() ==> s[j] != c
}

/// Position of the first `c` in `s`, if any.
pub open spec fn find(s: Seq<u8>, c: u8) -> Option<int> {
    if exists|i: int| first_at(s, c, i) {
        Some(choose|i: int| first_at(s, c, i))
    } else {
        None
    }
}

/// Position of the last `c` in `s`, if any.
pub open spec fn rfind(s: Seq<u8>, c: u8) -> Option<int> {
    if exists|i: int| last_at(s, c, i) {
        Some(choose|i: int| last_at(s, c, i))
    } else {
        None
    }
}

pub proof fn lemma_find_some(s: Seq<u8>, c: u8, i: int)
    requires
        first_at(s, c, i),
    ensures
        find(s, c) == Some(i),
{
    let k = choose|k: int| first_at(s, c, k);
    assert(first_at(s, c, k));
    if k < i {
        assert(s[k] != c);
    } else if i < k {
        assert(s[i] != c);
    }
}

pub proof fn lemma_find_none(s: Seq<u8>, c: u8)
    requires
        forall|j: int| 0 <= j < s.len() ==> s[j] != c,
    ensures
        find(s, c) == None::<int>,
{
    assert(!exists|i: int| first_at(s, c, i));
}

pub proof fn lemma_rfind_some(s: Seq<u8>, c: u8, i: int)
    requires
        last_at(s, c, i),
    ensures
        rfind(s, c) == Some(i),
{
    let k = choose|k: int| last_at(s, c, k);
    assert(last_at(s, c, k));
    if k < i {
        assert(s[i] != c);
    } else if i < k {
        assert(s[k] != c);
    }
}

pub proof fn lemma_rfind_none(s: Seq<u8>, c: u8)
    requires
        forall|j: int| 0 <= j < s.len() ==> s[j] != c,
    ensures
        rfind(s, c) == None::<int>,
{
    assert(!exists|i: int| last_at(s, c, i));
}

/// Relies on `memchr::memchr`: the index of the first byte equal to `needle`,
/// or `None` when there is none.
#[verifier::external_body]
fn memchr_first(needle: u8, haystack: &[u8]) -> (r: Option<usize>)
    ensures
        match r {
            Some(i) => first_at(haystack@, needle, i as int),
            None => forall|j: int| 0 <= j < haystack@.len() ==> haystack@[j] != needle,
        },
{
    memchr::memchr(needle, haystack)
}

/// Relies on `memchr::memrchr`: the index of the last byte equal to `needle`,
/// or `None` when there is none.
#[verifier::external_body]
fn memchr_last(needle: u8, haystack: &[u8]) -> (r: Option<usize>)
    ensures
        match r {
            Some(i) => last_at(haystack@, needle, i as int),
            None => forall|j: int| 0 <= j < haystack@.len() ==> haystack@[j] != needle,
        },
{
    memchr::memrchr(needle, haystack)
}

/// The first position of `c` in `s`.
pub fn find_byte(c: u8, s: &[u8]) -> (r: Option<usize>)
    ensures
        r.is_some() == find(s@, c).is_some(),
        r.is_some() ==> r.unwrap() as int == find(s@, c).unwrap(),
        r.is_some() ==> first_at(s@, c, r.unwrap() as int),
        r.is_none() ==> forall|j: int| 0 <= j < s@.len() ==> s@[j] != c,
{
    let r = memchr_first(c, s);
    proof {
        match r {
            Some(i) => lemma_find_some(s@, c, i as int),
            None => lemma_find_none(s@, c),
        }
    }
    r
}

/// The last position of `c` in `s`.
pub fn rfind_byte(c: u8, s: &[u8]) -> (r: Option<usize>)
    ensures
        r.is_some() == rfind(s@, c).is_some(),
        r.is_some() ==> r.unwrap() as int == rfind(s@, c).unwrap(),
        r.is_some() ==> last_at(s@, c, r.unwrap() as int),
{
    let r = memchr_last(c, s);
    proof {
        match r {
            Some(i) => lemma_rfind_some(s@, c, i as int),
            None => lemma_rfind_none(s@, c),
        }
    }
    r
}

/// The bytes of `s` from `a` up to `b`.
pub fn slice(s: &[u8], a: usize, b: usize) -> (r: &[u8])
    requires
        a <= b <= s@.len(),
    ensures
        r@ == s@.subrange(a as int, b as int),
{
    &s[a..b]
}

/// `s` with its trailing spaces removed.
pub open spec fn rtrim(s: Seq<u8>) -> Seq<u8>
    decreases s.len(),
{
    if s.len() > 0 && s.last() == SPACE {
        rtrim(s.drop_last())
    } else {
        s
    }
}

/// Length of `s` once its trailing spaces are removed.
pub fn rtrim_len(s: &[u8]) -> (n: usize)
    ensures
        n <= s@.len(),
        rtrim(s@) == s@.subrange(0, n as int),
{
    let mut n: usize = s.len();
    assert(s@.subrange(0, n as int) =~= s@);
    while n > 0 && s[n - 1] == SPACE
        invariant
            n <= s@.len(),
            rtrim(s@) == rtrim(s@.subrange(0, n as int)),
        decreases n,
    {
        assert(s@.subrange(0, n as int).drop_last() =~= s@.subrange(0, n - 1));
        n = n - 1;
    }
    assert(s@.subrange(0, s@.len() as int) =~= s@);
    n
}

pub open spec fn is_digit(b: u8) -> bool {
    ZERO <= b <= NINE
}

pub open spec fn all_digits(s: Seq<u8>) -> bool {
    forall|i: int| 0 <= i < s.len() ==> is_digit(#[trigger] s[i])
}

/// The number that a string of decimal digits spells.
pub open spec fn digits_value(s: Seq<u8>) -> int
    decreases s.len(),
{
    if s.len() == 0 {
        0
    } else {
        digits_value(s.drop_last()) * 10 + (s.last() - ZERO)
    }
}

/// The value of a decimal integer with an optional sign, when the text is
/// one and the value fits in `i64`.
pub open spec fn decimal(s: Seq<u8>) -> Option<int> {
    let neg = s.len() > 0 && s[0] == MINUS;
    let signed = s.len() > 0 && (s[0] == MINUS || s[0] == PLUS);
    let d = if signed { s.subrange(1, s.len() as int) } else { s };
    let v = if neg { -digits_value(d) } else { digits_value(d) };
    if d.len() > 0 && all_digits(d) && i64::MIN <= v <= i64::MAX {
        Some(v)
    } else {
        None
    }
}

/// A numeric field: its value, or zero when the text is no `i64`.
pub open spec fn field_i64(s: Seq<u8>) -> i64 {
    match decimal(s) {
        Some(v) => v as i64,
        None => 0,
    }
}

proof fn lemma_digits_value_nonneg(s: Seq<u8>)
    requires
        all_digits(s),
    ensures
        digits_value(s) >= 0,
    decreases s.len(),
{
    if s.len() > 0 {
        lemma_digits_value_nonneg(s.drop_last());
    }
}

proof fn lemma_digits_value_grows(s: Seq<u8>, i: int)
    requires
        all_digits(s),
        0 <= i <= s.len(),
    ensures
        digits_value(s.subrange(0, i)) <= digits_value(s),
    decreases s.len() - i,
{
    if i < s.len() {
        lemma_digits_value_grows(s, i + 1);
        let p = s.subrange(0, i + 1);
        assert(p.drop_last() =~= s.subrange(0, i));
        lemma_digits_value_nonneg(s.subrange(0, i));
    } else {
        assert(s.subrange(0, i) =~= s);
    }
}

/// Parses a signed decimal integer; text that is no `i64` gives zero.
pub fn parse_i64(s: &[u8]) -> (r: i64)
    ensures
        r == field_i64(s@),
{
    let len = s.len();
    if len == 0 {
        return 0;
    }
    let neg = s[0] == MINUS;
    let start: usize = if s[0] == MINUS || s[0] == PLUS { 1 } else { 0 };
    let ghost d = s@.subrange(start as int, len as int);
    proof {
        if start == 0 {
            assert(d =~= s@);
        }
    }
    if start == len {
        return 0;
    }
    // magnitude limit: 2^63 for a negative number, 2^63 - 1 otherwise
    let limit: u64 = if neg { 9223372036854775808 } else { 9223372036854775807 };
    let mut acc: u64 = 0;
    let mut i: usize = start;
    while i < len
        invariant
            start <= i <= len,
            len == s@.len(),
            len > 0,
            neg == (s@[0] == MINUS),
            start == (if s@[0] == MINUS || s@[0] == PLUS { 1usize } else { 0usize }),
            limit == (if neg { 9223372036854775808u64 } else { 9223372036854775807u64 }),
            d == s@.subrange(start as int, len as int),
            start == 0 ==> d == s@,
            acc as int == digits_value(d.subrange(0, i - start)),
            acc <= limit,
            all_digits(d.subrange(0, i - start)),
        decreases len - i,
    {
        let b = s[i];
        if b < ZERO || b > NINE {
            assert(!is_digit(d[i - start]));
            assert(!all_digits(d));
            assert(decimal(s@).is_none());
            return 0;
        }
        let digit = (b - ZERO) as u64;
        assert(digit <= 9);
        assert(limit >= 9);
        let ghost p = d.subrange(0, i + 1 - start);
        assert(p.drop_last() =~= d.subrange(0, i - start));
        if acc > (limit - digit) / 10 {
            proof {
                assert(all_digits(p));
                assert(digits_value(p) > limit) by (nonlinear_arith)
                    requires
                        digits_value(p) == acc * 10 + digit,
                        acc > (limit - digit) / 10,
                        digit <= 9,
                        limit >= 9,
                ;
                if all_digits(d) {
                    lemma_digits_value_grows(d, i + 1 - start);
                    assert(digits_value(d) > limit);
                }
                assert(decimal(s@).is_none());
            }
            return 0;
        }
        assert(acc * 10 + digit <= limit) by (nonlinear_arith)
            requires
                acc <= (limit - digit) / 10,
                digit <= limit,
        ;
        acc = acc * 10 + digit;
        i = i + 1;
        assert(all_digits(d.subrange(0, i - start))) by {
            assert forall|k: int| 0 <= k < i - start implies is_digit(#[trigger] d.subrange(0, i - start)[k]) by {
                if k < i - 1 - start {
                    assert(d.subrange(0, i - start)[k] == d.subrange(0, i - 1 - start)[k]);
                }
            }
        }
    }
    assert(d.subrange(0, len - start) =~= d);
    if neg {
        if acc == 9223372036854775808 {
            i64::MIN
        } else {
            -(acc as i64)
        }
    } else {
        acc as i64
    }
}

/// Whether two byte strings are equal.
pub fn bytes_eq(a: &[u8], b: &[u8]) -> (r: bool)
    ensures
        r == (a@ == b@),
{
    if a.len() != b.len() {
        return false;
    }
    let mut i: usize = 0;
    while i < a.len()
        invariant
            i <= a@.len(),
            a@.len() == b@.len(),
            forall|j: int| 0 <= j < i ==> a@[j] == b@[j],
        decreases a@.len() - i,
    {
        if a[i] != b[i] {
            return false;
        }
        i = i + 1;
    }
    assert(a@ =~= b@);
    true
}

/// `w` occurs in `s` at position `i`.
pub open spec fn occurs_at(s: Seq<u8>, w: Seq<u8>, i: int) -> bool {
    0 <= i && i + w.len() <= s.len() && s.subrange(i, i + w.len()) == w
}

/// `w` occurs somewhere in `s`.
pub open spec fn occurs(s: Seq<u8>, w: Seq<u8>) -> bool {
    exists|i: int| occurs_at(s, w, i)
}

/// Relies on `memchr::memmem::find`: the index of the first occurrence of
/// `needle` in `haystack`, or `None` when it does not occur.
#[verifier::external_body]
fn memmem_find(haystack: &[u8], needle: &[u8]) -> (r: Option<usize>)
    ensures
        match r {
            Some(i) => occurs_at(haystack@, needle@, i as int)
                && forall|j: int| 0 <= j < i ==> !occurs_at(haystack@, needle@, j),
            None => forall|j: int| !occurs_at(haystack@, needle@, j),
        },
{
    memchr::memmem::find(haystack, needle)
}

/// Whether `w` occurs in `s`.
pub fn contains_bytes(s: &[u8], w: &[u8]) -> (r: bool)
    ensures
        r == occurs(s@, w@),
{
    match memmem_find(s, w) {
        Some(i) => {
            assert(occurs_at(s@, w@, i as int));
            true
        },
        None => false,
    }
}

/// Position of the first occurrence of `w` in `s`, if any.
pub open spec fn find_word(s: Seq<u8>, w: Seq<u8>) -> Option<int> {
    if exists|i: int| occurs_at(s, w, i) && forall|j: int| 0 <= j < i ==> !occurs_at(s, w, j) {
        Some(choose|i: int| occurs_at(s, w, i) && forall|j: int| 0 <= j < i ==> !occurs_at(s, w, j))
    } else {
        None
    }
}

/// The first position of `w` in `s`.
pub fn find_bytes(s: &[u8], w: &[u8]) -> (r: Option<usize>)
    ensures
        r.is_some() == find_word(s@, w@).is_some(),
        r.is_some() ==> r.unwrap() as int == find_word(s@, w@).unwrap(),
        r.is_some() ==> occurs_at(s@, w@, r.unwrap() as int),
{
    let r = memmem_find(s, w);
    proof {
        match r {
            Some(i) => {
                let k = choose|k: int| occurs_at(s@, w@, k) && forall|j: int| 0 <= j < k ==> !occurs_at(s@, w@, j);
                if k < i {
                    assert(!occurs_at(s@, w@, k));
                } else if i < k {
                    assert(!occurs_at(s@, w@, i as int));
                }
            },
            None => {},
        }
    }
    r
}

} // verus!
