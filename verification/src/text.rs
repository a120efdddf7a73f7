//! Text as the library compares and reads it: equality, the byte-wise order
//! in which recipients are sorted, and the decimal numbers that select a
//! partition by its index.

use vstd::prelude::*;
use vstd::string::*;
use vstd::utf8::*;

verus! {

/// What a list of texts holds.
pub open spec fn texts(v: Seq<String>) -> Seq<Seq<char>> {
    v.map_values(|s: String| s@)
}

/// The bytes of a text, which are what texts are ordered by.
pub open spec fn bytes_of(s: Seq<char>) -> Seq<u8> {
    encode_utf8(s)
}

/// Lexicographic order on byte strings: a proper prefix comes first,
/// otherwise the first byte that differs decides.
pub open spec fn bytes_lt(a: Seq<u8>, b: Seq<u8>) -> bool
    decreases a.len(),
{
    if b.len() == 0 {
        false
    } else if a.len() == 0 {
        true
    } else if a[0] != b[0] {
        a[0] < b[0]
    } else {
        bytes_lt(a.drop_first(), b.drop_first())
    }
}

/// The order of two texts: that of their bytes.
pub open spec fn text_lt(a: Seq<char>, b: Seq<char>) -> bool {
    bytes_lt(bytes_of(a), bytes_of(b))
}

/// No byte string comes before itself.
pub proof fn lemma_bytes_lt_irreflexive(a: Seq<u8>)
    ensures
        !bytes_lt(a, a),
    decreases a.len(),
{
    if a.len() > 0 {
        lemma_bytes_lt_irreflexive(a.drop_first());
    }
}

/// The order is transitive.
pub proof fn lemma_bytes_lt_transitive(a: Seq<u8>, b: Seq<u8>, c: Seq<u8>)
    requires
        bytes_lt(a, b),
        bytes_lt(b, c),
    ensures
        bytes_lt(a, c),
    decreases a.len(),
{
    if a.len() > 0 && b.len() > 0 && c.len() > 0 && a[0] == b[0] && b[0] == c[0] {
        lemma_bytes_lt_transitive(a.drop_first(), b.drop_first(), c.drop_first());
    }
}

/// Of two different byte strings one comes before the other.
pub proof fn lemma_bytes_lt_total(a: Seq<u8>, b: Seq<u8>)
    ensures
        bytes_lt(a, b) || bytes_lt(b, a) || a == b,
    decreases a.len(),
{
    if a.len() > 0 && b.len() > 0 && a[0] == b[0] {
        lemma_bytes_lt_total(a.drop_first(), b.drop_first());
        if a.drop_first() == b.drop_first() {
            assert forall|i: int| 0 <= i < a.len() implies a[i] == b[i] by {
                if i > 0 {
                    assert(a[i] == a.drop_first()[i - 1]);
                    assert(b[i] == b.drop_first()[i - 1]);
                }
            }
            assert(a.drop_first().len() == b.drop_first().len());
            assert(a =~= b);
        }
    } else if a.len() == 0 && b.len() == 0 {
        assert(a =~= b);
    }
}

/// Texts with the same bytes are the same text.
pub proof fn lemma_bytes_of_injective(a: Seq<char>, b: Seq<char>)
    requires
        bytes_of(a) == bytes_of(b),
    ensures
        a == b,
{
    encode_utf8_decode_utf8(a);
    encode_utf8_decode_utf8(b);
}

/// `text_lt` is a strict total order on texts.
pub proof fn lemma_text_lt_strict_total_order(a: Seq<char>, b: Seq<char>, c: Seq<char>)
    ensures
        !text_lt(a, a),
        text_lt(a, b) && text_lt(b, c) ==> text_lt(a, c),
        text_lt(a, b) || text_lt(b, a) || a == b,
{
    lemma_bytes_lt_irreflexive(bytes_of(a));
    if text_lt(a, b) && text_lt(b, c) {
        lemma_bytes_lt_transitive(bytes_of(a), bytes_of(b), bytes_of(c));
    }
    lemma_bytes_lt_total(bytes_of(a), bytes_of(b));
    if bytes_of(a) == bytes_of(b) {
        lemma_bytes_of_injective(a, b);
    }
}

/// Whether two texts are the same.
pub fn str_eq(a: &str, b: &str) -> (r: bool)
    ensures
        r == (a@ == b@),
{
    let x = a.as_bytes();
    let y = b.as_bytes();
    if x.len() != y.len() {
        return false;
    }
    let mut i: usize = 0;
    while i < x.len()
        invariant
            x@ == bytes_of(a@),
            y@ == bytes_of(b@),
            x@.len() == y@.len(),
            i <= x@.len(),
            forall|j: int| 0 <= j < i ==> x@[j] == y@[j],
        decreases x@.len() - i,
    {
        if x[i] != y[i] {
            return false;
        }
        i += 1;
    }
    proof {
        assert(x@ =~= y@);
        lemma_bytes_of_injective(a@, b@);
    }
    true
}

/// Whether `a` comes before `b` in the byte-wise order.
pub fn str_lt(a: &str, b: &str) -> (r: bool)
    ensures
        r == text_lt(a@, b@),
{
    let x = a.as_bytes();
    let y = b.as_bytes();
    let mut i: usize = 0;
    proof {
        assert(x@.skip(0) =~= x@);
        assert(y@.skip(0) =~= y@);
    }
    while i < x.len() && i < y.len()
        invariant
            x@ == bytes_of(a@),
            y@ == bytes_of(b@),
            i <= x@.len(),
            i <= y@.len(),
            bytes_lt(x@, y@) == bytes_lt(x@.skip(i as int), y@.skip(i as int)),
        decreases x@.len() - i,
    {
        proof {
            assert(x@.skip(i as int).drop_first() =~= x@.skip(i + 1));
            assert(y@.skip(i as int).drop_first() =~= y@.skip(i + 1));
            assert(x@.skip(i as int)[0] == x@[i as int]);
            assert(y@.skip(i as int)[0] == y@[i as int]);
        }
        if x[i] != y[i] {
            return x[i] < y[i];
        }
        i += 1;
    }
    i < y.len()
}

/// Whether `c` is one of the decimal digits `0` to `9`.
pub open spec fn is_digit(c: char) -> bool {
    '0' <= c <= '9'
}

/// Whether `s` holds decimal digits and nothing else.
pub open spec fn all_digits(s: Seq<char>) -> bool {
    forall|i: int| 0 <= i < s.len() ==> is_digit(#[trigger] s[i])
}

/// The number that a row of decimal digits stands for.
pub open spec fn decimal_value(s: Seq<char>) -> nat
    decreases s.len(),
{
    if s.len() == 0 {
        0
    } else {
        (decimal_value(s.drop_last()) * 10 + (s.last() as u32 - '0' as u32)) as nat
    }
}

/// The index that a text stands for: decimal digits, at least one, after
/// an optional `+`, with a value that an index can hold. No other text
/// stands for an index.
pub open spec fn index_of_text(s: Seq<char>) -> Option<usize> {
    let digits = if s.len() > 0 && s[0] == '+' {
        s.drop_first()
    } else {
        s
    };
    if digits.len() > 0 && all_digits(digits) && decimal_value(digits) <= usize::MAX {
        Some(decimal_value(digits) as usize)
    } else {
        None
    }
}

/// The value of a row of digits is at least that of each of its beginnings.
pub proof fn lemma_decimal_value_grows(s: Seq<char>, k: int)
    requires
        0 <= k <= s.len(),
        all_digits(s),
    ensures
        decimal_value(s.take(k)) <= decimal_value(s),
    decreases s.len(),
{
    if k == s.len() {
        assert(s.take(k) =~= s);
    } else {
        assert(s.drop_last().take(k) =~= s.take(k));
        lemma_decimal_value_grows(s.drop_last(), k);
        assert(is_digit(s.last()));
    }
}

/// Reads a text as an index.
pub fn parse_index(s: &str) -> (r: Option<usize>)
    ensures
        r == index_of_text(s@),
{
    if !s.is_ascii() {
        proof {
            let i = choose|i: int| 0 <= i < s@.len() && !('\0' <= #[trigger] s@[i] <= '\u{7f}');
            let digits = if s@.len() > 0 && s@[0] == '+' {
                s@.drop_first()
            } else {
                s@
            };
            if s@[0] == '+' {
                assert(i > 0);
                assert(digits[i - 1] == s@[i]);
                assert(!is_digit(digits[i - 1]));
            } else {
                assert(digits[i] == s@[i]);
                assert(!is_digit(digits[i]));
            }
        }
        return None;
    }
    proof {
        is_ascii_chars_encode_utf8(s@);
    }
    let bytes = s.as_bytes();
    let n = bytes.len();
    let start: usize = if n > 0 && bytes[0] == 43u8 {
        1
    } else {
        0
    };
    let ghost digits = s@.skip(start as int);
    proof {
        assert(s@.skip(0) =~= s@);
        if n > 0 {
            assert(s@.skip(1) =~= s@.drop_first());
            assert(s@[0] as u8 == 43u8 <==> s@[0] == '+');
        }
        assert(digits.take(0) =~= Seq::<char>::empty());
    }
    if start == n {
        assert(digits.len() == 0);
        return None;
    }
    let mut value: usize = 0;
    let mut i: usize = start;
    while i < n
        invariant
            is_ascii_chars(s@),
            bytes@ == bytes_of(s@),
            n == s@.len(),
            n == bytes@.len(),
            start <= i <= n,
            digits == s@.skip(start as int),
            index_of_text(s@) == (if all_digits(digits) && decimal_value(digits) <= usize::MAX {
                Some(decimal_value(digits) as usize)
            } else {
                None
            }),
            all_digits(digits.take(i - start)),
            value == decimal_value(digits.take(i - start)),
        decreases n - i,
    {
        let b = bytes[i];
        let ghost k = i - start;
        proof {
            is_ascii_chars_encode_utf8(s@);
            assert(b == s@[i as int] as u8);
            assert(digits[k] == s@[i as int]);
            assert(digits.take(k + 1).drop_last() =~= digits.take(k));
            assert(digits.take(k + 1).last() == digits[k]);
        }
        if b < 48u8 || b > 57u8 {
            assert(!is_digit(digits[k]));
            return None;
        }
        proof {
            assert(is_digit(digits[k]));
            assert forall|j: int| 0 <= j < k + 1 implies is_digit(#[trigger] digits.take(k + 1)[j]) by {
                if j < k {
                    assert(digits.take(k)[j] == digits.take(k + 1)[j]);
                }
            }
            if all_digits(digits) {
                lemma_decimal_value_grows(digits, k + 1);
            }
        }
        let d: usize = (b - 48u8) as usize;
        let shifted = match value.checked_mul(10) {
            Some(v) => v,
            None => {
                return None;
            },
        };
        value = match shifted.checked_add(d) {
            Some(v) => v,
            None => {
                return None;
            },
        };
        i += 1;
    }
    proof {
        assert(digits.take(n - start) =~= digits);
    }
    Some(value)
}

/// The text of one decimal digit.
pub open spec fn digit_text(d: nat) -> Seq<char> {
    if d == 0 {
        "0"@
    } else if d == 1 {
        "1"@
    } else if d == 2 {
        "2"@
    } else if d == 3 {
        "3"@
    } else if d == 4 {
        "4"@
    } else if d == 5 {
        "5"@
    } else if d == 6 {
        "6"@
    } else if d == 7 {
        "7"@
    } else if d == 8 {
        "8"@
    } else {
        "9"@
    }
}

/// A number written in decimal digits, without a sign or leading zeros.
pub open spec fn decimal_text(n: nat) -> Seq<char>
    decreases n,
{
    if n < 10 {
        digit_text(n)
    } else {
        decimal_text(n / 10) + digit_text(n % 10)
    }
}

fn digit_str(d: usize) -> (r: &'static str)
    requires
        d < 10,
    ensures
        r@ == digit_text(d as nat),
{
    if d == 0 {
        "0"
    } else if d == 1 {
        "1"
    } else if d == 2 {
        "2"
    } else if d == 3 {
        "3"
    } else if d == 4 {
        "4"
    } else if d == 5 {
        "5"
    } else if d == 6 {
        "6"
    } else if d == 7 {
        "7"
    } else if d == 8 {
        "8"
    } else {
        "9"
    }
}

/// Writes an index in decimal digits.
pub fn index_text(n: usize) -> (r: String)
    ensures
        r@ == decimal_text(n as nat),
{
    let mut r = String::from_str(digit_str(n % 10));
    let mut rest: usize = n / 10;
    while rest > 0
        invariant
            decimal_text(n as nat) == (if rest > 0 {
                decimal_text(rest as nat) + r@
            } else {
                r@
            }),
        decreases rest,
    {
        let ghost before = r@;
        r = String::from_str(digit_str(rest % 10)).concat(r.as_str());
        proof {
            let d = digit_text((rest % 10) as nat);
            if rest >= 10 {
                assert((decimal_text((rest / 10) as nat) + d) + before =~= decimal_text(
                    (rest / 10) as nat,
                ) + (d + before));
            }
        }
        rest = rest / 10;
    }
    r
}

/// Three texts in a row.
pub fn join3(a: &str, b: &str, c: &str) -> (r: String)
    ensures
        r@ == a@ + b@ + c@,
{
    let mut r = String::from_str(a);
    r.append(b);
    r.append(c);
    r
}

/// Five texts in a row.
pub fn join5(a: &str, b: &str, c: &str, d: &str, e: &str) -> (r: String)
    ensures
        r@ == a@ + b@ + c@ + d@ + e@,
{
    let mut r = String::from_str(a);
    r.append(b);
    r.append(c);
    r.append(d);
    r.append(e);
    r
}

/// A copy of a list of texts.
pub fn copy_texts(v: &Vec<String>) -> (r: Vec<String>)
    ensures
        r@ == v@,
{
    let r = v.clone();
    assert(r@ =~= v@);
    r
}

/// A copy of a text that may be missing.
pub fn copy_optional_text(text: &Option<String>) -> (r: Option<String>)
    ensures
        r == *text,
{
    match text {
        Some(t) => Some(t.clone()),
        None => None,
    }
}

/// What a row of digits with one more digit stands for.
proof fn lemma_decimal_value_of_one_more(s: Seq<char>, d: Seq<char>)
    requires
        d.len() == 1,
        is_digit(d[0]),
    ensures
        decimal_value(s + d) == decimal_value(s) * 10 + (d[0] as u32 - '0' as u32),
{
    assert((s + d).drop_last() =~= s);
    assert((s + d).last() == d[0]);
}

/// The text of one digit is that digit.
proof fn lemma_digit_text(d: nat)
    requires
        d < 10,
    ensures
        digit_text(d).len() == 1,
        is_digit(digit_text(d)[0]),
        digit_text(d)[0] as u32 - '0' as u32 == d,
        digit_text(d)[0] != '+',
{
    reveal_strlit("0");
    reveal_strlit("1");
    reveal_strlit("2");
    reveal_strlit("3");
    reveal_strlit("4");
    reveal_strlit("5");
    reveal_strlit("6");
    reveal_strlit("7");
    reveal_strlit("8");
    reveal_strlit("9");
}

/// A number that is written in decimal digits is read back from them:
/// its text holds digits only, at least one, and stands for the number.
pub proof fn lemma_decimal_text_stands_for(n: nat)
    ensures
        decimal_text(n).len() > 0,
        all_digits(decimal_text(n)),
        decimal_value(decimal_text(n)) == n,
    decreases n,
{
    lemma_digit_text(n % 10);
    let last = digit_text(n % 10);
    if n < 10 {
        lemma_decimal_value_of_one_more(Seq::empty(), last);
        assert(Seq::<char>::empty() + last =~= last);
    } else {
        lemma_decimal_text_stands_for(n / 10);
        let head = decimal_text(n / 10);
        lemma_decimal_value_of_one_more(head, last);
        assert forall|i: int| 0 <= i < (head + last).len() implies is_digit(
            #[trigger] (head + last)[i],
        ) by {
            if i < head.len() {
                assert((head + last)[i] == head[i]);
            } else {
                assert((head + last)[i] == last[0]);
            }
        }
    }
}

/// An index that is written by `index_text` is read back by
/// `parse_index`.
pub proof fn lemma_index_text_reads_back(n: usize)
    ensures
        index_of_text(decimal_text(n as nat)) == Some(n),
{
    lemma_decimal_text_stands_for(n as nat);
    let s = decimal_text(n as nat);
    assert(is_digit(s[0]));
}

} // verus!
