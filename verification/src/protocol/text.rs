//! Reading and writing the textual forms of addresses: fields separated by
//! a byte, decimal and hexadecimal digits.
use vstd::prelude::*;

verus! {

/// An ASCII decimal digit.
pub open spec fn is_digit(b: u8) -> bool {
    48 <= b <= 57
}

/// An ASCII hexadecimal digit, either case.
pub open spec fn is_hex_digit(b: u8) -> bool {
    is_digit(b) || (97 <= b <= 102) || (65 <= b <= 70)
}

/// The value of a hexadecimal digit.
pub open spec fn hex_value(b: u8) -> int {
    if is_digit(b) {
        b - 48
    } else if 97 <= b <= 102 {
        b - 87
    } else {
        b - 55
    }
}

/// Every byte of `s` is a decimal digit.
pub open spec fn all_digits(s: Seq<u8>) -> bool {
    forall|i: int| 0 <= i < s.len() ==> is_digit(#[trigger] s[i])
}

/// The number that the decimal digits `s` write, most significant first.
pub open spec fn decimal_value(s: Seq<u8>) -> int
    decreases s.len(),
{
    if s.len() == 0 {
        0
    } else {
        decimal_value(s.drop_last()) * 10 + (s.last() - 48)
    }
}

/// `s` cut at every `sep`: the pieces between separators, in order, empty
/// pieces included; there is always one piece more than separators.
pub open spec fn split_on(s: Seq<u8>, sep: u8) -> Seq<Seq<u8>>
    decreases s.len(),
{
    if s.len() == 0 {
        seq![Seq::empty()]
    } else {
        let head = split_on(s.drop_last(), sep);
        if s.last() == sep {
            head.push(Seq::empty())
        } else {
            head.update(head.len() - 1, head.last().push(s.last()))
        }
    }
}

/// The character of a digit below sixteen, lower-case for ten and above.
pub open spec fn digit_char(d: int) -> char {
    if d < 10 {
        (48 + d) as char
    } else {
        (87 + d) as char
    }
}

/// The decimal text of `n`, without leading zeros.
pub open spec fn decimal_text(n: nat) -> Seq<char>
    decreases n,
{
    if n < 10 {
        seq![digit_char(n as int)]
    } else {
        decimal_text(n / 10).push(digit_char((n % 10) as int))
    }
}

/// The two lower-case hexadecimal digits of `b`.
pub open spec fn hex2_text(b: u8) -> Seq<char> {
    seq![digit_char((b / 16) as int), digit_char((b % 16) as int)]
}

pub proof fn lemma_split_nonempty(s: Seq<u8>, sep: u8)
    ensures
        split_on(s, sep).len() >= 1,
    decreases s.len(),
{
    if s.len() > 0 {
        lemma_split_nonempty(s.drop_last(), sep);
    }
}

pub proof fn lemma_decimal_nonneg(s: Seq<u8>)
    requires
        all_digits(s),
    ensures
        decimal_value(s) >= 0,
    decreases s.len(),
{
    if s.len() > 0 {
        assert(is_digit(s[s.len() - 1]));
        lemma_decimal_nonneg(s.drop_last());
    }
}

/// The value of a prefix of digits is at most the value of the whole.
pub proof fn lemma_decimal_prefix_le(s: Seq<u8>, k: int)
    requires
        all_digits(s),
        0 <= k <= s.len(),
    ensures
        decimal_value(s.take(k)) <= decimal_value(s),
    decreases s.len(),
{
    if k < s.len() {
        let d = s.drop_last();
        assert(is_digit(s[s.len() - 1]));
        lemma_decimal_prefix_le(d, k);
        lemma_decimal_nonneg(d);
        assert(d.take(k) =~= s.take(k));
    } else {
        assert(s.take(k) =~= s);
    }
}

/// The UTF-8 bytes of the text `s`.
pub open spec fn text_bytes(s: &str) -> Seq<u8> {
    vstd::utf8::encode_utf8(s@)
}

/// The bytes of the ASCII characters `c`, one for each.
pub open spec fn ascii_bytes(c: Seq<char>) -> Seq<u8> {
    Seq::new(c.len(), |i: int| c[i] as u8)
}

/// Every character of `c` is ASCII.
pub open spec fn ascii_only(c: Seq<char>) -> bool {
    vstd::utf8::is_ascii_chars(c)
}

/// The UTF-8 encoding of ASCII text is its ASCII bytes.
pub proof fn lemma_ascii_encoding(c: Seq<char>)
    requires
        ascii_only(c),
    ensures
        vstd::utf8::encode_utf8(c) == ascii_bytes(c),
{
    vstd::utf8::is_ascii_chars_encode_utf8(c);
    assert(vstd::utf8::encode_utf8(c) =~= ascii_bytes(c));
}

pub proof fn lemma_ascii_concat(c1: Seq<char>, c2: Seq<char>)
    ensures
        ascii_bytes(c1 + c2) == ascii_bytes(c1) + ascii_bytes(c2),
        ascii_only(c1) && ascii_only(c2) ==> ascii_only(c1 + c2),
{
    assert(ascii_bytes(c1 + c2) =~= ascii_bytes(c1) + ascii_bytes(c2));
    if ascii_only(c1) && ascii_only(c2) {
        assert forall|i: int| 0 <= i < (c1 + c2).len() implies '\0' <= #[trigger] (c1 + c2)[i]
            <= '\u{7f}' by {
            if i < c1.len() {
                assert((c1 + c2)[i] == c1[i]);
            } else {
                assert((c1 + c2)[i] == c2[i - c1.len()]);
            }
        }
    }
}

/// Cutting `a`, a separator and `b` gives the pieces of `a` followed by
/// those of `b`.
pub proof fn lemma_split_concat(a: Seq<u8>, b: Seq<u8>, sep: u8)
    ensures
        split_on(a + seq![sep] + b, sep) == split_on(a, sep) + split_on(b, sep),
    decreases b.len(),
{
    let s = a + seq![sep] + b;
    if b.len() == 0 {
        assert(s.drop_last() =~= a);
        assert(split_on(s, sep) =~= split_on(a, sep) + split_on(b, sep));
    } else {
        lemma_split_concat(a, b.drop_last(), sep);
        assert(s.drop_last() =~= a + seq![sep] + b.drop_last());
        lemma_split_nonempty(b.drop_last(), sep);
        assert(split_on(s, sep) =~= split_on(a, sep) + split_on(b, sep));
    }
}

/// Text without the separator is one piece.
pub proof fn lemma_split_single(p: Seq<u8>, sep: u8)
    requires
        forall|i: int| 0 <= i < p.len() ==> #[trigger] p[i] != sep,
    ensures
        split_on(p, sep) == seq![p],
    decreases p.len(),
{
    if p.len() == 0 {
        assert(p =~= Seq::<u8>::empty());
    } else {
        lemma_split_single(p.drop_last(), sep);
        assert(p[p.len() - 1] != sep);
        assert(p.drop_last().push(p.last()) =~= p);
        assert(split_on(p, sep) =~= seq![p]);
    }
}

/// The decimal text of a number is ASCII digits that read back as the number.
pub proof fn lemma_decimal_text(n: nat)
    ensures
        ascii_only(decimal_text(n)),
        ascii_bytes(decimal_text(n)).len() > 0,
        all_digits(ascii_bytes(decimal_text(n))),
        decimal_value(ascii_bytes(decimal_text(n))) == n,
    decreases n,
{
    let t = decimal_text(n);
    let b = ascii_bytes(t);
    if n < 10 {
        assert(b.drop_last() =~= Seq::<u8>::empty());
        let c = (48 + n) as char;
        assert(c as u8 == 48 + n);
        assert(t[0] == c);
        assert(b[0] == (48 + n) as u8);
        assert(b.last() == b[0]);
        assert(decimal_value(b.drop_last()) == 0);
        assert(decimal_value(b) == n);
    } else {
        lemma_decimal_text(n / 10);
        let h = decimal_text(n / 10);
        let d = digit_char((n % 10) as int);
        assert(t == h.push(d));
        assert(b.drop_last() =~= ascii_bytes(h));
        assert(b.last() == (48 + n % 10) as u8);
        assert forall|i: int| 0 <= i < t.len() implies '\0' <= #[trigger] t[i] <= '\u{7f}' by {
            if i < h.len() {
                assert(t[i] == h[i]);
            }
        }
        assert forall|i: int| 0 <= i < b.len() implies is_digit(#[trigger] b[i]) by {
            if i < h.len() {
                assert(b[i] == ascii_bytes(h)[i]);
            }
        }
        assert(decimal_value(b) == decimal_value(ascii_bytes(h)) * 10 + n % 10);
        assert(decimal_value(b) == n);
    }
}

/// The two hexadecimal digits of a byte read back as the byte.
pub proof fn lemma_hex2_text(x: u8)
    ensures
        ascii_only(hex2_text(x)),
        ascii_bytes(hex2_text(x)).len() == 2,
        is_hex_digit(ascii_bytes(hex2_text(x))[0]),
        is_hex_digit(ascii_bytes(hex2_text(x))[1]),
        ascii_bytes(hex2_text(x))[0] != 43,
        hex_value(ascii_bytes(hex2_text(x))[0]) * 16 + hex_value(ascii_bytes(hex2_text(x))[1]) == x,
{
    let b = ascii_bytes(hex2_text(x));
    let hi = x / 16;
    let lo = x % 16;
    assert(hi < 16 && lo < 16);
    assert(hi * 16 + lo == x);
    if hi < 10 {
        assert(b[0] == (48 + hi) as u8);
    } else {
        assert(b[0] == (87 + hi) as u8);
    }
    if lo < 10 {
        assert(b[1] == (48 + lo) as u8);
    } else {
        assert(b[1] == (87 + lo) as u8);
    }
}

/// `s` cut at every `sep`.
pub fn split_bytes(s: &[u8], sep: u8) -> (r: Vec<Vec<u8>>)
    ensures
        r@.len() == split_on(s@, sep).len(),
        forall|j: int| 0 <= j < r@.len() ==> #[trigger] r@[j]@ == split_on(s@, sep)[j],
{
    let mut parts: Vec<Vec<u8>> = Vec::new();
    let mut cur: Vec<u8> = Vec::new();
    let mut i: usize = 0;
    proof {
        assert(s@.take(0) =~= Seq::<u8>::empty());
    }
    while i < s.len()
        invariant
            i <= s@.len(),
            parts@.len() + 1 == split_on(s@.take(i as int), sep).len(),
            forall|j: int|
                0 <= j < parts@.len() ==> #[trigger] parts@[j]@ == split_on(s@.take(i as int), sep)[j],
            cur@ == split_on(s@.take(i as int), sep).last(),
        decreases s@.len() - i,
    {
        let ghost before = s@.take(i as int);
        proof {
            assert(s@.take(i + 1).drop_last() =~= before);
            lemma_split_nonempty(before, sep);
        }
        if s[i] == sep {
            let done = cur;
            parts.push(done);
            cur = Vec::new();
        } else {
            cur.push(s[i]);
        }
        i = i + 1;
    }
    parts.push(cur);
    proof {
        assert(s@.take(s@.len() as int) =~= s@);
    }
    parts
}

/// The value of the decimal digits `s`, if there is at least one, all are
/// digits and the value is at most `max`.
pub fn parse_decimal(s: &[u8], max: u32) -> (r: Option<u32>)
    requires
        max <= 0xffff,
    ensures
        r == (if s@.len() > 0 && all_digits(s@) && decimal_value(s@) <= max {
            Some(decimal_value(s@) as u32)
        } else {
            None::<u32>
        }),
{
    if s.len() == 0 {
        return None;
    }
    let mut value: u32 = 0;
    let mut i: usize = 0;
    proof {
        assert(s@.take(0) =~= Seq::<u8>::empty());
    }
    while i < s.len()
        invariant
            i <= s@.len(),
            max <= 0xffff,
            all_digits(s@.take(i as int)),
            value == decimal_value(s@.take(i as int)),
            value <= max,
        decreases s@.len() - i,
    {
        let b = s[i];
        proof {
            assert(s@.take(i + 1).drop_last() =~= s@.take(i as int));
        }
        if b < 48 || b > 57 {
            assert(!is_digit(s@[i as int]));
            return None;
        }
        let next = value * 10 + (b - 48) as u32;
        if next > max {
            proof {
                assert(all_digits(s@.take(i + 1)));
                if all_digits(s@) {
                    assert(s@.take(i + 1) =~= s@.take(i + 1));
                    lemma_decimal_prefix_le(s@, i + 1);
                }
            }
            return None;
        }
        value = next;
        i = i + 1;
    }
    proof {
        assert(s@.take(s@.len() as int) =~= s@);
    }
    Some(value)
}

/// The value of the hexadecimal digit `b`, or `None` where it is none.
pub fn hex_digit_value(b: u8) -> (r: Option<u8>)
    ensures
        r == (if is_hex_digit(b) {
            Some(hex_value(b) as u8)
        } else {
            None::<u8>
        }),
{
    if 48 <= b && b <= 57 {
        Some(b - 48)
    } else if 97 <= b && b <= 102 {
        Some(b - 87)
    } else if 65 <= b && b <= 70 {
        Some(b - 55)
    } else {
        None
    }
}

/// The one-character text of a digit below sixteen.
pub fn digit_str(d: u8) -> (r: &'static str)
    requires
        d < 16,
    ensures
        r@ == seq![digit_char(d as int)],
{
    proof {
        reveal_strlit("0");
        reveal_strlit("1");
        reveal_strlit("2");
        reveal_strlit("3");
        reveal_strlit("4");
        reveal_strlit("5");
        reveal_strlit("6");
        reveal_strlit("7");
        reveal_strlit("8");
        reveal_strlit("9");
        reveal_strlit("a");
        reveal_strlit("b");
        reveal_strlit("c");
        reveal_strlit("d");
        reveal_strlit("e");
        reveal_strlit("f");
    }
    let r = match d {
        0 => "0",
        1 => "1",
        2 => "2",
        3 => "3",
        4 => "4",
        5 => "5",
        6 => "6",
        7 => "7",
        8 => "8",
        9 => "9",
        10 => "a",
        11 => "b",
        12 => "c",
        13 => "d",
        14 => "e",
        _ => "f",
    };
    r
}

/// Appends the decimal text of `n` to `out`.
pub fn push_decimal(out: &mut String, n: u16)
    ensures
        final(out)@ == old(out)@ + decimal_text(n as nat),
    decreases n,
{
    if n >= 10 {
        push_decimal(out, n / 10);
    }
    let d = digit_str((n % 10) as u8);
    out.append(d);
    assert(out@ =~= old(out)@ + decimal_text(n as nat));
}

/// Appends the two lower-case hexadecimal digits of `b` to `out`.
pub fn push_hex2(out: &mut String, b: u8)
    ensures
        final(out)@ == old(out)@ + hex2_text(b),
{
    out.append(digit_str(b / 16));
    out.append(digit_str(b % 16));
    assert(out@ =~= old(out)@ + hex2_text(b));
}

} // verus!
