//! The decimal and hexadecimal notations of the text form.

use vstd::prelude::*;

verus! {

/// Whether `c` is one of the ten decimal digits.
pub open spec fn is_digit(c: char) -> bool {
    '0' <= c <= '9'
}

/// The number that the decimal digit `c` stands for.
pub open spec fn digit_value(c: char) -> nat {
    (c as int - '0' as int) as nat
}

/// The decimal digit that stands for `d`, for `d` below ten.
pub open spec fn digit_char(d: nat) -> char {
    seq!['0', '1', '2', '3', '4', '5', '6', '7', '8', '9'][d as int]
}

/// Whether `s` is made of decimal digits only.
pub open spec fn all_digits(s: Seq<char>) -> bool {
    forall|i: int| 0 <= i < s.len() ==> is_digit(#[trigger] s[i])
}

/// The number that the digits of `s` spell, most significant first.
pub open spec fn digits_value(s: Seq<char>) -> nat
    decreases s.len(),
{
    if s.len() == 0 {
        0
    } else {
        10 * digits_value(s.drop_last()) + digit_value(s.last())
    }
}

/// The number that `s` denotes as an unsigned decimal literal: one or more
/// digits, leading zeros allowed, and a value of at most `max`.
pub open spec fn unsigned_value(s: Seq<char>, max: nat) -> Option<nat> {
    if s.len() > 0 && all_digits(s) && digits_value(s) <= max {
        Some(digits_value(s))
    } else {
        None
    }
}

/// The number that `s` denotes as a signed decimal literal: an optional `-`,
/// then one or more digits, and a value between `min` and `max`.
pub open spec fn signed_value(s: Seq<char>, min: int, max: int) -> Option<int> {
    if s.len() > 0 && s[0] == '-' {
        let digits = s.skip(1);
        if digits.len() > 0 && all_digits(digits) && min <= -(digits_value(digits) as int) <= max {
            Some(-(digits_value(digits) as int))
        } else {
            None
        }
    } else if s.len() > 0 && all_digits(s) && min <= digits_value(s) <= max {
        Some(digits_value(s) as int)
    } else {
        None
    }
}

/// The decimal notation of `n`, without leading zeros.
pub open spec fn decimal_text(n: nat) -> Seq<char>
    decreases n,
{
    if n < 10 {
        seq![digit_char(n)]
    } else {
        decimal_text(n / 10).push(digit_char(n % 10))
    }
}

/// The decimal notation of `n`, with a leading `-` where it is negative.
pub open spec fn signed_text(n: int) -> Seq<char> {
    if n < 0 {
        seq!['-'] + decimal_text((-n) as nat)
    } else {
        decimal_text(n as nat)
    }
}

/// The digits of a literal spell at least what any prefix of them spells.
pub proof fn lemma_digits_value_prefix(s: Seq<char>, k: int)
    requires
        all_digits(s),
        0 <= k <= s.len(),
    ensures
        digits_value(s.take(k)) <= digits_value(s),
    decreases s.len() - k,
{
    if k == s.len() {
        assert(s.take(k) =~= s);
    } else {
        lemma_digits_value_prefix(s, k + 1);
        let longer = s.take(k + 1);
        assert(longer.drop_last() =~= s.take(k));
        assert(is_digit(s[k]));
        assert(longer.last() == s[k]);
    }
}

/// The decimal notation of a number is a literal that denotes that number.
pub proof fn lemma_decimal_text_value(n: nat)
    ensures
        decimal_text(n).len() > 0,
        all_digits(decimal_text(n)),
        digits_value(decimal_text(n)) == n,
    decreases n,
{
    if n < 10 {
        let s = decimal_text(n);
        assert(s.drop_last() =~= Seq::<char>::empty());
        assert(digits_value(s.drop_last()) == 0);
        assert(s.last() == digit_char(n));
    } else {
        lemma_decimal_text_value(n / 10);
        let head = decimal_text(n / 10);
        let s = head.push(digit_char(n % 10));
        assert(s.drop_last() =~= head);
        assert(s.last() == digit_char(n % 10));
        assert forall|i: int| 0 <= i < s.len() implies is_digit(#[trigger] s[i]) by {
            if i < head.len() {
                assert(s[i] == head[i]);
            }
        }
    }
}

/// The signed notation of a number within `min` and `max` denotes that number.
pub proof fn lemma_signed_text_value(n: int, min: int, max: int)
    requires
        min <= n <= max,
    ensures
        signed_value(signed_text(n), min, max) == Some(n),
{
    if n < 0 {
        let digits = decimal_text((-n) as nat);
        lemma_decimal_text_value((-n) as nat);
        let s = seq!['-'] + digits;
        assert(s.skip(1) =~= digits);
        assert(s[0] == '-');
    } else {
        lemma_decimal_text_value(n as nat);
        let s = decimal_text(n as nat);
        assert(is_digit(s[0]));
    }
}

/// The one-character text of the decimal digit `d`.
fn digit_str(d: u8) -> (text: &'static str)
    requires
        d < 10,
    ensures
        text@ == seq![digit_char(d as nat)],
{
    proof {
        reveal_strlit("0");
        reveal_strlit("1");
        reveal_strlit("2");
        reveal_strlit("3");
        reveal_strlit("4");
        reveal_strlit("5");
        reveal_strlit("6");
        reveal_strlit("7");
        reveal_strlit("8");
        reveal_strlit("9");
    }
    let text = match d {
        0 => "0",
        1 => "1",
        2 => "2",
        3 => "3",
        4 => "4",
        5 => "5",
        6 => "6",
        7 => "7",
        8 => "8",
        _ => "9",
    };
    assert(text@ =~= seq![digit_char(d as nat)]);
    text
}

/// Writes `n` in decimal notation.
pub fn render_unsigned(n: u64) -> (text: String)
    ensures
        text@ == decimal_text(n as nat),
    decreases n,
{
    if n < 10 {
        String::from_str(digit_str(n as u8))
    } else {
        let mut text = render_unsigned(n / 10);
        text.append(digit_str((n % 10) as u8));
        assert(text@ =~= decimal_text(n as nat));
        text
    }
}

/// Writes `n` in decimal notation, with a leading `-` where it is negative.
pub fn render_signed(n: i64) -> (text: String)
    ensures
        text@ == signed_text(n as int),
{
    if n < 0 {
        proof {
            reveal_strlit("-");
        }
        let mut text = String::from_str("-");
        let magnitude: u64 = (-(n + 1)) as u64 + 1;
        let digits = render_unsigned(magnitude);
        text.append(digits.as_str());
        assert(text@ =~= signed_text(n as int));
        text
    } else {
        render_unsigned(n as u64)
    }
}

/// The text whose characters are the ASCII codes in `bytes`.
pub open spec fn ascii_text(bytes: Seq<u8>) -> Seq<char> {
    Seq::new(bytes.len(), |i: int| bytes[i] as char)
}

/// The bytes of `text`, where it holds ASCII characters only, and else
/// `None`.
pub fn ascii_bytes(text: &str) -> (bytes: Option<&[u8]>)
    ensures
        match bytes {
            Some(b) => vstd::utf8::is_ascii_chars(text@) && text@ == ascii_text(b@),
            None => !vstd::utf8::is_ascii_chars(text@),
        },
{
    if text.is_ascii() {
        let bytes = text.as_bytes();
        proof {
            vstd::string::is_ascii_spec_bytes(text);
            assert(text@ =~= ascii_text(bytes@)) by {
                assert forall|i: int| 0 <= i < text@.len() implies text@[i] == bytes@[i] as char by {
                    assert('\0' <= text@[i] <= '\u{7f}');
                    assert(bytes@[i] == text@[i] as u8);
                }
            }
        }
        Some(bytes)
    } else {
        None
    }
}

/// Text made of decimal digits holds ASCII characters only.
pub proof fn lemma_digits_are_ascii(s: Seq<char>)
    ensures
        all_digits(s) ==> vstd::utf8::is_ascii_chars(s),
{
    if all_digits(s) {
        assert forall|i: int| 0 <= i < s.len() implies '\0' <= #[trigger] s[i] <= '\u{7f}' by {
            assert(is_digit(s[i]));
        }
    }
}

/// Reads the bytes from `start` up to `end` as an unsigned decimal literal of
/// at most `max`.
fn parse_digits(bytes: &[u8], start: usize, end: usize, max: u64) -> (value: Option<u64>)
    requires
        start <= end <= bytes@.len(),
    ensures
        match value {
            Some(n) => unsigned_value(
                ascii_text(bytes@).subrange(start as int, end as int),
                max as nat,
            ) == Some(n as nat),
            None => unsigned_value(
                ascii_text(bytes@).subrange(start as int, end as int),
                max as nat,
            ) is None,
        },
{
    let ghost digits = ascii_text(bytes@).subrange(start as int, end as int);
    if start == end {
        return None;
    }
    let mut acc: u64 = 0;
    let mut i: usize = start;
    proof {
        assert(digits.take(0) =~= Seq::<char>::empty());
    }
    while i < end
        invariant
            start <= i <= end <= bytes@.len(),
            digits == ascii_text(bytes@).subrange(start as int, end as int),
            all_digits(digits.take(i - start)),
            acc == digits_value(digits.take(i - start)),
            acc <= max,
        decreases end - i,
    {
        let b = bytes[i];
        let ghost c = digits[i - start];
        let ghost longer = digits.take(i - start + 1);
        proof {
            assert(c == b as char);
            assert(longer.drop_last() =~= digits.take(i - start));
            assert(longer.last() == c);
        }
        if b < 48 || b > 57 {
            assert(!is_digit(c));
            return None;
        }
        assert(is_digit(c));
        let next: u128 = acc as u128 * 10 + (b - 48) as u128;
        assert(next == digits_value(longer));
        if next > max as u128 {
            proof {
                if all_digits(digits) {
                    lemma_digits_value_prefix(digits, i - start + 1);
                }
            }
            return None;
        }
        proof {
            assert forall|j: int| 0 <= j < longer.len() implies is_digit(#[trigger] longer[j]) by {
                if j < i - start {
                    assert(longer[j] == digits.take(i - start)[j]);
                }
            }
        }
        acc = next as u64;
        i += 1;
    }
    proof {
        assert(digits.take(i - start) =~= digits);
    }
    Some(acc)
}

/// Reads `text` as an unsigned decimal literal of at most `max`.
pub fn parse_unsigned(text: &str, max: u64) -> (value: Option<u64>)
    ensures
        match value {
            Some(n) => unsigned_value(text@, max as nat) == Some(n as nat),
            None => unsigned_value(text@, max as nat) is None,
        },
{
    match ascii_bytes(text) {
        Some(bytes) => {
            proof {
                assert(text@.subrange(0, text@.len() as int) =~= text@);
            }
            parse_digits(bytes, 0, bytes.len(), max)
        },
        None => {
            proof {
                lemma_digits_are_ascii(text@);
            }
            None
        },
    }
}

/// Reads `text` as a signed decimal literal between `-below` and `max`.
pub fn parse_signed(text: &str, below: u64, max: u64) -> (value: Option<i64>)
    requires
        below <= 0x8000_0000_0000_0000,
        max <= 0x7fff_ffff_ffff_ffff,
    ensures
        match value {
            Some(n) => signed_value(text@, -(below as int), max as int) == Some(n as int),
            None => signed_value(text@, -(below as int), max as int) is None,
        },
{
    match ascii_bytes(text) {
        Some(bytes) => {
            if bytes.len() > 0 && bytes[0] == 45 {
                assert(text@[0] == '-');
                proof {
                    assert(text@.subrange(1, text@.len() as int) =~= text@.skip(1));
                }
                match parse_digits(bytes, 1, bytes.len(), below) {
                    Some(n) => {
                        if n == 0x8000_0000_0000_0000 {
                            Some(i64::MIN)
                        } else {
                            Some(-(n as i64))
                        }
                    },
                    None => None,
                }
            } else {
                proof {
                    assert(text@.subrange(0, text@.len() as int) =~= text@);
                    if text@.len() > 0 {
                        assert(text@[0] == bytes@[0] as char);
                    }
                }
                match parse_digits(bytes, 0, bytes.len(), max) {
                    Some(n) => Some(n as i64),
                    None => None,
                }
            }
        },
        None => {
            proof {
                lemma_digits_are_ascii(text@);
                if text@.len() > 0 && text@[0] == '-' {
                    lemma_digits_are_ascii(text@.skip(1));
                    if vstd::utf8::is_ascii_chars(text@.skip(1)) {
                        assert forall|i: int| 0 <= i < text@.len() implies '\0' <= #[trigger] text@[i]
                            <= '\u{7f}' by {
                            if i > 0 {
                                assert(text@[i] == text@.skip(1)[i - 1]);
                            }
                        }
                    }
                }
            }
            None
        },
    }
}

/// The number that `s` denotes as a percentage: an unsigned decimal literal of
/// at most 255, with or without a `%` behind it.
pub open spec fn percent_value(s: Seq<char>) -> Option<nat> {
    if s.len() > 0 && s.last() == '%' {
        unsigned_value(s.drop_last(), 255)
    } else {
        unsigned_value(s, 255)
    }
}

/// The notation of the percentage `n`: its decimal notation and a `%`.
pub open spec fn percent_text(n: nat) -> Seq<char> {
    decimal_text(n).push('%')
}

/// The notation of a percentage of at most 255 denotes that percentage.
pub proof fn lemma_percent_text_value(n: nat)
    requires
        n <= 255,
    ensures
        percent_value(percent_text(n)) == Some(n),
{
    lemma_decimal_text_value(n);
    assert(percent_text(n).drop_last() =~= decimal_text(n));
}

/// Reads `text` as a percentage.
pub fn parse_percent(text: &str) -> (value: Option<u8>)
    ensures
        match value {
            Some(n) => percent_value(text@) == Some(n as nat),
            None => percent_value(text@) is None,
        },
{
    match ascii_bytes(text) {
        Some(bytes) => {
            let len = bytes.len();
            proof {
                assert(text@.subrange(0, len as int) =~= text@);
                if len > 0 {
                    assert(text@.last() == bytes@[len - 1] as char);
                    assert(text@.subrange(0, len - 1) =~= text@.drop_last());
                }
            }
            let end = if len > 0 && bytes[len - 1] == 37 {
                len - 1
            } else {
                len
            };
            match parse_digits(bytes, 0, end, 255) {
                Some(n) => Some(n as u8),
                None => None,
            }
        },
        None => {
            proof {
                lemma_digits_are_ascii(text@);
                if text@.len() > 0 && text@.last() == '%' {
                    let digits = text@.drop_last();
                    lemma_digits_are_ascii(digits);
                    if vstd::utf8::is_ascii_chars(digits) {
                        assert forall|i: int| 0 <= i < text@.len() implies '\0' <= #[trigger] text@[i]
                            <= '\u{7f}' by {
                            if i < digits.len() {
                                assert(text@[i] == digits[i]);
                            }
                        }
                    }
                }
            }
            None
        },
    }
}

/// The sixteen digits of upper-case hexadecimal notation.
pub open spec fn hex_digits() -> Seq<char> {
    seq!['0', '1', '2', '3', '4', '5', '6', '7', '8', '9', 'A', 'B', 'C', 'D', 'E', 'F']
}

/// Sixteen to the power `n`.
pub open spec fn pow16(n: nat) -> nat
    decreases n,
{
    if n == 0 {
        1
    } else {
        16 * pow16((n - 1) as nat)
    }
}

/// The `i`-th hexadecimal digit of `hash`, counted from the least significant.
pub open spec fn hex_digit_of(hash: u32, i: nat) -> char {
    hex_digits()[((hash as nat / pow16(i)) % 16) as int]
}

/// The eight hexadecimal digits of `hash`, most significant first.
pub open spec fn hash_digits(hash: u32) -> Seq<char> {
    Seq::new(8, |i: int| hex_digit_of(hash, (7 - i) as nat))
}

/// The text of a hash: its eight hexadecimal digits, most significant first,
/// in upper case and between angle brackets.
pub open spec fn hash_text(hash: u32) -> Seq<char> {
    seq!['<'] + hash_digits(hash) + seq!['>']
}

/// Whether `c` is a hexadecimal digit, in either case.
pub open spec fn is_hex_digit(c: char) -> bool {
    is_digit(c) || 'a' <= c <= 'f' || 'A' <= c <= 'F'
}

/// The number that the hexadecimal digit `c` stands for.
pub open spec fn hex_digit_value(c: char) -> nat {
    if is_digit(c) {
        digit_value(c)
    } else if 'a' <= c <= 'f' {
        (c as int - 'a' as int + 10) as nat
    } else {
        (c as int - 'A' as int + 10) as nat
    }
}

/// Whether `s` is made of hexadecimal digits only.
pub open spec fn all_hex_digits(s: Seq<char>) -> bool {
    forall|i: int| 0 <= i < s.len() ==> is_hex_digit(#[trigger] s[i])
}

/// The number that the hexadecimal digits of `s` spell, most significant first.
pub open spec fn hex_value(s: Seq<char>) -> nat
    decreases s.len(),
{
    if s.len() == 0 {
        0
    } else {
        16 * hex_value(s.drop_last()) + hex_digit_value(s.last())
    }
}

/// The hash that `s` denotes: eight hexadecimal digits between angle brackets,
/// or one to eight hexadecimal digits alone.
pub open spec fn hash_value(s: Seq<char>) -> Option<u32> {
    if s.len() == 10 && s[0] == '<' && s[9] == '>' && all_hex_digits(s.subrange(1, 9)) {
        Some(hex_value(s.subrange(1, 9)) as u32)
    } else if 1 <= s.len() <= 8 && all_hex_digits(s) {
        Some(hex_value(s) as u32)
    } else {
        None
    }
}

/// Up to eight hexadecimal digits spell a number that fits in 32 bits.
pub proof fn lemma_hex_value_bound(s: Seq<char>)
    requires
        all_hex_digits(s),
    ensures
        hex_value(s) < pow16(s.len()),
    decreases s.len(),
{
    if s.len() > 0 {
        lemma_hex_value_bound(s.drop_last());
        assert(is_hex_digit(s.last()));
    }
}

/// The text of a hash denotes that hash.
pub proof fn lemma_hash_text_value(hash: u32)
    ensures
        hash_value(hash_text(hash)) == Some(hash),
{
    let digits = hash_digits(hash);
    let s = hash_text(hash);
    assert(s.len() == 10);
    assert(s[0] == '<');
    assert(s[9] == '>');
    assert(s.subrange(1, 9) =~= digits);
    assert forall|i: int| 0 <= i < 8 implies is_hex_digit(#[trigger] digits[i]) by {
        let d = (hash as nat / pow16((7 - i) as nat)) % 16;
        assert(digits[i] == hex_digits()[d as int]);
        lemma_hex_digit_value(d);
    }
    assert(all_hex_digits(digits));
    assert(hex_value(digits) == hash as nat) by {
        lemma_hex_prefix_value(hash, 8);
        assert(digits.take(8) =~= digits);
        assert(pow16(0) == 1);
        assert(hex_value(digits.take(8)) == hash as nat / pow16(0));
    }
}

/// Each of the sixteen digits stands for its position among them.
proof fn lemma_hex_digit_value(d: nat)
    requires
        d < 16,
    ensures
        is_hex_digit(hex_digits()[d as int]),
        hex_digit_value(hex_digits()[d as int]) == d,
{
    let all = hex_digits();
    if d == 0 {
        assert(all[0] == '0');
    } else if d == 1 {
        assert(all[1] == '1');
    } else if d == 2 {
        assert(all[2] == '2');
    } else if d == 3 {
        assert(all[3] == '3');
    } else if d == 4 {
        assert(all[4] == '4');
    } else if d == 5 {
        assert(all[5] == '5');
    } else if d == 6 {
        assert(all[6] == '6');
    } else if d == 7 {
        assert(all[7] == '7');
    } else if d == 8 {
        assert(all[8] == '8');
    } else if d == 9 {
        assert(all[9] == '9');
    } else if d == 10 {
        assert(all[10] == 'A');
    } else if d == 11 {
        assert(all[11] == 'B');
    } else if d == 12 {
        assert(all[12] == 'C');
    } else if d == 13 {
        assert(all[13] == 'D');
    } else if d == 14 {
        assert(all[14] == 'E');
    } else {
        assert(all[15] == 'F');
    }
}

/// The first `k` digits of a hash's text spell the hash without its last
/// `8 - k` hexadecimal digits.
proof fn lemma_hex_prefix_value(hash: u32, k: nat)
    requires
        k <= 8,
    ensures
        hex_value(hash_digits(hash).take(k as int)) == hash as nat / pow16((8 - k) as nat),
    decreases k,
{
    let digits = hash_digits(hash);
    if k == 0 {
        assert(digits.take(0) =~= Seq::<char>::empty());
        assert(pow16(8) == 0x1_0000_0000) by {
            reveal_with_fuel(pow16, 9);
        }
        assert(hash as nat / 0x1_0000_0000 == 0);
    } else {
        lemma_hex_prefix_value(hash, (k - 1) as nat);
        let longer = digits.take(k as int);
        assert(longer.drop_last() =~= digits.take(k - 1));
        let shift = pow16((8 - k) as nat);
        let d = (hash as nat / shift) % 16;
        assert(longer.last() == digits[k - 1]);
        assert(digits[k - 1] == hex_digit_of(hash, (8 - k) as nat));
        assert(longer.last() == hex_digits()[d as int]);
        lemma_hex_digit_value(d);
        assert(pow16((9 - k) as nat) == 16 * shift);
        lemma_pow16_positive((8 - k) as nat);
        vstd::arithmetic::div_mod::lemma_div_denominator(hash as int, shift as int, 16);
        assert(shift * 16 == 16 * shift);
        assert(hash as nat / (16 * shift) == (hash as nat / shift) / 16);
        let q = hash as nat / shift;
        assert(q == 16 * (q / 16) + q % 16) by {
            vstd::arithmetic::div_mod::lemma_fundamental_div_mod(q as int, 16);
        }
        assert(hex_value(longer) == 16 * hex_value(longer.drop_last()) + hex_digit_value(
            longer.last(),
        ));
    }
}

/// Powers of sixteen are positive.
proof fn lemma_pow16_positive(n: nat)
    ensures
        pow16(n) > 0,
    decreases n,
{
    if n > 0 {
        lemma_pow16_positive((n - 1) as nat);
    }
}

/// Powers of sixteen up to the eighth fit in 33 bits.
proof fn lemma_pow16_bound(n: nat)
    requires
        n <= 8,
    ensures
        pow16(n) <= 0x1_0000_0000,
{
    reveal_with_fuel(pow16, 9);
}

/// Text that denotes a hash holds ASCII characters only.
pub proof fn lemma_hash_text_is_ascii(s: Seq<char>)
    ensures
        hash_value(s) is Some ==> vstd::utf8::is_ascii_chars(s),
{
    if hash_value(s) is Some {
        assert forall|i: int| 0 <= i < s.len() implies '\0' <= #[trigger] s[i] <= '\u{7f}' by {
            if s.len() == 10 && s[0] == '<' && s[9] == '>' && all_hex_digits(s.subrange(1, 9)) {
                if 1 <= i < 9 {
                    assert(s[i] == s.subrange(1, 9)[i - 1]);
                    assert(is_hex_digit(s.subrange(1, 9)[i - 1]));
                }
            } else {
                assert(is_hex_digit(s[i]));
            }
        }
    }
}

/// Reads the bytes from `start` up to `end` as hexadecimal digits.
fn parse_hex_digits(bytes: &[u8], start: usize, end: usize) -> (value: Option<u32>)
    requires
        start <= end <= bytes@.len(),
        end - start <= 8,
    ensures
        match value {
            Some(n) => {
                &&& all_hex_digits(ascii_text(bytes@).subrange(start as int, end as int))
                &&& n == hex_value(ascii_text(bytes@).subrange(start as int, end as int))
            },
            None => !all_hex_digits(ascii_text(bytes@).subrange(start as int, end as int)),
        },
{
    let ghost digits = ascii_text(bytes@).subrange(start as int, end as int);
    let mut acc: u64 = 0;
    let mut i: usize = start;
    proof {
        assert(digits.take(0) =~= Seq::<char>::empty());
    }
    while i < end
        invariant
            start <= i <= end <= bytes@.len(),
            end - start <= 8,
            digits == ascii_text(bytes@).subrange(start as int, end as int),
            all_hex_digits(digits.take(i - start)),
            acc == hex_value(digits.take(i - start)),
        decreases end - i,
    {
        let b = bytes[i];
        let ghost c = digits[i - start];
        let ghost longer = digits.take(i - start + 1);
        proof {
            assert(c == b as char);
            assert(longer.drop_last() =~= digits.take(i - start));
            assert(longer.last() == c);
            lemma_hex_value_bound(digits.take(i - start));
            lemma_pow16_bound((i - start) as nat);
        }
        let d: u8 = if 48 <= b && b <= 57 {
            b - 48
        } else if 97 <= b && b <= 102 {
            b - 87
        } else if 65 <= b && b <= 70 {
            b - 55
        } else {
            assert(!is_hex_digit(c));
            return None;
        };
        assert(is_hex_digit(c) && d == hex_digit_value(c));
        proof {
            assert forall|j: int| 0 <= j < longer.len() implies is_hex_digit(
                #[trigger] longer[j],
            ) by {
                if j < i - start {
                    assert(longer[j] == digits.take(i - start)[j]);
                }
            }
        }
        acc = acc * 16 + d as u64;
        i += 1;
    }
    proof {
        assert(digits.take(i - start) =~= digits);
        lemma_hex_value_bound(digits);
        lemma_pow16_bound(digits.len());
    }
    Some(acc as u32)
}

/// Reads `text` as a hash: eight hexadecimal digits between angle brackets, or
/// one to eight hexadecimal digits alone.
pub fn parse_hash(text: &str) -> (value: Option<u32>)
    ensures
        value == hash_value(text@),
{
    match ascii_bytes(text) {
        Some(bytes) => {
            let len = bytes.len();
            proof {
                if len == 10 {
                    assert(text@[0] == bytes@[0] as char);
                    assert(text@[9] == bytes@[9] as char);
                }
                assert(text@.subrange(0, len as int) =~= text@);
            }
            if len == 10 && bytes[0] == 60 && bytes[9] == 62 {
                parse_hex_digits(bytes, 1, 9)
            } else if 1 <= len && len <= 8 {
                parse_hex_digits(bytes, 0, len)
            } else {
                None
            }
        },
        None => {
            proof {
                lemma_hash_text_is_ascii(text@);
            }
            None
        },
    }
}

/// Whether the first `k` characters of `body` are the whole part of a real
/// literal, and what follows them its fraction.
pub open spec fn real_parts(body: Seq<char>, k: int) -> bool {
    &&& 0 < k <= body.len()
    &&& all_digits(body.take(k))
    &&& k == body.len() || (body[k] == '.' && k + 1 < body.len() && all_digits(body.skip(k + 1)))
}

/// Whether `s` is a real literal: an optional `-`, one or more digits, and
/// optionally a `.` followed by one or more digits.
pub open spec fn is_real_literal(s: Seq<char>) -> bool {
    exists|k: int| real_parts(unsigned_part(s), k)
}

/// What follows the sign of a literal: `s` without its leading `-`, if it has one.
pub open spec fn unsigned_part(s: Seq<char>) -> Seq<char> {
    if s.len() > 0 && s[0] == '-' {
        s.skip(1)
    } else {
        s
    }
}

/// The position of the first byte from `start` on that is no decimal digit.
fn skip_digits(bytes: &[u8], start: usize) -> (end: usize)
    requires
        start <= bytes@.len(),
    ensures
        start <= end <= bytes@.len(),
        all_digits(ascii_text(bytes@).subrange(start as int, end as int)),
        end < bytes@.len() ==> !is_digit(ascii_text(bytes@)[end as int]),
{
    let mut i: usize = start;
    while i < bytes.len() && 48 <= bytes[i] && bytes[i] <= 57
        invariant
            start <= i <= bytes@.len(),
            all_digits(ascii_text(bytes@).subrange(start as int, i as int)),
        decreases bytes@.len() - i,
    {
        proof {
            let longer = ascii_text(bytes@).subrange(start as int, i + 1);
            assert forall|j: int| 0 <= j < longer.len() implies is_digit(#[trigger] longer[j]) by {
                if j < i - start {
                    assert(longer[j] == ascii_text(bytes@).subrange(start as int, i as int)[j]);
                }
            }
        }
        i += 1;
    }
    i
}

/// Tells whether `text` is a real literal.
pub fn check_real_literal(text: &str) -> (ok: bool)
    ensures
        ok == is_real_literal(text@),
{
    match ascii_bytes(text) {
        Some(bytes) => {
            let len = bytes.len();
            let start: usize = if len > 0 && bytes[0] == 45 {
                1
            } else {
                0
            };
            let ghost body = text@.skip(start as int);
            proof {
                if len > 0 {
                    assert(text@[0] == bytes@[0] as char);
                }
                assert(text@.skip(0) =~= text@);
                assert(body == unsigned_part(text@));
            }
            let dot = skip_digits(bytes, start);
            let ghost k = dot - start;
            proof {
                assert(body.take(k) =~= text@.subrange(start as int, dot as int));
            }
            let ok = if dot == start {
                false
            } else if dot == len {
                true
            } else if bytes[dot] != 46 || dot + 1 == len {
                false
            } else {
                let end = skip_digits(bytes, dot + 1);
                proof {
                    assert(body.skip(k + 1).take(end - dot - 1) =~= text@.subrange(
                        dot + 1,
                        end as int,
                    ));
                    if end == len {
                        assert(body.skip(k + 1) =~= text@.subrange(dot + 1, end as int));
                    } else {
                        assert(body.skip(k + 1)[end - dot - 1] == text@[end as int]);
                    }
                }
                end == len
            };
            proof {
                if dot < len {
                    assert(body[k] == text@[dot as int]);
                    assert(body[k] == bytes@[dot as int] as char);
                }
                if ok {
                    assert(real_parts(body, k));
                } else {
                    assert forall|j: int| !real_parts(body, j) by {
                        if real_parts(body, j) {
                            if j < k {
                                assert(body.take(k)[j] == body[j]);
                                assert(is_digit(body.take(k)[j]));
                            } else if j > k {
                                assert(body.take(j)[k] == body[k]);
                                assert(is_digit(body.take(j)[k]));
                            }
                        }
                    }
                }
            }
            ok
        },
        None => {
            proof {
                lemma_real_literal_is_ascii(text@);
            }
            false
        },
    }
}

/// A real literal holds ASCII characters only.
pub proof fn lemma_real_literal_is_ascii(s: Seq<char>)
    ensures
        is_real_literal(s) ==> vstd::utf8::is_ascii_chars(s),
{
    if is_real_literal(s) {
        let start: int = if s.len() > 0 && s[0] == '-' {
            1
        } else {
            0
        };
        let body = s.skip(start);
        assert(s.skip(0) =~= s);
        assert(body == unsigned_part(s));
        let k = choose|k: int| real_parts(body, k);
        assert forall|i: int| 0 <= i < s.len() implies '\0' <= #[trigger] s[i] <= '\u{7f}' by {
            if i >= start {
                let j = i - start;
                assert(s[i] == body[j]);
                if j < k {
                    assert(body.take(k)[j] == body[j]);
                    assert(is_digit(body.take(k)[j]));
                } else if j > k {
                    assert(body.skip(k + 1)[j - k - 1] == body[j]);
                    assert(is_digit(body.skip(k + 1)[j - k - 1]));
                }
            }
        }
    }
}

} // verus!
