//! Text as it appears in message heads: ASCII literals, numbers, case and
//! surrounding whitespace.
use vstd::prelude::*;
use vstd::slice::slice_subrange;
use vstd::string::*;
use vstd::utf8::{decode_utf8, valid_utf8};

verus! {

/// Carriage return.
pub const CR: u8 = 13;

/// Line feed.
pub const LF: u8 = 10;

/// Horizontal tab.
pub const HTAB: u8 = 9;

/// Space.
pub const SP: u8 = 32;

/// The characters of an ASCII string, as bytes.
pub open spec fn ascii(s: &str) -> Seq<u8> {
    Seq::new(s@.len(), |i: int| s@[i] as u8)
}

/// The end of a line.
pub open spec fn crlf() -> Seq<u8> {
    seq![CR, LF]
}

/// The bytes of an ASCII string.
pub fn ascii_bytes(s: &str) -> (b: &[u8])
    requires
        is_ascii(s),
    ensures
        b@ == ascii(s),
{
    proof {
        is_ascii_spec_bytes(s);
    }
    let b = s.as_bytes();
    assert(b@ =~= ascii(s));
    b
}

/// Append `tail` to `v`.
pub fn append(v: &mut Vec<u8>, tail: &[u8])
    ensures
        final(v)@ == old(v)@ + tail@,
{
    v.extend_from_slice(tail);
    assert(v@ =~= old(v)@ + tail@);
}

/// Append the end of a line to `v`.
pub fn append_crlf(v: &mut Vec<u8>)
    ensures
        final(v)@ == old(v)@ + crlf(),
{
    v.push(CR);
    v.push(LF);
    assert(v@ =~= old(v)@ + crlf());
}

/// Whether two byte strings are the same.
pub fn same_bytes(a: &[u8], b: &[u8]) -> (r: bool)
    ensures
        r == (a@ == b@),
{
    if a.len() != b.len() {
        return false;
    }
    let mut i: usize = 0;
    while i < a.len()
        invariant
            a@.len() == b@.len(),
            i <= a@.len(),
            forall|j: int| 0 <= j < i ==> a@[j] == b@[j],
        decreases a@.len() - i,
    {
        if a[i] != b[i] {
            return false;
        }
        i = i + 1;
    }
    assert(a@ =~= b@);
    true
}

/// The lower-case form of an ASCII letter; any other byte as it is.
pub open spec fn lower(b: u8) -> u8 {
    if 65 <= b <= 90 {
        (b + 32) as u8
    } else {
        b
    }
}

/// Whether two byte strings are the same up to the case of ASCII letters.
pub open spec fn same_ignoring_case(a: Seq<u8>, b: Seq<u8>) -> bool {
    a.len() == b.len() && forall|i: int| 0 <= i < a.len() ==> lower(#[trigger] a[i]) == lower(b[i])
}

fn to_lower(b: u8) -> (r: u8)
    ensures
        r == lower(b),
{
    if b >= 65 && b <= 90 {
        b + 32
    } else {
        b
    }
}

/// Whether two byte strings are the same up to the case of ASCII letters.
pub fn eq_ignore_ascii_case(a: &[u8], b: &[u8]) -> (r: bool)
    ensures
        r == same_ignoring_case(a@, b@),
{
    if a.len() != b.len() {
        return false;
    }
    let mut i: usize = 0;
    while i < a.len()
        invariant
            a@.len() == b@.len(),
            i <= a@.len(),
            forall|j: int| 0 <= j < i ==> lower(#[trigger] a@[j]) == lower(b@[j]),
        decreases a@.len() - i,
    {
        if to_lower(a[i]) != to_lower(b[i]) {
            assert(lower(a@[i as int]) != lower(b@[i as int]));
            return false;
        }
        i = i + 1;
    }
    true
}

/// ASCII whitespace: tab, line feed, form feed, carriage return and space.
pub open spec fn is_space(b: u8) -> bool {
    b == HTAB || b == LF || b == 12 || b == CR || b == SP
}

/// `s` without the whitespace that it starts with.
pub open spec fn trim_start(s: Seq<u8>) -> Seq<u8>
    decreases s.len(),
{
    if s.len() > 0 && is_space(s[0]) {
        trim_start(s.skip(1))
    } else {
        s
    }
}

/// `s` without the whitespace that it ends with.
pub open spec fn trim_end(s: Seq<u8>) -> Seq<u8>
    decreases s.len(),
{
    if s.len() > 0 && is_space(s.last()) {
        trim_end(s.drop_last())
    } else {
        s
    }
}

/// `s` without the whitespace around it.
pub open spec fn trimmed(s: Seq<u8>) -> Seq<u8> {
    trim_end(trim_start(s))
}

fn space(b: u8) -> (r: bool)
    ensures
        r == is_space(b),
{
    b == HTAB || b == LF || b == 12 || b == CR || b == SP
}

/// `s` without the whitespace around it.
pub fn trim_ascii(s: &[u8]) -> (r: &[u8])
    ensures
        r@ == trimmed(s@),
{
    let mut from: usize = 0;
    assert(s@.skip(0) =~= s@);
    while from < s.len() && space(s[from])
        invariant
            from <= s@.len(),
            trim_start(s@) == trim_start(s@.skip(from as int)),
        decreases s@.len() - from,
    {
        assert(s@.skip(from as int).skip(1) =~= s@.skip(from + 1));
        from = from + 1;
    }
    let mut to: usize = s.len();
    assert(s@.subrange(from as int, to as int) =~= s@.skip(from as int));
    while from < to && space(s[to - 1])
        invariant
            from <= to <= s@.len(),
            trimmed(s@) == trim_end(s@.subrange(from as int, to as int)),
        decreases to,
    {
        assert(s@.subrange(from as int, to as int).drop_last() =~= s@.subrange(
            from as int,
            to - 1,
        ));
        to = to - 1;
    }
    assert(from < to ==> s@.subrange(from as int, to as int).last() == s@[to - 1]);
    slice_subrange(s, from, to)
}

/// Whether `b` is a decimal digit.
pub open spec fn is_digit(b: u8) -> bool {
    48 <= b <= 57
}

/// Whether every byte of `s` is a decimal digit.
pub open spec fn all_digits(s: Seq<u8>) -> bool {
    forall|i: int| 0 <= i < s.len() ==> is_digit(#[trigger] s[i])
}

/// The number that a string of decimal digits writes.
pub open spec fn decimal_value(s: Seq<u8>) -> nat
    decreases s.len(),
{
    if s.len() == 0 {
        0
    } else {
        (decimal_value(s.drop_last()) * 10 + (s.last() - 48)) as nat
    }
}

/// The `u64` that a text writes: decimal digits, at least one, after an
/// optional plus sign.
pub open spec fn u64_of(s: Seq<u8>) -> Option<u64> {
    let digits = if s.len() > 0 && s[0] == '+' as u8 {
        s.skip(1)
    } else {
        s
    };
    if digits.len() > 0 && all_digits(digits) && decimal_value(digits) <= u64::MAX {
        Some(decimal_value(digits) as u64)
    } else {
        None
    }
}

proof fn lemma_decimal_prefix(s: Seq<u8>, n: int)
    requires
        0 <= n <= s.len(),
        all_digits(s),
    ensures
        decimal_value(s.take(n)) <= decimal_value(s),
    decreases s.len(),
{
    if n == s.len() {
        assert(s.take(n) =~= s);
    } else {
        assert(s.drop_last().take(n) =~= s.take(n));
        assert(is_digit(s.last()));
        lemma_decimal_prefix(s.drop_last(), n);
    }
}

/// The `u64` that a text writes.
pub fn parse_u64(s: &[u8]) -> (r: Option<u64>)
    ensures
        r == u64_of(s@),
{
    let from: usize = if s.len() > 0 && s[0] == '+' as u8 {
        1
    } else {
        0
    };
    let ghost digits = s@.skip(from as int);
    assert(s@.skip(0) =~= s@);
    if from == s.len() {
        return None;
    }
    let mut i: usize = from;
    let mut value: u64 = 0;
    assert(digits.take(0).len() == 0);
    while i < s.len()
        invariant
            from <= i <= s@.len(),
            from == 0 || from == 1,
            digits == s@.skip(from as int),
            value == decimal_value(digits.take(i - from)),
            all_digits(digits.take(i - from)),
            u64_of(s@) == (if digits.len() > 0 && all_digits(digits) && decimal_value(digits)
                <= u64::MAX {
                Some(decimal_value(digits) as u64)
            } else {
                None
            }),
        decreases s@.len() - i,
    {
        let b: u8 = s[i];
        assert(digits[i - from] == b);
        if b < 48 || b > 57 {
            assert(!is_digit(digits[i - from]));
            return None;
        }
        let ghost next = digits.take(i - from + 1);
        assert(next.drop_last() =~= digits.take(i - from));
        assert(next.last() == b);
        assert(decimal_value(next) == decimal_value(digits.take(i - from)) * 10 + (b - 48));
        proof {
            if all_digits(digits) {
                lemma_decimal_prefix(digits, i - from + 1);
            }
        }
        let d: u64 = (b - 48) as u64;
        if value > u64::MAX / 10 {
            return None;
        }
        if value * 10 > u64::MAX - d {
            return None;
        }
        assert forall|j: int| 0 <= j < next.len() implies is_digit(#[trigger] next[j]) by {
            if j < i - from {
                assert(digits.take(i - from)[j] == next[j]);
            }
        }
        value = value * 10 + d;
        i = i + 1;
    }
    assert(digits.take(i - from) =~= digits);
    Some(value)
}

/// The digit for a value below sixteen, in lower case.
pub open spec fn digit(v: nat) -> u8 {
    if v < 10 {
        (48 + v) as u8
    } else {
        (87 + v) as u8
    }
}

/// A number written in decimal, without leading zeros.
pub open spec fn decimal(n: nat) -> Seq<u8>
    decreases n,
{
    if n < 10 {
        seq![digit(n)]
    } else {
        decimal(n / 10).push(digit(n % 10))
    }
}

/// A number written in hexadecimal, without leading zeros.
pub open spec fn hex(n: nat) -> Seq<u8>
    decreases n,
{
    if n < 16 {
        seq![digit(n)]
    } else {
        hex(n / 16).push(digit(n % 16))
    }
}

/// A number written in decimal.
pub fn decimal_bytes(n: u64) -> (r: Vec<u8>)
    ensures
        r@ == decimal(n as nat),
    decreases n,
{
    let mut r: Vec<u8> = if n < 10 {
        Vec::new()
    } else {
        decimal_bytes(n / 10)
    };
    let d: u8 = (n % 10) as u8;
    r.push(48 + d);
    assert(r@ =~= decimal(n as nat));
    r
}

/// A number written in hexadecimal.
pub fn hex_bytes(n: u64) -> (r: Vec<u8>)
    ensures
        r@ == hex(n as nat),
    decreases n,
{
    let mut r: Vec<u8> = if n < 16 {
        Vec::new()
    } else {
        hex_bytes(n / 16)
    };
    let d: u8 = (n % 16) as u8;
    r.push(
        if d < 10 {
            48 + d
        } else {
            87 + d
        },
    );
    assert(r@ =~= hex(n as nat));
    r
}

/// A number written in decimal is made of digits, has at least one, and is
/// read back as the same number.
pub proof fn decimal_round_trip(n: nat)
    ensures
        decimal(n).len() > 0,
        all_digits(decimal(n)),
        decimal_value(decimal(n)) == n,
        n <= u64::MAX ==> u64_of(decimal(n)) == Some(n as u64),
    decreases n,
{
    if n < 10 {
        let s = decimal(n);
        assert(s =~= seq![digit(n)]);
        assert(s.drop_last().len() == 0);
        assert(decimal_value(s.drop_last()) == 0);
        assert(s.last() == digit(n));
    } else {
        decimal_round_trip(n / 10);
        let s = decimal(n);
        assert(s.drop_last() =~= decimal(n / 10));
        assert forall|i: int| 0 <= i < s.len() implies is_digit(#[trigger] s[i]) by {
            if i < s.len() - 1 {
                assert(s[i] == decimal(n / 10)[i]);
            }
        }
    }
    assert(is_digit(decimal(n)[0]));
}

/// A number written in decimal has no whitespace around it.
pub proof fn decimal_is_trimmed(n: nat)
    ensures
        trimmed(decimal(n)) == decimal(n),
{
    decimal_round_trip(n);
    assert(is_digit(decimal(n)[0]));
    assert(is_digit(decimal(n).last()));
}

/// Sixteen to the power of `k`.
spec fn sixteens(k: nat) -> nat
    decreases k,
{
    if k == 0 {
        1
    } else {
        16 * sixteens((k - 1) as nat)
    }
}

proof fn lemma_hex_length(n: nat, k: nat)
    requires
        k >= 1,
        n < sixteens(k),
    ensures
        1 <= hex(n).len() <= k,
    decreases k,
{
    reveal_with_fuel(sixteens, 2);
    if n >= 16 {
        lemma_hex_length(n / 16, (k - 1) as nat);
    }
}

/// A hexadecimal numeral of a `u64` has one to sixteen digits.
pub proof fn hex_length(n: nat)
    requires
        n <= u64::MAX,
    ensures
        1 <= hex(n).len() <= 16,
{
    reveal_with_fuel(sixteens, 17);
    lemma_hex_length(n, 16);
}

/// Whether `b` is a hexadecimal digit, in either case.
pub open spec fn is_hex_digit(b: u8) -> bool {
    is_digit(b) || 97 <= b <= 102 || 65 <= b <= 70
}

/// The number that a hexadecimal digit stands for.
pub open spec fn hex_digit_value(b: u8) -> nat {
    if b >= 97 {
        (b - 87) as nat
    } else if b >= 65 {
        (b - 55) as nat
    } else {
        (b - 48) as nat
    }
}

/// Whether every byte of `s` is a hexadecimal digit.
pub open spec fn all_hex_digits(s: Seq<u8>) -> bool {
    forall|i: int| 0 <= i < s.len() ==> is_hex_digit(#[trigger] s[i])
}

/// The number that a string of hexadecimal digits writes.
pub open spec fn hex_value(s: Seq<u8>) -> nat
    decreases s.len(),
{
    if s.len() == 0 {
        0
    } else {
        hex_value(s.drop_last()) * 16 + hex_digit_value(s.last())
    }
}

/// A number written in hexadecimal is made of digits, and is read back as the
/// same number.
pub proof fn hex_round_trip(n: nat)
    ensures
        all_hex_digits(hex(n)),
        hex_value(hex(n)) == n,
    decreases n,
{
    let s = hex(n);
    if n < 16 {
        assert(s.drop_last().len() == 0);
        assert(hex_value(s.drop_last()) == 0);
        assert(s.last() == digit(n));
    } else {
        hex_round_trip(n / 16);
        assert(s.drop_last() =~= hex(n / 16));
        assert forall|i: int| 0 <= i < s.len() implies is_hex_digit(#[trigger] s[i]) by {
            if i < s.len() - 1 {
                assert(s[i] == hex(n / 16)[i]);
            }
        }
    }
}

/// What `String::from_utf8_lossy` makes of a byte string.
pub uninterp spec fn lossy_text(bytes: Seq<u8>) -> Seq<char>;

/// `String::from_utf8_lossy`: valid UTF-8 is decoded, and invalid sequences
/// become replacement characters.
#[verifier::external_body]
pub(crate) fn from_utf8_lossy(bytes: &[u8]) -> (s: String)
    ensures
        s@ == lossy_text(bytes@),
        valid_utf8(bytes@) ==> s@ == decode_utf8(bytes@),
{
    String::from_utf8_lossy(bytes).into_owned()
}

/// Names are the same exactly where, byte for byte, they are equal or the two cases of
/// one ASCII letter.
pub proof fn only_case_is_ignored(a: Seq<u8>, b: Seq<u8>)
    ensures
        same_ignoring_case(a, b) <==> a.len() == b.len() && forall|i: int|
            0 <= i < a.len() ==> (#[trigger] a[i] == b[i] || 65 <= a[i] <= 90 && b[i] == a[i] + 32
                || 65 <= b[i] <= 90 && a[i] == b[i] + 32),
{
    if a.len() == b.len() {
        assert forall|i: int| 0 <= i < a.len() implies (lower(#[trigger] a[i]) == lower(b[i])) == (
        a[i] == b[i] || 65 <= a[i] <= 90 && b[i] == a[i] + 32 || 65 <= b[i] <= 90 && a[i] == b[i]
            + 32) by {}
    }
}

/// Tab, line feed, form feed, carriage return or space.
spec fn is_one_of_the_spaces(b: u8) -> bool {
    b == 9 || b == 10 || b == 12 || b == 13 || b == 32
}

proof fn lemma_trim_start(s: Seq<u8>) -> (i: int)
    ensures
        0 <= i <= s.len(),
        trim_start(s) == s.skip(i),
        forall|k: int| 0 <= k < i ==> is_one_of_the_spaces(#[trigger] s[k]),
        i < s.len() ==> !is_one_of_the_spaces(s[i]),
    decreases s.len(),
{
    if s.len() > 0 && is_space(s[0]) {
        let i = lemma_trim_start(s.skip(1));
        assert(s.skip(1).skip(i) =~= s.skip(i + 1));
        assert forall|k: int| 0 <= k < i + 1 implies is_one_of_the_spaces(#[trigger] s[k]) by {
            if k > 0 {
                assert(s.skip(1)[k - 1] == s[k]);
            }
        }
        i + 1
    } else {
        assert(s.skip(0) =~= s);
        0
    }
}

proof fn lemma_trim_end(s: Seq<u8>) -> (j: int)
    ensures
        0 <= j <= s.len(),
        trim_end(s) == s.take(j),
        forall|k: int| j <= k < s.len() ==> is_one_of_the_spaces(#[trigger] s[k]),
        j > 0 ==> !is_one_of_the_spaces(s[j - 1]),
    decreases s.len(),
{
    if s.len() > 0 && is_space(s.last()) {
        let j = lemma_trim_end(s.drop_last());
        assert(s.drop_last().take(j) =~= s.take(j));
        assert forall|k: int| j <= k < s.len() implies is_one_of_the_spaces(#[trigger] s[k]) by {
            if k < s.len() - 1 {
                assert(s.drop_last()[k] == s[k]);
            }
        }
        j
    } else {
        assert(s.take(s.len() as int) =~= s);
        s.len() as int
    }
}

/// What trimming leaves of a text is the text from its first to its last byte that is no
/// whitespace: before and behind that stand only tabs, line feeds, form feeds, carriage
/// returns and spaces.
pub proof fn trimming_takes_the_spaces_around(s: Seq<u8>)
    ensures
        exists|i: int, j: int|
            {
                &&& 0 <= i <= j <= s.len()
                &&& trimmed(s) == #[trigger] s.subrange(i, j)
                &&& forall|k: int|
                    0 <= k < i || j <= k < s.len() ==> (#[trigger] s[k] == 9 || s[k] == 10 || s[k]
                        == 12 || s[k] == 13 || s[k] == 32)
                &&& i < j ==> {
                    &&& s[i] != 9 && s[i] != 10 && s[i] != 12 && s[i] != 13 && s[i] != 32
                    &&& s[j - 1] != 9 && s[j - 1] != 10 && s[j - 1] != 12 && s[j - 1] != 13
                        && s[j - 1] != 32
                }
            },
{
    let i = lemma_trim_start(s);
    let t = s.skip(i);
    let j = lemma_trim_end(t);
    assert(t.take(j) =~= s.subrange(i, i + j));
    assert forall|k: int| 0 <= k < i || i + j <= k < s.len() implies is_one_of_the_spaces(
        #[trigger] s[k],
    ) by {
        if k >= i {
            assert(t[k - i] == s[k]);
        }
    }
    if j > 0 {
        assert(t[0] == s[i]);
        assert(t[j - 1] == s[i + j - 1]);
        assert(!is_one_of_the_spaces(t[0]));
    }
    assert(trimmed(s) == s.subrange(i, i + j));
}

/// A number is read digit by digit, and a plus sign may stand before it: nothing else is a
/// number, and neither is one that is too large.
pub proof fn numbers_are_read_digit_by_digit(s: Seq<u8>, b: u8)
    ensures
        u64_of(Seq::empty()) is None,
        48 <= b <= 57 ==> u64_of(seq![b]) == Some((b - 48) as u64),
        !(48 <= b <= 57) ==> u64_of(s.push(b)) is None,
        u64_of(seq!['+' as u8] + s) == (if s.len() > 0 && s[0] == '+' as u8 {
            None
        } else {
            u64_of(s)
        }),
        u64_of(s) matches Some(n) ==> 48 <= b <= 57 ==> u64_of(s.push(b)) == (if 10 * n + (b - 48)
            <= u64::MAX {
            Some((10 * n + (b - 48)) as u64)
        } else {
            None
        }),
        u64_of(s) is None && s.len() > 0 && s != seq!['+' as u8] ==> u64_of(s.push(b)) is None,
{
    let plus = '+' as u8;
    let one = seq![b];
    assert(one.drop_last().len() == 0);
    assert(decimal_value(one.drop_last()) == 0);
    assert(one.skip(1).len() == 0);
    if 48 <= b <= 57 {
        assert(one.last() == b);
        assert(all_digits(one));
    }
    let more = seq![plus] + s;
    assert(more.skip(1) =~= s);
    if s.len() > 0 && s[0] == plus {
        assert(!is_digit(s[0]));
    }
    let q = s.push(b);
    let digits = if s.len() > 0 && s[0] == plus {
        s.skip(1)
    } else {
        s
    };
    let after = digits.push(b);
    if s.len() > 0 {
        assert(q[0] == s[0]);
        if s[0] == plus {
            assert(q.skip(1) =~= after);
        }
    }
    assert(after.drop_last() =~= digits);
    assert(after.last() == b);
    if s.len() == 0 {
        assert(q =~= one);
        if b == plus {
            assert(q.skip(1).len() == 0);
        } else if !is_digit(b) {
            assert(!is_digit(q[0]));
        }
    } else {
        if all_digits(after) {
            assert forall|i: int| 0 <= i < digits.len() implies is_digit(#[trigger] digits[i]) by {
                assert(after[i] == digits[i]);
            }
            assert(is_digit(after[after.len() - 1]));
        }
        if all_digits(digits) && is_digit(b) {
            assert forall|i: int| 0 <= i < after.len() implies is_digit(#[trigger] after[i]) by {
                if i < digits.len() {
                    assert(after[i] == digits[i]);
                }
            }
        }
        if digits.len() == 0 {
            assert(s =~= seq![plus]);
        }
    }
}

proof fn lemma_decimal_starts(n: nat)
    ensures
        decimal(n).len() > 0,
        n > 0 ==> decimal(n)[0] != 48,
    decreases n,
{
    if n >= 10 {
        lemma_decimal_starts(n / 10);
        assert(decimal(n)[0] == decimal(n / 10)[0]);
    }
}

/// A number is written in decimal digits from which it is read back, and without leading
/// zeros.
pub proof fn decimals_are_exact(n: u64)
    ensures
        u64_of(decimal(n as nat)) == Some(n),
        forall|i: int| 0 <= i < decimal(n as nat).len() ==> 48 <= #[trigger] decimal(n as nat)[i] <= 57,
        n > 0 ==> decimal(n as nat)[0] != 48,
        n == 0 ==> decimal(n as nat) == seq![48u8],
{
    decimal_round_trip(n as nat);
    lemma_decimal_starts(n as nat);
    assert forall|i: int| 0 <= i < decimal(n as nat).len() implies 48 <= #[trigger] decimal(
        n as nat,
    )[i] <= 57 by {
        assert(is_digit(decimal(n as nat)[i]));
    }
}

/// A hexadecimal digit stands for its place among `0` to `9` and `a` to `f`, in either case,
/// and a numeral for sixteen times what stands before its last digit, and that digit.
pub proof fn hexadecimals_are_read_digit_by_digit(s: Seq<u8>, b: u8)
    ensures
        hex_value(Seq::empty()) == 0,
        48 <= b <= 57 ==> hex_value(s.push(b)) == 16 * hex_value(s) + (b - 48),
        97 <= b <= 102 ==> hex_value(s.push(b)) == 16 * hex_value(s) + 10 + (b - 97),
        65 <= b <= 70 ==> hex_value(s.push(b)) == 16 * hex_value(s) + 10 + (b - 65),
        all_hex_digits(s.push(b)) <==> all_hex_digits(s) && (48 <= b <= 57 || 97 <= b <= 102 || 65
            <= b <= 70),
        all_hex_digits(Seq::empty()),
{
    let q = s.push(b);
    assert(q.drop_last() =~= s);
    assert(q.last() == b);
    if all_hex_digits(q) {
        assert forall|i: int| 0 <= i < s.len() implies is_hex_digit(#[trigger] s[i]) by {
            assert(q[i] == s[i]);
        }
        assert(is_hex_digit(q[s.len() as int]));
    }
}

proof fn lemma_hex_starts(n: nat)
    ensures
        hex(n).len() > 0,
        n > 0 ==> hex(n)[0] != 48,
        forall|i: int|
            0 <= i < hex(n).len() ==> (48 <= #[trigger] hex(n)[i] <= 57 || 97 <= hex(n)[i] <= 102),
    decreases n,
{
    if n >= 16 {
        lemma_hex_starts(n / 16);
        assert forall|i: int| 0 <= i < hex(n).len() implies (48 <= #[trigger] hex(n)[i] <= 57 || 97
            <= hex(n)[i] <= 102) by {
            if i < hex(n / 16).len() {
                assert(hex(n)[i] == hex(n / 16)[i]);
            }
        }
        assert(hex(n)[0] == hex(n / 16)[0]);
    }
}

/// A number is written in hexadecimal digits in lower case from which it is read back, and
/// without leading zeros.
pub proof fn hexadecimals_are_exact(n: nat)
    ensures
        hex_value(hex(n)) == n,
        forall|i: int|
            0 <= i < hex(n).len() ==> (48 <= #[trigger] hex(n)[i] <= 57 || 97 <= hex(n)[i] <= 102),
        n > 0 ==> hex(n)[0] != 48,
        n == 0 ==> hex(n) == seq![48u8],
{
    hex_round_trip(n);
    lemma_hex_starts(n);
}

/// The end of a line is a carriage return and a line feed, and a text in ASCII is its
/// characters, one byte each.
pub proof fn lines_end_with_crlf(s: &str)
    ensures
        crlf() == seq![13u8, 10u8],
        ascii(s).len() == s@.len(),
        forall|i: int| 0 <= i < s@.len() ==> #[trigger] ascii(s)[i] == s@[i] as u8,
{
}

} // verus!
