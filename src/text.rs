//! Textual renderings that fingerprints are built from and compared with:
//! decimal numbers, lowercase hexadecimal, and runs of zero digits.

use vstd::prelude::*;

verus! {

/// The sixteen lowercase hexadecimal digits, in order of value.
pub open spec fn hex_alphabet() -> Seq<char> {
    seq!['0', '1', '2', '3', '4', '5', '6', '7', '8', '9', 'a', 'b', 'c', 'd', 'e', 'f']
}

/// The digit that stands for `d`, for `d < 16`.
pub open spec fn hex_char(d: int) -> char {
    hex_alphabet()[d]
}

/// Decimal rendering of a natural number, with no leading zeros.
pub open spec fn decimal(n: nat) -> Seq<char>
    decreases n,
{
    if n < 10 {
        seq![hex_char(n as int)]
    } else {
        decimal(n / 10).push(hex_char((n % 10) as int))
    }
}

/// Decimal rendering of an integer: a minus sign before the magnitude of a
/// negative one.
pub open spec fn signed_decimal(i: int) -> Seq<char> {
    if i < 0 {
        seq!['-'] + decimal((-i) as nat)
    } else {
        decimal(i as nat)
    }
}

/// Lowercase hexadecimal rendering of bytes: two digits for each byte, the
/// high nibble first.
pub open spec fn hex_of(b: Seq<u8>) -> Seq<char> {
    Seq::new(
        2 * b.len(),
        |i: int|
            if i % 2 == 0 {
                hex_char((b[i / 2] / 16) as int)
            } else {
                hex_char((b[i / 2] % 16) as int)
            },
    )
}

/// `s` begins with at least `d` zero digits.
pub open spec fn has_zero_prefix(s: Seq<char>, d: nat) -> bool {
    d <= s.len() && forall|i: int| 0 <= i < d ==> s[i] == '0'
}

/// `n` zero digits.
pub open spec fn zeros(n: nat) -> Seq<char> {
    Seq::new(n, |i: int| '0')
}

/// The one-character string of the digit worth `d`.
fn digit_str(d: u8) -> (r: &'static str)
    requires
        d < 16,
    ensures
        r@ == seq![hex_char(d as int)],
{
    let digits = "0123456789abcdef";
    proof {
        reveal_strlit("0123456789abcdef");
        assert(digits@ =~= hex_alphabet());
    }
    let r = digits.substring_ascii(d as usize, d as usize + 1);
    assert(r@ =~= seq![hex_char(d as int)]);
    r
}

/// Appends the decimal rendering of `n` to `s`.
pub fn push_decimal(s: &mut String, n: u64)
    ensures
        final(s)@ == old(s)@ + decimal(n as nat),
    decreases n,
{
    if n >= 10 {
        push_decimal(s, n / 10);
    }
    s.append(digit_str((n % 10) as u8));
    assert(final(s)@ =~= old(s)@ + decimal(n as nat));
}

/// Appends the decimal rendering of `i` to `s`, with a minus sign where it is
/// negative.
pub fn push_signed_decimal(s: &mut String, i: i64)
    ensures
        final(s)@ == old(s)@ + signed_decimal(i as int),
{
    if i < 0 {
        let minus = "-";
        proof {
            reveal_strlit("-");
        }
        s.append(minus);
        let magnitude: u64 = if i == i64::MIN {
            9223372036854775808u64
        } else {
            (-i) as u64
        };
        push_decimal(s, magnitude);
        assert(final(s)@ =~= old(s)@ + signed_decimal(i as int));
    } else {
        push_decimal(s, i as u64);
    }
}

/// Lowercase hexadecimal rendering of `bytes`, two digits per byte.
pub fn hex_encode(bytes: &[u8]) -> (r: String)
    ensures
        r@ == hex_of(bytes@),
{
    let mut s = String::new();
    let mut k: usize = 0;
    while k < bytes.len()
        invariant
            k <= bytes@.len(),
            s@ == hex_of(bytes@.take(k as int)),
        decreases bytes@.len() - k,
    {
        let b = bytes[k];
        s.append(digit_str(b / 16));
        s.append(digit_str(b % 16));
        proof {
            let prev = bytes@.take(k as int);
            let next = bytes@.take(k as int + 1);
            assert forall|i: int| 0 <= i < 2 * k implies #[trigger] next[i / 2] == prev[i / 2] by {
                assert(0 <= i / 2 < k);
            }
            assert((2 * k) / 2 == k);
            assert((2 * k + 1) / 2 == k);
            assert((2 * k) % 2 == 0);
            assert((2 * k + 1) % 2 == 1);
            assert(s@ =~= hex_of(next));
        }
        k = k + 1;
    }
    assert(bytes@.take(bytes@.len() as int) =~= bytes@);
    s
}

/// A string of `n` zero digits.
pub fn zero_string(n: usize) -> (r: String)
    ensures
        r@ == zeros(n as nat),
{
    let mut s = String::new();
    let mut k: usize = 0;
    while k < n
        invariant
            k <= n,
            s@ == zeros(k as nat),
        decreases n - k,
    {
        s.append(digit_str(0));
        k = k + 1;
        assert(s@ =~= zeros(k as nat));
    }
    s
}

/// Whether `s` begins with at least `d` zero digits.
pub fn starts_with_zeros(s: &str, d: usize) -> (r: bool)
    ensures
        r == has_zero_prefix(s@, d as nat),
{
    let len = s.unicode_len();
    if d > len {
        return false;
    }
    let mut k: usize = 0;
    while k < d
        invariant
            k <= d <= s@.len(),
            forall|i: int| 0 <= i < k ==> s@[i] == '0',
        decreases d - k,
    {
        if s.get_char(k) != '0' {
            return false;
        }
        k = k + 1;
    }
    true
}

/// Distinct values below 16 have distinct digits.
pub proof fn lemma_hex_char_injective(x: int, y: int)
    requires
        0 <= x < 16,
        0 <= y < 16,
        hex_char(x) == hex_char(y),
    ensures
        x == y,
{
    let a = hex_alphabet();
    assert(a[0] == '0' && a[1] == '1' && a[2] == '2' && a[3] == '3');
    assert(a[4] == '4' && a[5] == '5' && a[6] == '6' && a[7] == '7');
    assert(a[8] == '8' && a[9] == '9' && a[10] == 'a' && a[11] == 'b');
    assert(a[12] == 'c' && a[13] == 'd' && a[14] == 'e' && a[15] == 'f');
}

/// Distinct byte sequences have distinct hexadecimal renderings.
pub proof fn lemma_hex_of_injective(a: Seq<u8>, b: Seq<u8>)
    requires
        hex_of(a) == hex_of(b),
    ensures
        a == b,
{
    assert(hex_of(a).len() == 2 * a.len());
    assert forall|k: int| 0 <= k < a.len() implies a[k] == b[k] by {
        assert((2 * k) / 2 == k && (2 * k) % 2 == 0);
        assert((2 * k + 1) / 2 == k && (2 * k + 1) % 2 == 1);
        assert(hex_of(a)[2 * k] == hex_char((a[k] / 16) as int));
        assert(hex_of(b)[2 * k] == hex_char((b[k] / 16) as int));
        assert(hex_of(a)[2 * k + 1] == hex_char((a[k] % 16) as int));
        assert(hex_of(b)[2 * k + 1] == hex_char((b[k] % 16) as int));
        lemma_hex_char_injective((a[k] / 16) as int, (b[k] / 16) as int);
        lemma_hex_char_injective((a[k] % 16) as int, (b[k] % 16) as int);
        let x = a[k];
        let y = b[k];
        assert(x == 16 * (x / 16) + x % 16);
        assert(y == 16 * (y / 16) + y % 16);
    }
    assert(a =~= b);
}

} // verus!
