use vstd::prelude::*;

verus! {

/// ASCII digit for a value below ten.
pub open spec fn digit_byte(d: nat) -> u8 {
    (d + 48) as u8
}

pub open spec fn is_digit(b: u8) -> bool {
    48 <= b <= 57
}

/// Shortest decimal rendering of `n`, most significant digit first.
pub open spec fn decimal_bytes(n: nat) -> Seq<u8>
    decreases n,
{
    if n < 10 {
        seq![digit_byte(n)]
    } else {
        decimal_bytes(n / 10).push(digit_byte(n % 10))
    }
}

/// Value of a string of ASCII digits.
pub open spec fn decimal_value(s: Seq<u8>) -> nat
    decreases s.len(),
{
    if s.len() == 0 {
        0
    } else {
        decimal_value(s.drop_last()) * 10 + (s.last() - 48) as nat
    }
}

/// A non-empty run of ASCII digits.
pub open spec fn is_decimal(s: Seq<u8>) -> bool {
    s.len() > 0 && forall|i: int| 0 <= i < s.len() ==> is_digit(#[trigger] s[i])
}

pub proof fn lemma_decimal_bytes_digits(n: nat)
    ensures
        is_decimal(decimal_bytes(n)),
        decimal_value(decimal_bytes(n)) == n,
    decreases n,
{
    if n >= 10 {
        lemma_decimal_bytes_digits(n / 10);
        let s = decimal_bytes(n);
        assert(s.drop_last() == decimal_bytes(n / 10));
        assert(s.last() == digit_byte(n % 10));
        assert(digit_byte(n % 10) as int == n % 10 + 48);
        assert(decimal_value(s) == decimal_value(s.drop_last()) * 10 + (s.last() - 48) as nat);
        assert(n == (n / 10) * 10 + n % 10);
    } else {
        let s = decimal_bytes(n);
        assert(s.drop_last() =~= Seq::<u8>::empty());
        assert(digit_byte(n) as int == n + 48);
        assert(decimal_value(s.drop_last()) == 0);
    }
}

/// Decimal rendering of `n` as ASCII bytes.
pub fn decimal_digits(n: u64) -> (r: Vec<u8>)
    ensures
        r@ == decimal_bytes(n as nat),
{
    let mut rev: Vec<u8> = Vec::new();
    let mut m: u64 = n;
    while m >= 10
        invariant
            decimal_bytes(n as nat) == decimal_bytes(m as nat) + rev@.reverse(),
        decreases m,
    {
        let b: u8 = (m % 10) as u8 + 48;
        assert(rev@.push(b).reverse() =~= seq![b] + rev@.reverse());
        rev.push(b);
        m = m / 10;
    }
    let b: u8 = m as u8 + 48;
    assert(rev@.push(b).reverse() =~= seq![b] + rev@.reverse());
    rev.push(b);
    let mut r: Vec<u8> = Vec::new();
    let mut i: usize = rev.len();
    while i > 0
        invariant
            i <= rev.len(),
            r@ == rev@.subrange(i as int, rev.len() as int).reverse(),
        decreases i,
    {
        i = i - 1;
        assert(rev@.subrange(i as int, rev.len() as int).reverse() =~= rev@.subrange(
            i as int + 1,
            rev.len() as int,
        ).reverse().push(rev@[i as int]));
        r.push(rev[i]);
    }
    assert(rev@.subrange(0, rev.len() as int) == rev@);
    r
}

/// Reads `s` as a decimal `usize`: `None` unless it is a non-empty run of
/// digits whose value fits.
pub fn parse_decimal(s: &[u8]) -> (r: Option<usize>)
    ensures
        r is Some <==> is_decimal(s@) && decimal_value(s@) <= usize::MAX,
        r is Some ==> r->0 as nat == decimal_value(s@),
{
    if s.len() == 0 {
        return None;
    }
    let mut v: usize = 0;
    let mut i: usize = 0;
    while i < s.len()
        invariant
            i <= s.len(),
            forall|j: int| 0 <= j < i ==> is_digit(#[trigger] s@[j]),
            v as nat == decimal_value(s@.subrange(0, i as int)),
        decreases s.len() - i,
    {
        let b = s[i];
        assert(s@.subrange(0, i as int + 1).drop_last() == s@.subrange(0, i as int));
        if b < 48 || b > 57 {
            return None;
        }
        let d: usize = (b - 48) as usize;
        if v > (usize::MAX - d) / 10 {
            proof {
                lemma_value_grows(s@, i as int + 1);
            }
            return None;
        }
        v = v * 10 + d;
        i = i + 1;
    }
    assert(s@.subrange(0, s.len() as int) == s@);
    Some(v)
}

/// The value of a run of digits never falls as digits are added.
proof fn lemma_value_grows(s: Seq<u8>, k: int)
    requires
        0 <= k <= s.len(),
    ensures
        decimal_value(s.subrange(0, k)) <= decimal_value(s),
    decreases s.len() - k,
{
    if k < s.len() {
        lemma_value_grows(s, k + 1);
        assert(s.subrange(0, k + 1).drop_last() == s.subrange(0, k));
    } else {
        assert(s.subrange(0, k) == s);
    }
}

} // verus!
