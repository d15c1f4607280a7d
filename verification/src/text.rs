//! Text building blocks: decimal rendering of integers, zero padding,
//! prefix and suffix tests, digits and white space, and the character-wise
//! order of strings.

use vstd::prelude::*;

verus! {

/// The ASCII digit for `d` (which is below ten).
pub open spec fn digit(d: nat) -> char {
    seq!['0', '1', '2', '3', '4', '5', '6', '7', '8', '9'][d as int]
}

/// The shortest decimal rendering of `n`.
pub open spec fn decimal(n: nat) -> Seq<char>
    decreases n,
{
    if n < 10 {
        seq![digit(n)]
    } else {
        decimal(n / 10).push(digit(n % 10))
    }
}

fn digit_str(d: u64) -> (s: &'static str)
    requires
        d < 10,
    ensures
        s@ == seq![digit(d as nat)],
{
    proof {
        reveal_strlit("0");
        reveal_strlit("1");
        reveal_strlit("2");
        reveal_strlit("3");
        reveal_strlit("4");
        reveal_strlit("5");
        reveal_strlit("6");
        reveal_strlit("7");
        reveal_strlit("8");
        reveal_strlit("9");
    }
    if d == 0 {
        "0"
    } else if d == 1 {
        "1"
    } else if d == 2 {
        "2"
    } else if d == 3 {
        "3"
    } else if d == 4 {
        "4"
    } else if d == 5 {
        "5"
    } else if d == 6 {
        "6"
    } else if d == 7 {
        "7"
    } else if d == 8 {
        "8"
    } else {
        "9"
    }
}

/// Appends the decimal rendering of `n` to `s`.
pub fn push_decimal(s: &mut String, n: u64)
    ensures
        final(s)@ == old(s)@ + decimal(n as nat),
    decreases n,
{
    if n >= 10 {
        push_decimal(s, n / 10);
    }
    let d = n % 10;
    s.append(digit_str(d));
    proof {
        if n >= 10 {
            assert(decimal(n as nat) == decimal((n / 10) as nat).push(digit((n % 10) as nat)));
        }
    }
    assert(final(s)@ =~= old(s)@ + decimal(n as nat)) by {
        if n >= 10 {
            assert(decimal(n as nat) == decimal((n / 10) as nat).push(digit((n % 10) as nat)));
        }
    }
}

/// `n` zero characters.
pub open spec fn zeros(n: nat) -> Seq<char> {
    Seq::new(n, |i: int| '0')
}

/// The decimal rendering of `n`, padded on the left with zeros to at least
/// `width` characters.
pub open spec fn padded_decimal(n: nat, width: nat) -> Seq<char> {
    let d = decimal(n);
    if d.len() >= width {
        d
    } else {
        zeros((width - d.len()) as nat) + d
    }
}

proof fn lemma_decimal_len(n: nat)
    ensures
        1 <= decimal(n).len() <= n + 1,
    decreases n,
{
    if n >= 10 {
        lemma_decimal_len(n / 10);
    }
}

fn decimal_text(n: u128) -> (s: String)
    ensures
        s@ == decimal(n as nat),
    decreases n,
{
    let mut s = if n >= 10 {
        decimal_text(n / 10)
    } else {
        String::new()
    };
    let d = (n % 10) as u64;
    s.append(digit_str(d));
    assert(s@ =~= decimal(n as nat)) by {
        if n >= 10 {
            assert(decimal(n as nat) == decimal((n / 10) as nat).push(digit((n % 10) as nat)));
        }
    }
    s
}

/// Appends the decimal rendering of `n`, padded with zeros to `width` characters.
pub fn push_padded_decimal(s: &mut String, n: u128, width: usize)
    ensures
        final(s)@ == old(s)@ + padded_decimal(n as nat, width as nat),
{
    let digits = decimal_text(n);
    let len = digits.as_str().unicode_len();
    proof {
        reveal_strlit("0");
    }
    if len < width {
        let mut k: usize = 0;
        while k < width - len
            invariant
                k <= width - len,
                len < width,
                s@ == old(s)@ + zeros(k as nat),
            decreases width - len - k,
        {
            s.append("0");
            proof {
                reveal_strlit("0");
                assert("0"@ =~= seq!['0']);
                assert(zeros((k + 1) as nat) =~= zeros(k as nat).push('0'));
            }
            assert(s@ =~= old(s)@ + zeros((k + 1) as nat));
            k = k + 1;
        }
    }
    let ghost mid = s@;
    s.append(digits.as_str());
    assert(s@ =~= old(s)@ + padded_decimal(n as nat, width as nat)) by {
        if len < width {
            assert(mid =~= old(s)@ + zeros((width - len) as nat));
        } else {
            assert(mid =~= old(s)@);
        }
    }
}

/// Whether `c` is white space: it has the Unicode `White_Space` property,
/// as `char::is_whitespace` decides it. Those are the code points U+0009 to
/// U+000D, U+0020, U+0085, U+00A0, U+1680, U+2000 to U+200A, U+2028,
/// U+2029, U+202F, U+205F and U+3000.
pub open spec fn white_space(c: char) -> bool {
    let v = c as int;
    ||| 0x09 <= v <= 0x0D
    ||| v == 0x20
    ||| v == 0x85
    ||| v == 0xA0
    ||| v == 0x1680
    ||| 0x2000 <= v <= 0x200A
    ||| v == 0x2028
    ||| v == 0x2029
    ||| v == 0x202F
    ||| v == 0x205F
    ||| v == 0x3000
}

/// Whether `c` is white space (see `white_space`).
pub fn is_whitespace(c: char) -> (b: bool)
    ensures
        b == white_space(c),
{
    let v = c as u32;
    (0x09 <= v && v <= 0x0D) || v == 0x20 || v == 0x85 || v == 0xA0 || v == 0x1680 || (0x2000 <= v && v <= 0x200A)
        || v == 0x2028 || v == 0x2029 || v == 0x202F || v == 0x205F || v == 0x3000
}

/// Whether `c` is an ASCII decimal digit.
pub open spec fn is_digit(c: char) -> bool {
    48 <= c as int <= 57
}

/// The `count` characters of `s` from position `start` on are all ASCII digits.
pub open spec fn digits_in(s: Seq<char>, start: int, count: int) -> bool {
    forall|i: int| start <= i < start + count ==> is_digit(#[trigger] s[i])
}

/// Whether the `count` characters of `s` from position `start` on are all
/// ASCII digits.
pub fn digits_at(s: &str, start: usize, count: usize) -> (b: bool)
    requires
        start + count <= s@.len(),
    ensures
        b == digits_in(s@, start as int, count as int),
{
    let n = s.unicode_len();
    let mut i: usize = 0;
    while i < count
        invariant
            i <= count,
            n == s@.len(),
            start + count <= s@.len(),
            forall|j: int| start <= j < start + i ==> is_digit(#[trigger] s@[j]),
        decreases count - i,
    {
        let v = s.get_char(start + i) as u32;
        if v < 48 || v > 57 {
            return false;
        }
        i = i + 1;
    }
    true
}

/// A number below `10^w` padded with zeros to `w` digits has exactly `w`
/// characters, each an ASCII digit.
pub proof fn lemma_padded_digits(n: nat, w: nat)
    requires
        w >= 1,
        n < pow10(w),
    ensures
        padded_decimal(n, w).len() == w,
        digits_in(padded_decimal(n, w), 0, w as int),
    decreases w,
{
    lemma_padded_len(n, w);
    if w == 1 {
        assert(pow10(1) == 10 * pow10(0));
        assert(padded_decimal(n, 1) =~= seq![digit(n)]);
        lemma_digit_code(n);
    } else {
        assert(pow10(w) == 10 * pow10((w - 1) as nat));
        lemma_padded_step(n, w);
        lemma_padded_digits(n / 10, (w - 1) as nat);
        lemma_digit_code(n % 10);
        let p = padded_decimal(n / 10, (w - 1) as nat);
        assert forall|i: int| 0 <= i < w implies is_digit(#[trigger] padded_decimal(n, w)[i]) by {
            if i < w - 1 {
                assert(padded_decimal(n, w)[i] == p[i]);
            }
        }
    }
}

/// `s` holds nothing but white space, so that trimming it leaves nothing.
pub open spec fn blank(s: Seq<char>) -> bool {
    forall|i: int| 0 <= i < s.len() ==> white_space(#[trigger] s[i])
}

/// Whether `s` holds nothing but white space (see `blank`).
pub fn is_blank(s: &str) -> (b: bool)
    ensures
        b == blank(s@),
{
    let n = s.unicode_len();
    let mut i: usize = 0;
    while i < n
        invariant
            i <= n,
            n == s@.len(),
            forall|j: int| 0 <= j < i ==> white_space(#[trigger] s@[j]),
        decreases n - i,
    {
        if !is_whitespace(s.get_char(i)) {
            return false;
        }
        i = i + 1;
    }
    true
}

/// Whether `s` starts with `prefix`.
pub fn starts_with(s: &str, prefix: &str) -> (b: bool)
    ensures
        b == prefix@.is_prefix_of(s@),
{
    let n = s.unicode_len();
    let m = prefix.unicode_len();
    if m > n {
        return false;
    }
    let mut i: usize = 0;
    while i < m
        invariant
            i <= m <= n,
            n == s@.len(),
            m == prefix@.len(),
            forall|j: int| 0 <= j < i ==> prefix@[j] == s@[j],
        decreases m - i,
    {
        if s.get_char(i) != prefix.get_char(i) {
            return false;
        }
        i = i + 1;
    }
    assert(prefix@ =~= s@.subrange(0, m as int));
    true
}

/// Whether `s` ends with `suffix`.
pub fn ends_with(s: &str, suffix: &str) -> (b: bool)
    ensures
        b == suffix@.is_suffix_of(s@),
{
    let n = s.unicode_len();
    let m = suffix.unicode_len();
    if m > n {
        return false;
    }
    let off = n - m;
    let mut i: usize = 0;
    while i < m
        invariant
            i <= m <= n,
            off == n - m,
            n == s@.len(),
            m == suffix@.len(),
            forall|j: int| 0 <= j < i ==> suffix@[j] == s@[off + j],
        decreases m - i,
    {
        if s.get_char(off + i) != suffix.get_char(i) {
            return false;
        }
        i = i + 1;
    }
    assert(suffix@ =~= s@.subrange(off as int, n as int));
    true
}

/// The order of strings by their characters (their code points), as for
/// `str`'s comparison: at the first position where they differ the smaller
/// character decides, and a proper prefix comes first.
pub open spec fn text_lt(a: Seq<char>, b: Seq<char>) -> bool
    decreases a.len(),
{
    if b.len() == 0 {
        false
    } else if a.len() == 0 {
        true
    } else if a[0] != b[0] {
        (a[0] as int) < (b[0] as int)
    } else {
        text_lt(a.drop_first(), b.drop_first())
    }
}

/// The order is irreflexive.
pub proof fn lemma_text_lt_irreflexive(a: Seq<char>)
    ensures
        !text_lt(a, a),
    decreases a.len(),
{
    if a.len() > 0 {
        lemma_text_lt_irreflexive(a.drop_first());
    }
}

/// The order is transitive.
pub proof fn lemma_text_lt_transitive(a: Seq<char>, b: Seq<char>, c: Seq<char>)
    requires
        text_lt(a, b),
        text_lt(b, c),
    ensures
        text_lt(a, c),
    decreases a.len(),
{
    if a.len() > 0 && b.len() > 0 && c.len() > 0 {
        if a[0] == b[0] && b[0] == c[0] {
            lemma_text_lt_transitive(a.drop_first(), b.drop_first(), c.drop_first());
        }
    }
}

/// Two different strings are ordered one way or the other.
pub proof fn lemma_text_lt_total(a: Seq<char>, b: Seq<char>)
    ensures
        a != b ==> text_lt(a, b) || text_lt(b, a),
    decreases a.len(),
{
    if a.len() > 0 && b.len() > 0 && a[0] == b[0] {
        lemma_text_lt_total(a.drop_first(), b.drop_first());
        if a.drop_first() == b.drop_first() {
            assert forall|i: int| 0 <= i < a.len() implies a[i] == b[i] by {
                if i > 0 {
                    assert(a[i] == a.drop_first()[i - 1]);
                    assert(b[i] == b.drop_first()[i - 1]);
                }
            }
            assert(a =~= b);
        }
    } else if a.len() == 0 && b.len() == 0 {
        assert(a =~= b);
    } else if a.len() > 0 && b.len() > 0 {
        assert((a[0] as int) != (b[0] as int));
    }
}

/// Whether `a` comes before `b` in the order of `text_lt`.
pub fn text_less(a: &str, b: &str) -> (r: bool)
    ensures
        r == text_lt(a@, b@),
{
    let n = a.unicode_len();
    let m = b.unicode_len();
    let mut i: usize = 0;
    assert(a@.skip(0) =~= a@);
    assert(b@.skip(0) =~= b@);
    while i < n && i < m
        invariant
            n == a@.len(),
            m == b@.len(),
            i <= n,
            i <= m,
            text_lt(a@, b@) == text_lt(a@.skip(i as int), b@.skip(i as int)),
        decreases n - i,
    {
        let x = a.get_char(i);
        let y = b.get_char(i);
        assert(a@.skip(i as int)[0] == x);
        assert(b@.skip(i as int)[0] == y);
        if x != y {
            return (x as u32) < (y as u32);
        }
        assert(a@.skip(i as int).drop_first() =~= a@.skip(i + 1));
        assert(b@.skip(i as int).drop_first() =~= b@.skip(i + 1));
        i = i + 1;
    }
    i < m
}

/// Comparing two texts that start with parts of equal length: the first
/// parts decide unless they are equal, and then the rests decide.
pub proof fn lemma_text_lt_concat(a: Seq<char>, r1: Seq<char>, b: Seq<char>, r2: Seq<char>)
    requires
        a.len() == b.len(),
    ensures
        text_lt(a + r1, b + r2) == (text_lt(a, b) || (a == b && text_lt(r1, r2))),
    decreases a.len(),
{
    if a.len() == 0 {
        assert(a + r1 =~= r1);
        assert(b + r2 =~= r2);
        assert(a =~= b);
        assert(!text_lt(a, b));
    } else {
        assert((a + r1)[0] == a[0]);
        assert((b + r2)[0] == b[0]);
        assert((a + r1).drop_first() =~= a.drop_first() + r1);
        assert((b + r2).drop_first() =~= b.drop_first() + r2);
        lemma_text_lt_concat(a.drop_first(), r1, b.drop_first(), r2);
        if a[0] == b[0] && a.drop_first() == b.drop_first() {
            assert(a =~= b) by {
                assert forall|i: int| 0 <= i < a.len() implies a[i] == b[i] by {
                    if i > 0 {
                        assert(a[i] == a.drop_first()[i - 1]);
                        assert(b[i] == b.drop_first()[i - 1]);
                    }
                }
            }
        }
        if a == b {
            assert(a.drop_first() == b.drop_first());
        }
    }
}

/// The character code of a decimal digit.
proof fn lemma_digit_code(d: nat)
    requires
        d < 10,
    ensures
        digit(d) as int == 48 + d,
{
    let ds = seq!['0', '1', '2', '3', '4', '5', '6', '7', '8', '9'];
    assert(ds[0] == '0' && ds[1] == '1' && ds[2] == '2' && ds[3] == '3' && ds[4] == '4');
    assert(ds[5] == '5' && ds[6] == '6' && ds[7] == '7' && ds[8] == '8' && ds[9] == '9');
    assert('0' as int == 48);
    assert('1' as int == 49);
    assert('2' as int == 50);
    assert('3' as int == 51);
    assert('4' as int == 52);
    assert('5' as int == 53);
    assert('6' as int == 54);
    assert('7' as int == 55);
    assert('8' as int == 56);
    assert('9' as int == 57);
}

/// Ten to the power `w`.
pub open spec fn pow10(w: nat) -> nat
    decreases w,
{
    if w == 0 {
        1
    } else {
        10 * pow10((w - 1) as nat)
    }
}

proof fn lemma_decimal_len_bound(n: nat, w: nat)
    requires
        w >= 1,
        n < pow10(w),
    ensures
        decimal(n).len() <= w,
    decreases w,
{
    if n >= 10 {
        assert(w >= 2) by {
            if w == 1 {
                assert(pow10(1) == 10 * pow10(0));
            }
        }
        assert(pow10(w) == 10 * pow10((w - 1) as nat));
        assert(n / 10 < pow10((w - 1) as nat)) by (nonlinear_arith)
            requires
                n < 10 * pow10((w - 1) as nat),
        ;
        lemma_decimal_len_bound(n / 10, (w - 1) as nat);
    }
}

/// A number below `10^w`, padded to `w` digits, is its padding to `w - 1`
/// digits of all but the last digit, followed by the last digit.
proof fn lemma_padded_step(n: nat, w: nat)
    requires
        w >= 2,
        n < pow10(w),
    ensures
        padded_decimal(n, w) == padded_decimal(n / 10, (w - 1) as nat).push(digit(n % 10)),
{
    assert(pow10(w) == 10 * pow10((w - 1) as nat));
    assert(n / 10 < pow10((w - 1) as nat)) by (nonlinear_arith)
        requires
            n < 10 * pow10((w - 1) as nat),
    ;
    lemma_decimal_len_bound(n, w);
    lemma_decimal_len_bound(n / 10, (w - 1) as nat);
    lemma_decimal_len(n);
    lemma_decimal_len(n / 10);
    if n >= 10 {
        assert(decimal(n) == decimal(n / 10).push(digit(n % 10)));
        let d = decimal(n / 10);
        if d.len() >= w - 1 {
            assert(padded_decimal(n, w) =~= d.push(digit(n % 10)));
        } else {
            assert(padded_decimal(n, w) =~= zeros((w - d.len() - 1) as nat) + d.push(digit(n % 10)));
            assert(zeros((w - d.len() - 1) as nat) + d.push(digit(n % 10)) =~= (zeros((w - 1 - d.len()) as nat) + d).push(digit(n % 10)));
        }
    } else {
        assert(decimal(n) == seq![digit(n)]);
        assert(decimal(0) == seq![digit(0)]);
        assert(n / 10 == 0);
        assert(n % 10 == n);
        assert(digit(0) == '0');
        assert(padded_decimal(n, w) =~= zeros((w - 1) as nat).push(digit(n)));
        if w - 1 >= 2 {
            assert(padded_decimal(0, (w - 1) as nat) =~= zeros((w - 2) as nat) + seq!['0']);
            assert(zeros((w - 2) as nat) + seq!['0'] =~= zeros((w - 1) as nat));
        } else {
            assert(padded_decimal(0, (w - 1) as nat) =~= seq!['0']);
            assert(zeros((w - 1) as nat) =~= seq!['0']);
        }
    }
}

proof fn lemma_padded_len(n: nat, w: nat)
    requires
        w >= 1,
        n < pow10(w),
    ensures
        padded_decimal(n, w).len() == w,
{
    lemma_decimal_len_bound(n, w);
}

/// Numbers below `10^w` padded with zeros to `w` digits compare as texts
/// exactly as they compare as numbers.
pub proof fn lemma_padded_order(n: nat, m: nat, w: nat)
    requires
        w >= 1,
        n < pow10(w),
        m < pow10(w),
    ensures
        text_lt(padded_decimal(n, w), padded_decimal(m, w)) == (n < m),
        padded_decimal(n, w).len() == w,
        (padded_decimal(n, w) == padded_decimal(m, w)) == (n == m),
    decreases w,
{
    lemma_padded_len(n, w);
    lemma_padded_len(m, w);
    if w == 1 {
        assert(pow10(1) == 10 * pow10(0));
        assert(padded_decimal(n, 1) =~= seq![digit(n)]);
        assert(padded_decimal(m, 1) =~= seq![digit(m)]);
        lemma_digit_code(n);
        lemma_digit_code(m);
        assert(seq![digit(n)].drop_first() =~= Seq::<char>::empty());
        assert(seq![digit(m)].drop_first() =~= Seq::<char>::empty());
        if n == m {
            lemma_text_lt_irreflexive(seq![digit(n)]);
        }
        if seq![digit(n)] == seq![digit(m)] {
            assert(seq![digit(n)][0] == seq![digit(m)][0]);
        }
    } else {
        lemma_padded_step(n, w);
        lemma_padded_step(m, w);
        assert(pow10(w) == 10 * pow10((w - 1) as nat));
        assert(n / 10 < pow10((w - 1) as nat)) by (nonlinear_arith)
            requires
                n < 10 * pow10((w - 1) as nat),
        ;
        assert(m / 10 < pow10((w - 1) as nat)) by (nonlinear_arith)
            requires
                m < 10 * pow10((w - 1) as nat),
        ;
        lemma_padded_order(n / 10, m / 10, (w - 1) as nat);
        assert(pow10(1) == 10) by {
            assert(pow10(1) == 10 * pow10(0));
        }
        lemma_padded_order(n % 10, m % 10, 1);
        let a = padded_decimal(n / 10, (w - 1) as nat);
        let b = padded_decimal(m / 10, (w - 1) as nat);
        assert(padded_decimal(n % 10, 1) =~= seq![digit(n % 10)]);
        assert(padded_decimal(m % 10, 1) =~= seq![digit(m % 10)]);
        assert(a.push(digit(n % 10)) =~= a + seq![digit(n % 10)]);
        assert(b.push(digit(m % 10)) =~= b + seq![digit(m % 10)]);
        lemma_text_lt_concat(a, seq![digit(n % 10)], b, seq![digit(m % 10)]);
        assert(n == 10 * (n / 10) + n % 10);
        assert(m == 10 * (m / 10) + m % 10);
        if a + seq![digit(n % 10)] == b + seq![digit(m % 10)] {
            assert((a + seq![digit(n % 10)]).subrange(0, a.len() as int) =~= a);
            assert((b + seq![digit(m % 10)]).subrange(0, b.len() as int) =~= b);
            assert((a + seq![digit(n % 10)])[a.len() as int] == digit(n % 10));
            assert((b + seq![digit(m % 10)])[b.len() as int] == digit(m % 10));
            assert(seq![digit(n % 10)] =~= seq![digit(m % 10)]);
        }
    }
}

} // verus!
