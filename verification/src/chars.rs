//! Character-sequence utilities: bridging `String` and `Vec<char>`,
//! decimal formatting and parsing, and lexicographic comparison.

use vstd::prelude::*;

verus! {

broadcast use vstd::string::group_string_axioms;

/// Relies on `String::push`: appends one character to the string.
#[verifier::external_body]
pub fn push_char(s: &mut String, c: char)
    ensures
        final(s)@ == old(s)@.push(c),
{
    s.push(c)
}

/// Relies on `str::chars`: yields exactly the characters of the string,
/// in order.
#[verifier::external_body]
pub fn str_to_chars(s: &str) -> (v: Vec<char>)
    ensures
        v@ == s@,
{
    s.chars().collect()
}

/// Build a `String` holding exactly the given characters.
pub fn chars_to_string(v: &Vec<char>) -> (s: String)
    ensures
        s@ == v@,
{
    let mut s = String::new();
    let mut i: usize = 0;
    while i < v.len()
        invariant
            i <= v.len(),
            s@ == v@.take(i as int),
        decreases v.len() - i,
    {
        push_char(&mut s, v[i]);
        i = i + 1;
        proof {
            assert(s@ =~= v@.take(i as int));
        }
    }
    proof {
        assert(s@ =~= v@);
    }
    s
}

/// The character standing for one decimal digit.
pub open spec fn digit_char(d: int) -> char {
    if d == 0 {
        '0'
    } else if d == 1 {
        '1'
    } else if d == 2 {
        '2'
    } else if d == 3 {
        '3'
    } else if d == 4 {
        '4'
    } else if d == 5 {
        '5'
    } else if d == 6 {
        '6'
    } else if d == 7 {
        '7'
    } else if d == 8 {
        '8'
    } else {
        '9'
    }
}

/// Whether a character is a decimal digit.
pub open spec fn is_digit_char(c: char) -> bool {
    c == '0' || c == '1' || c == '2' || c == '3' || c == '4' || c == '5' || c == '6' || c == '7'
        || c == '8' || c == '9'
}

/// The value of a decimal digit character.
pub open spec fn digit_val(c: char) -> int {
    if c == '0' {
        0
    } else if c == '1' {
        1
    } else if c == '2' {
        2
    } else if c == '3' {
        3
    } else if c == '4' {
        4
    } else if c == '5' {
        5
    } else if c == '6' {
        6
    } else if c == '7' {
        7
    } else if c == '8' {
        8
    } else {
        9
    }
}

/// The decimal digits of a natural number, most significant first.
pub open spec fn dec_digits(n: nat) -> Seq<char>
    decreases n,
{
    if n < 10 {
        seq![digit_char(n as int)]
    } else {
        dec_digits(n / 10).push(digit_char((n % 10) as int))
    }
}

/// The decimal rendering of an integer: a minus sign for negative
/// numbers, then the digits of the magnitude.
pub open spec fn int_str(i: int) -> Seq<char> {
    if i < 0 {
        seq!['-'] + dec_digits((-i) as nat)
    } else {
        dec_digits(i as nat)
    }
}

/// Whether every character of the sequence is a decimal digit.
pub open spec fn all_digits(s: Seq<char>) -> bool {
    forall|i: int| 0 <= i < s.len() ==> is_digit_char(#[trigger] s[i])
}

/// The numeric value of a sequence of decimal digits.
pub open spec fn dec_value(s: Seq<char>) -> int
    decreases s.len(),
{
    if s.len() == 0 {
        0
    } else {
        dec_value(s.drop_last()) * 10 + digit_val(s.last())
    }
}

/// Whether a character sequence is a well-formed integer literal:
/// an optional sign followed by at least one digit.
pub open spec fn valid_int_str(s: Seq<char>) -> bool {
    if s.len() > 0 && (s[0] == '+' || s[0] == '-') {
        s.len() > 1 && all_digits(s.skip(1))
    } else {
        s.len() > 0 && all_digits(s)
    }
}

/// The integer a well-formed integer literal denotes.
pub open spec fn int_of_str(s: Seq<char>) -> int {
    if s.len() > 0 && s[0] == '-' {
        -dec_value(s.skip(1))
    } else if s.len() > 0 && s[0] == '+' {
        dec_value(s.skip(1))
    } else {
        dec_value(s)
    }
}

/// Formatting a natural number yields digits whose value is the number
/// again; the sequence is never empty and consists of digits only.
pub proof fn lemma_dec_digits_value(n: nat)
    ensures
        dec_value(dec_digits(n)) == n,
        dec_digits(n).len() >= 1,
        all_digits(dec_digits(n)),
    decreases n,
{
    if n < 10 {
        let s = dec_digits(n);
        assert(s =~= seq![digit_char(n as int)]);
        assert(s.drop_last() =~= Seq::<char>::empty());
        assert(dec_value(s.drop_last()) == 0);
        assert(s.last() == digit_char(n as int));
        assert(digit_val(digit_char(n as int)) == n);
        assert(dec_value(s) == n);
    } else {
        lemma_dec_digits_value(n / 10);
        let prefix = dec_digits(n / 10);
        let whole = prefix.push(digit_char((n % 10) as int));
        assert(whole.drop_last() =~= prefix);
        assert(whole.last() == digit_char((n % 10) as int));
        assert(dec_value(whole) == dec_value(prefix) * 10 + (n % 10));
    }
}

/// Appending digits never shrinks the denoted value.
proof fn lemma_dec_value_prefix(s: Seq<char>, i: int)
    requires
        0 <= i <= s.len(),
        all_digits(s),
    ensures
        0 <= dec_value(s.take(i)) <= dec_value(s),
    decreases s.len() - i,
{
    if i == s.len() {
        assert(s.take(i) =~= s);
        lemma_dec_value_nonneg(s);
    } else {
        lemma_dec_value_prefix(s, i + 1);
        let shorter = s.take(i);
        let longer = s.take(i + 1);
        assert(longer.drop_last() =~= shorter);
        assert(dec_value(longer) == dec_value(shorter) * 10 + digit_val(longer.last()));
        lemma_dec_value_nonneg(shorter);
    }
}

/// The value of a digit sequence is never negative.
proof fn lemma_dec_value_nonneg(s: Seq<char>)
    requires
        all_digits(s),
    ensures
        dec_value(s) >= 0,
    decreases s.len(),
{
    if s.len() > 0 {
        assert(all_digits(s.drop_last()));
        lemma_dec_value_nonneg(s.drop_last());
    }
}

/// Render one decimal digit.
pub fn digit_to_char(d: u8) -> (c: char)
    requires
        d < 10,
    ensures
        c == digit_char(d as int),
{
    if d == 0 {
        '0'
    } else if d == 1 {
        '1'
    } else if d == 2 {
        '2'
    } else if d == 3 {
        '3'
    } else if d == 4 {
        '4'
    } else if d == 5 {
        '5'
    } else if d == 6 {
        '6'
    } else if d == 7 {
        '7'
    } else if d == 8 {
        '8'
    } else {
        '9'
    }
}

/// Recognise a decimal digit and give its value.
pub fn char_to_digit(c: char) -> (r: Option<u8>)
    ensures
        r is Some <==> is_digit_char(c),
        r is Some ==> r->0 == digit_val(c) && r->0 < 10,
{
    if c == '0' {
        Some(0)
    } else if c == '1' {
        Some(1)
    } else if c == '2' {
        Some(2)
    } else if c == '3' {
        Some(3)
    } else if c == '4' {
        Some(4)
    } else if c == '5' {
        Some(5)
    } else if c == '6' {
        Some(6)
    } else if c == '7' {
        Some(7)
    } else if c == '8' {
        Some(8)
    } else if c == '9' {
        Some(9)
    } else {
        None
    }
}

/// Format a natural number in decimal.
pub fn format_u128(n: u128) -> (r: Vec<char>)
    ensures
        r@ == dec_digits(n as nat),
    decreases n,
{
    if n < 10 {
        let mut v: Vec<char> = Vec::new();
        v.push(digit_to_char(n as u8));
        proof {
            assert(v@ =~= dec_digits(n as nat));
        }
        v
    } else {
        let mut v = format_u128(n / 10);
        v.push(digit_to_char((n % 10) as u8));
        v
    }
}

/// Format a signed integer in decimal, with a leading minus sign when
/// it is negative.
pub fn format_i128(n: i128) -> (r: Vec<char>)
    ensures
        r@ == int_str(n as int),
{
    if n >= 0 {
        format_u128(n as u128)
    } else {
        let magnitude: u128 = ((-(n + 1)) as u128) + 1;
        proof {
            assert(magnitude == -(n as int));
        }
        let mut v: Vec<char> = Vec::new();
        v.push('-');
        let digits = format_u128(magnitude);
        let mut i: usize = 0;
        while i < digits.len()
            invariant
                i <= digits.len(),
                v@ == seq!['-'] + digits@.take(i as int),
            decreases digits.len() - i,
        {
            v.push(digits[i]);
            i = i + 1;
            proof {
                assert(v@ =~= seq!['-'] + digits@.take(i as int));
            }
        }
        proof {
            assert(digits@.take(digits@.len() as int) =~= digits@);
            assert(v@ =~= seq!['-'] + dec_digits((-(n as int)) as nat));
        }
        v
    }
}

/// Parse the characters as a signed decimal integer, exactly as wide
/// integers are read: an optional sign, then digits, rejected when the
/// shape is wrong or the value does not fit.
#[verifier::rlimit(60)]
pub fn parse_i128(v: &Vec<char>) -> (r: Option<i128>)
    ensures
        r is Some <==> valid_int_str(v@) && i128::MIN <= int_of_str(v@) <= i128::MAX,
        r is Some ==> r->0 as int == int_of_str(v@),
{
    let mut start: usize = 0;
    let mut negative: bool = false;
    if v.len() == 0 {
        return None;
    }
    if v[0] == '-' {
        negative = true;
        start = 1;
    } else if v[0] == '+' {
        start = 1;
    }
    if start >= v.len() {
        return None;
    }
    let ghost body = v@.skip(start as int);
    proof {
        if start == 0 {
            assert(body =~= v@);
        }
        assert(valid_int_str(v@) ==> all_digits(body));
        assert(all_digits(body) ==> valid_int_str(v@));
        assert(valid_int_str(v@) ==> int_of_str(v@) == (if negative {
            -dec_value(body)
        } else {
            dec_value(body)
        }));
    }
    // The magnitude may not exceed this bound.
    let limit: u128 = if negative {
        170141183460469231731687303715884105728
    } else {
        170141183460469231731687303715884105727
    };
    let mut m: u128 = 0;
    let mut i: usize = start;
    while i < v.len()
        invariant
            start <= i <= v.len(),
            start < v.len(),
            body == v@.skip(start as int),
            valid_int_str(v@) <==> all_digits(body),
            valid_int_str(v@) ==> int_of_str(v@) == (if negative {
                -dec_value(body)
            } else {
                dec_value(body)
            }),
            all_digits(body.take(i - start)),
            m as int == dec_value(body.take(i - start)),
            m <= limit,
            limit == if negative {
                0x80000000000000000000000000000000u128
            } else {
                0x7fffffffffffffffffffffffffffffffu128
            },
        decreases v.len() - i,
    {
        let c = v[i];
        proof {
            assert(body[i - start] == v@[i as int]);
        }
        match char_to_digit(c) {
            None => {
                proof {
                    assert(0 <= i - start < body.len());
                    assert(body[i - start] == c);
                    assert(!is_digit_char(body[i - start]));
                    assert(!all_digits(body));
                    assert(!valid_int_str(v@));
                }
                return None;
            },
            Some(d) => {
                proof {
                    assert(body.take(i + 1 - start).drop_last() =~= body.take(i - start));
                    assert(body.take(i + 1 - start).last() == body[i - start]);
                }
                if m > (limit - (d as u128)) / 10 {
                    // Once the magnitude exceeds the bound it can only grow.
                    proof {
                        assert(m * 10 + d > limit) by (nonlinear_arith)
                            requires
                                m > (limit - (d as u128)) / 10,
                                d < 10,
                                m >= 0,
                                limit >= d,
                        ;
                        assert(dec_value(body.take(i + 1 - start)) > limit);
                        lemma_dec_value_grows(body, i + 1 - start);
                        if valid_int_str(v@) {
                            assert(body.take(body.len() as int) =~= body);
                            assert(dec_value(body) > limit);
                            assert(int_of_str(v@) == if negative {
                                -dec_value(body)
                            } else {
                                dec_value(body)
                            });
                        }
                    }
                    return None;
                }
                proof {
                    assert(m * 10 + d <= limit) by (nonlinear_arith)
                        requires
                            m <= (limit - (d as u128)) / 10,
                            d < 10,
                            m >= 0,
                            limit >= d,
                    ;
                }
                m = m * 10 + (d as u128);
                i = i + 1;
            },
        }
    }
    proof {
        assert(body.take(i - start) =~= body);
        assert(valid_int_str(v@));
    }
    if negative {
        if m == 170141183460469231731687303715884105728 {
            Some(i128::MIN)
        } else {
            Some(-(m as i128))
        }
    } else {
        Some(m as i128)
    }
}

/// If a digit prefix already exceeds a value, the whole sequence does too.
proof fn lemma_dec_value_grows(s: Seq<char>, i: int)
    requires
        0 <= i <= s.len(),
    ensures
        all_digits(s) ==> dec_value(s.take(i)) <= dec_value(s),
{
    if all_digits(s) {
        lemma_dec_value_prefix(s, i);
    }
}

/// Lexicographic order over character sequences, by code point.
pub open spec fn lex_cmp(a: Seq<char>, b: Seq<char>) -> core::cmp::Ordering
    decreases a.len(),
{
    if a.len() == 0 && b.len() == 0 {
        core::cmp::Ordering::Equal
    } else if a.len() == 0 {
        core::cmp::Ordering::Less
    } else if b.len() == 0 {
        core::cmp::Ordering::Greater
    } else if a[0] == b[0] {
        lex_cmp(a.skip(1), b.skip(1))
    } else if (a[0] as u32) < (b[0] as u32) {
        core::cmp::Ordering::Less
    } else {
        core::cmp::Ordering::Greater
    }
}

/// Sequences compare equal exactly when they are the same sequence.
pub proof fn lemma_lex_cmp_eq(a: Seq<char>, b: Seq<char>)
    ensures
        lex_cmp(a, b) == core::cmp::Ordering::Equal <==> a == b,
    decreases a.len(),
{
    if a.len() == 0 && b.len() == 0 {
        assert(a =~= b);
    } else if a.len() == 0 || b.len() == 0 {
        assert(a.len() != b.len());
    } else if a[0] == b[0] {
        lemma_lex_cmp_eq(a.skip(1), b.skip(1));
        if lex_cmp(a, b) == core::cmp::Ordering::Equal {
            assert(a.skip(1) == b.skip(1));
            assert(a.len() == a.skip(1).len() + 1);
            assert(b.len() == b.skip(1).len() + 1);
            assert forall|k: int| 0 <= k < a.len() implies a[k] == b[k] by {
                if k > 0 {
                    assert(0 <= k - 1 < a.skip(1).len());
                    assert(a.skip(1)[k - 1] == a[k - 1 + 1]);
                    assert(b.skip(1)[k - 1] == b[k - 1 + 1]);
                }
            }
            assert(a =~= b);
        } else {
            if a == b {
                assert(a.skip(1) =~= b.skip(1));
            }
        }
    } else {
        if a == b {
            assert(a[0] == b[0]);
        }
    }
}

/// The order is antisymmetric: swapping the arguments swaps the verdict.
pub proof fn lemma_lex_cmp_flip(a: Seq<char>, b: Seq<char>)
    ensures
        lex_cmp(a, b) == core::cmp::Ordering::Less <==> lex_cmp(b, a)
            == core::cmp::Ordering::Greater,
    decreases a.len(),
{
    if a.len() != 0 && b.len() != 0 {
        if a[0] == b[0] {
            lemma_lex_cmp_flip(a.skip(1), b.skip(1));
        } else {
            lemma_char_code_injective(a[0], b[0]);
        }
    }
}

/// Distinct characters have distinct code points.
proof fn lemma_char_code_injective(c1: char, c2: char)
    requires
        c1 != c2,
    ensures
        (c1 as u32) != (c2 as u32),
{
    if (c1 as u32) == (c2 as u32) {
        assert(c1 == c2);
    }
}

/// Compare two character vectors lexicographically.
pub fn cmp_chars(a: &Vec<char>, b: &Vec<char>) -> (r: core::cmp::Ordering)
    ensures
        r == lex_cmp(a@, b@),
    decreases a.len(),
{
    if a.len() == 0 && b.len() == 0 {
        core::cmp::Ordering::Equal
    } else if a.len() == 0 {
        core::cmp::Ordering::Less
    } else if b.len() == 0 {
        core::cmp::Ordering::Greater
    } else {
        if a[0] != b[0] {
            if (a[0] as u32) < (b[0] as u32) {
                return core::cmp::Ordering::Less;
            } else {
                return core::cmp::Ordering::Greater;
            }
        }
        {
            let mut a2: Vec<char> = Vec::new();
            let mut b2: Vec<char> = Vec::new();
            let mut i: usize = 1;
            while i < a.len()
                invariant
                    1 <= i <= a.len(),
                    a2@ == a@.subrange(1, i as int),
                decreases a.len() - i,
            {
                a2.push(a[i]);
                i = i + 1;
                proof {
                    assert(a2@ =~= a@.subrange(1, i as int));
                }
            }
            let mut j: usize = 1;
            while j < b.len()
                invariant
                    1 <= j <= b.len(),
                    b2@ == b@.subrange(1, j as int),
                decreases b.len() - j,
            {
                b2.push(b[j]);
                j = j + 1;
                proof {
                    assert(b2@ =~= b@.subrange(1, j as int));
                }
            }
            proof {
                assert(a2@ =~= a@.skip(1));
                assert(b2@ =~= b@.skip(1));
            }
            cmp_chars(&a2, &b2)
        }
    }
}

/// Whether two character vectors hold the same characters.
pub fn eq_chars(a: &Vec<char>, b: &Vec<char>) -> (r: bool)
    ensures
        r == (a@ == b@),
{
    if a.len() != b.len() {
        return false;
    }
    let mut i: usize = 0;
    while i < a.len()
        invariant
            i <= a.len(),
            a@.len() == b@.len(),
            forall|k: int| 0 <= k < i ==> a@[k] == b@[k],
        decreases a.len() - i,
    {
        if a[i] != b[i] {
            return false;
        }
        i = i + 1;
    }
    proof {
        assert(a@ =~= b@);
    }
    true
}

/// The view of a vector of character vectors.
pub open spec fn chunks_v(v: Vec<Vec<char>>) -> Seq<Seq<char>> {
    Seq::new(v@.len(), |i: int| v@[i]@)
}

/// Split a sequence at every separator, accumulating the piece under
/// construction and the pieces already finished.
pub open spec fn split_acc(s: Seq<char>, sep: char, cur: Seq<char>, acc: Seq<Seq<char>>) -> Seq<
    Seq<char>,
>
    decreases s.len(),
{
    if s.len() == 0 {
        acc.push(cur)
    } else if s[0] == sep {
        split_acc(s.skip(1), sep, Seq::empty(), acc.push(cur))
    } else {
        split_acc(s.skip(1), sep, cur.push(s[0]), acc)
    }
}

/// Split a sequence at every separator; there is always at least one
/// piece, and empty pieces are kept.
pub open spec fn split_seq(s: Seq<char>, sep: char) -> Seq<Seq<char>> {
    split_acc(s, sep, Seq::empty(), Seq::empty())
}

/// Split a character vector at every separator.
pub fn split_chars(s: &Vec<char>, sep: char) -> (r: Vec<Vec<char>>)
    ensures
        chunks_v(r) == split_seq(s@, sep),
{
    let mut out: Vec<Vec<char>> = Vec::new();
    let mut cur: Vec<char> = Vec::new();
    let mut i: usize = 0;
    proof {
        assert(s@.skip(0) =~= s@);
        assert(chunks_v(out) =~= Seq::<Seq<char>>::empty());
        assert(cur@ =~= Seq::<char>::empty());
    }
    while i < s.len()
        invariant
            i <= s@.len(),
            split_seq(s@, sep) == split_acc(s@.skip(i as int), sep, cur@, chunks_v(out)),
        decreases s@.len() - i,
    {
        proof {
            assert(s@.skip(i as int)[0] == s@[i as int]);
            assert(s@.skip(i as int).skip(1) =~= s@.skip(i + 1));
        }
        if s[i] == sep {
            let ghost prev = chunks_v(out);
            out.push(cur);
            cur = Vec::new();
            proof {
                assert(chunks_v(out) =~= prev.push(out@[out@.len() - 1]@));
                assert(cur@ =~= Seq::<char>::empty());
            }
        } else {
            cur.push(s[i]);
        }
        i = i + 1;
    }
    proof {
        assert(s@.skip(i as int).len() == 0);
    }
    let ghost prev = chunks_v(out);
    out.push(cur);
    proof {
        assert(chunks_v(out) =~= prev.push(out@[out@.len() - 1]@));
    }
    out
}

/// A sequence with every leading and trailing occurrence of one
/// character removed.
pub open spec fn trim_seq(s: Seq<char>, c: char) -> Seq<char>
    decreases s.len(),
{
    if s.len() > 0 && s[0] == c {
        trim_seq(s.skip(1), c)
    } else if s.len() > 0 && s.last() == c {
        trim_seq(s.drop_last(), c)
    } else {
        s
    }
}

/// The bounds of the untrimmed middle of `v` between `lo` and `hi`.
fn trim_range(v: &Vec<char>, c: char, lo: usize, hi: usize) -> (r: (usize, usize))
    requires
        lo <= hi <= v@.len(),
    ensures
        lo <= r.0 <= r.1 <= hi,
        v@.subrange(r.0 as int, r.1 as int) == trim_seq(v@.subrange(lo as int, hi as int), c),
    decreases hi - lo,
{
    let ghost sub = v@.subrange(lo as int, hi as int);
    if lo < hi && v[lo] == c {
        proof {
            assert(sub[0] == v@[lo as int]);
            assert(sub.skip(1) =~= v@.subrange(lo + 1, hi as int));
        }
        trim_range(v, c, lo + 1, hi)
    } else if lo < hi && v[hi - 1] == c {
        proof {
            assert(sub.last() == v@[hi - 1]);
            assert(sub[0] == v@[lo as int]);
            assert(sub.drop_last() =~= v@.subrange(lo as int, hi - 1));
        }
        trim_range(v, c, lo, hi - 1)
    } else {
        proof {
            if sub.len() > 0 {
                assert(sub[0] == v@[lo as int]);
                assert(sub.last() == v@[hi - 1]);
            }
        }
        (lo, hi)
    }
}

/// Remove every leading and trailing occurrence of one character.
pub fn trim_chars(v: &Vec<char>, c: char) -> (r: Vec<char>)
    ensures
        r@ == trim_seq(v@, c),
{
    let (lo, hi) = trim_range(v, c, 0, v.len());
    let mut out: Vec<char> = Vec::new();
    let mut i: usize = lo;
    while i < hi
        invariant
            lo <= i <= hi <= v@.len(),
            out@ == v@.subrange(lo as int, i as int),
        decreases hi - i,
    {
        out.push(v[i]);
        i = i + 1;
        proof {
            assert(out@ =~= v@.subrange(lo as int, i as int));
        }
    }
    proof {
        assert(v@.subrange(0, v@.len() as int) =~= v@);
        assert(out@ =~= v@.subrange(lo as int, hi as int));
    }
    out
}

} // verus!
