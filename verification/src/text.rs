use vstd::prelude::*;
use vstd::string::StringExecFns;

verus! {

/// The character that writes the digit `d`, for `d < 10`.
pub open spec fn digit_char(d: nat) -> char {
    if d == 0 {
        '0'
    } else if d == 1 {
        '1'
    } else if d == 2 {
        '2'
    } else if d == 3 {
        '3'
    } else if d == 4 {
        '4'
    } else if d == 5 {
        '5'
    } else if d == 6 {
        '6'
    } else if d == 7 {
        '7'
    } else if d == 8 {
        '8'
    } else {
        '9'
    }
}

/// The decimal numeral of `n`: no sign, no leading zero, `"0"` for zero.
pub open spec fn decimal(n: nat) -> Seq<char>
    decreases n,
{
    if n < 10 {
        seq![digit_char(n)]
    } else {
        decimal(n / 10).push(digit_char(n % 10))
    }
}

/// The digits of `m` that are still to be written: none for zero.
spec fn lead(m: nat) -> Seq<char> {
    if m == 0 {
        Seq::empty()
    } else {
        decimal(m)
    }
}

/// The digits `ds`, given lowest first, written highest first from place `from`.
spec fn written(ds: Seq<u8>, from: int) -> Seq<char> {
    Seq::new((ds.len() - from) as nat, |j: int| digit_char(ds[ds.len() - 1 - j] as nat))
}

/// The text of one digit.
fn digit_str(d: u8) -> (s: &'static str)
    requires
        d < 10,
    ensures
        s@ == seq![digit_char(d as nat)],
{
    proof {
        reveal_strlit("0");
        reveal_strlit("1");
        reveal_strlit("2");
        reveal_strlit("3");
        reveal_strlit("4");
        reveal_strlit("5");
        reveal_strlit("6");
        reveal_strlit("7");
        reveal_strlit("8");
        reveal_strlit("9");
    }
    let s = if d == 0 {
        "0"
    } else if d == 1 {
        "1"
    } else if d == 2 {
        "2"
    } else if d == 3 {
        "3"
    } else if d == 4 {
        "4"
    } else if d == 5 {
        "5"
    } else if d == 6 {
        "6"
    } else if d == 7 {
        "7"
    } else if d == 8 {
        "8"
    } else {
        "9"
    };
    assert(s@ =~= seq![digit_char(d as nat)]);
    s
}

/// Writes `n` as a decimal numeral.
pub fn decimal_string(n: u128) -> (s: String)
    ensures
        s@ == decimal(n as nat),
{
    let mut ds: Vec<u8> = Vec::new();
    let mut m: u128 = n;
    if m == 0 {
        ds.push(0);
    }
    while m > 0
        invariant
            decimal(n as nat) == lead(m as nat) + written(ds@, 0),
            forall|i: int| 0 <= i < ds@.len() ==> #[trigger] ds@[i] < 10,
            m == 0 ==> ds@.len() > 0,
        decreases m,
    {
        let d = (m % 10) as u8;
        proof {
            let old_ds = ds@;
            let new_ds = old_ds.push(d);
            assert(written(new_ds, 0) =~= seq![digit_char(d as nat)] + written(old_ds, 0));
            assert(lead(m as nat) =~= lead((m / 10) as nat) + seq![digit_char(d as nat)]);
            assert(lead((m / 10) as nat) + written(new_ds, 0) =~= lead(m as nat) + written(
                old_ds,
                0,
            ));
        }
        ds.push(d);
        m = m / 10;
    }
    let mut s = String::new();
    let mut i: usize = ds.len();
    assert(s@ + written(ds@, i as int) =~= written(ds@, i as int));
    assert(written(ds@, i as int) =~= Seq::<char>::empty());
    assert(lead(0) + written(ds@, 0) =~= written(ds@, 0));
    while i > 0
        invariant
            i <= ds@.len(),
            forall|k: int| 0 <= k < ds@.len() ==> #[trigger] ds@[k] < 10,
            s@ == Seq::new(
                (ds@.len() - i) as nat,
                |j: int| digit_char(ds@[ds@.len() - 1 - j] as nat),
            ),
        decreases i,
    {
        i -= 1;
        let ghost before = s@;
        s.append(digit_str(ds[i]));
        assert(s@ =~= Seq::new(
            (ds@.len() - i) as nat,
            |j: int| digit_char(ds@[ds@.len() - 1 - j] as nat),
        ));
    }
    assert(s@ =~= written(ds@, 0));
    s
}

/// Two digits written by the same character are the same digit.
pub proof fn lemma_digit_injective(a: nat, b: nat)
    requires
        a < 10,
        b < 10,
        digit_char(a) == digit_char(b),
    ensures
        a == b,
{
}

/// Two numbers with the same decimal numeral are the same number.
pub proof fn lemma_decimal_injective(a: nat, b: nat)
    requires
        decimal(a) == decimal(b),
    ensures
        a == b,
    decreases a,
{
    if a < 10 && b < 10 {
        assert(decimal(a)[0] == digit_char(a));
        assert(decimal(b)[0] == digit_char(b));
        lemma_digit_injective(a, b);
    } else if a < 10 {
        lemma_decimal_len(b / 10);
        assert(decimal(b).len() >= 2);
        assert(decimal(a).len() == 1);
    } else if b < 10 {
        lemma_decimal_len(a / 10);
        assert(decimal(a).len() >= 2);
        assert(decimal(b).len() == 1);
    } else {
        let x = decimal(a / 10);
        let y = decimal(b / 10);
        let da = digit_char(a % 10);
        let db = digit_char(b % 10);
        assert(decimal(a) == x.push(da));
        assert(decimal(b) == y.push(db));
        assert(x.push(da).last() == da);
        assert(y.push(db).last() == db);
        assert(x =~= x.push(da).drop_last());
        assert(y =~= y.push(db).drop_last());
        lemma_decimal_injective(a / 10, b / 10);
        lemma_digit_injective(a % 10, b % 10);
        assert(a == 10 * (a / 10) + a % 10);
        assert(b == 10 * (b / 10) + b % 10);
    }
}

/// A numeral has at least one digit.
pub proof fn lemma_decimal_len(n: nat)
    ensures
        decimal(n).len() >= 1,
    decreases n,
{
    if n >= 10 {
        lemma_decimal_len(n / 10);
    }
}

/// Whether `c` is one of the ten digits.
pub open spec fn is_digit(c: char) -> bool {
    '0' <= c && c <= '9'
}

/// The digit that `c` writes.
pub open spec fn digit_value(c: char) -> nat {
    (c as u32 - '0' as u32) as nat
}

/// Whether `s` holds digits only.
pub open spec fn all_digits(s: Seq<char>) -> bool {
    forall|i: int| 0 <= i < s.len() ==> is_digit(#[trigger] s[i])
}

/// The number that the digits of `s` write.
pub open spec fn digits_value(s: Seq<char>) -> nat
    decreases s.len(),
{
    if s.len() == 0 {
        0
    } else {
        10 * digits_value(s.drop_last()) + digit_value(s.last())
    }
}

/// The digits of a numeral: the text without a leading `+`.
pub open spec fn unsigned_part(s: Seq<char>) -> Seq<char> {
    if s.len() > 0 && s[0] == '+' {
        s.drop_first()
    } else {
        s
    }
}

/// The number that `s` writes, if it writes one no larger than `max`: an
/// optional `+`, then one or more digits and nothing else.
pub open spec fn parsed_number(s: Seq<char>, max: nat) -> Option<nat> {
    let body = unsigned_part(s);
    if body.len() > 0 && all_digits(body) && digits_value(body) <= max {
        Some(digits_value(body))
    } else {
        None
    }
}

/// A longer run of digits writes no smaller a number than its beginning.
pub proof fn lemma_digits_grow(s: Seq<char>, i: int, j: int)
    requires
        0 <= i <= j <= s.len(),
    ensures
        digits_value(s.take(i)) <= digits_value(s.take(j)),
    decreases j - i,
{
    if i < j {
        lemma_digits_grow(s, i, j - 1);
        assert(s.take(j).drop_last() =~= s.take(j - 1));
    }
}

/// The value of the digit `c`, or `None` where `c` is no digit.
fn digit_of(c: char) -> (d: Option<u8>)
    ensures
        match d {
            Some(v) => is_digit(c) && v == digit_value(c) && v < 10,
            None => !is_digit(c),
        },
{
    if '0' <= c && c <= '9' {
        Some((c as u32 - '0' as u32) as u8)
    } else {
        None
    }
}

/// Reads a decimal numeral no larger than `max`.
pub fn parse_number(s: &str, max: u128) -> (r: Option<u128>)
    ensures
        match r {
            Some(n) => parsed_number(s@, max as nat) == Some(n as nat),
            None => parsed_number(s@, max as nat).is_none(),
        },
{
    let n = s.unicode_len();
    let start: usize = if n > 0 && s.get_char(0) == '+' {
        1
    } else {
        0
    };
    let ghost body = unsigned_part(s@);
    assert(body =~= s@.skip(start as int));
    if start >= n {
        return None;
    }
    let mut acc: u128 = 0;
    let mut i: usize = start;
    assert(body.take(0) =~= Seq::<char>::empty());
    while i < n
        invariant
            start <= i <= n,
            n == s@.len(),
            body == s@.skip(start as int),
            body == unsigned_part(s@),
            acc == digits_value(body.take(i - start)),
            acc <= max,
            all_digits(body.take(i - start)),
        decreases n - i,
    {
        let c = s.get_char(i);
        let ghost at = i - start;
        assert(body[at] == c);
        proof {
            assert(body.take(at + 1).drop_last() =~= body.take(at));
            assert(body.take(at + 1).last() == c);
            lemma_digits_grow(body, at + 1, body.len() as int);
            assert(body.take(body.len() as int) =~= body);
        }
        match digit_of(c) {
            None => {
                return None;
            },
            Some(d) => {
                if acc > max / 10 {
                    return None;
                }
                let tens = acc * 10;
                if d as u128 > max - tens {
                    return None;
                }
                acc = tens + d as u128;
                assert(all_digits(body.take(at + 1))) by {
                    assert forall|k: int| 0 <= k < at + 1 implies is_digit(
                        #[trigger] body.take(at + 1)[k],
                    ) by {
                        if k < at {
                            assert(body.take(at + 1)[k] == body.take(at)[k]);
                        }
                    }
                }
            },
        }
        i += 1;
    }
    assert(body.take(body.len() as int) =~= body);
    Some(acc)
}

/// Reads a decimal numeral that fits `u64`.
pub fn parse_u64(s: &str) -> (r: Option<u64>)
    ensures
        match r {
            Some(n) => parsed_number(s@, u64::MAX as nat) == Some(n as nat),
            None => parsed_number(s@, u64::MAX as nat).is_none(),
        },
{
    match parse_number(s, u64::MAX as u128) {
        Some(n) => Some(n as u64),
        None => None,
    }
}

/// Reads a decimal numeral that fits `u128`.
pub fn parse_u128(s: &str) -> (r: Option<u128>)
    ensures
        match r {
            Some(n) => parsed_number(s@, u128::MAX as nat) == Some(n as nat),
            None => parsed_number(s@, u128::MAX as nat).is_none(),
        },
{
    parse_number(s, u128::MAX)
}

/// The numeral of `n` holds digits only and writes `n`.
pub proof fn lemma_decimal_digits(n: nat)
    ensures
        all_digits(decimal(n)),
        digits_value(decimal(n)) == n,
        decimal(n).len() > 0,
    decreases n,
{
    if n < 10 {
        assert(decimal(n).drop_last() =~= Seq::<char>::empty());
        assert(digits_value(decimal(n).drop_last()) == 0);
    } else {
        lemma_decimal_digits(n / 10);
        let front = decimal(n / 10);
        let d = digit_char(n % 10);
        assert(front.push(d).drop_last() =~= front);
        assert(front.push(d).last() == d);
        assert forall|i: int| 0 <= i < decimal(n).len() implies is_digit(
            #[trigger] decimal(n)[i],
        ) by {
            if i < front.len() {
                assert(decimal(n)[i] == front[i]);
            }
        }
    }
}

/// Reading what was written gives the number back.
pub proof fn lemma_parse_inverts_decimal(n: nat, max: nat)
    requires
        n <= max,
    ensures
        parsed_number(decimal(n), max) == Some(n),
{
    lemma_decimal_digits(n);
    assert(is_digit(decimal(n)[0]));
}

} // verus!
