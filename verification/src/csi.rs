//! Control-sequence parameter parsing: the numeric parameters of a CSI
//! sequence are its `;`-separated pieces that parse as `i64`.

use vstd::prelude::*;
use crate::text::{decimal, digit_char};

verus! {

/// Whether `c` is an ASCII decimal digit.
pub open spec fn is_digit(c: char) -> bool {
    '0' <= c && c <= '9'
}

/// Value of a string of decimal digits.
pub open spec fn digits_value(d: Seq<char>) -> nat
    decreases d.len(),
{
    if d.len() == 0 {
        0
    } else {
        digits_value(d.drop_last()) * 10 + ((d.last() as int - 48) as nat)
    }
}

/// Whether every character of `d` is an ASCII digit.
pub open spec fn all_digits(d: Seq<char>) -> bool {
    forall|k: int| 0 <= k < d.len() ==> is_digit(#[trigger] d[k])
}

/// The digit part of a number: `s` without a leading sign.
pub open spec fn unsigned_part(s: Seq<char>) -> Seq<char> {
    if s[0] == '-' || s[0] == '+' {
        s.drop_first()
    } else {
        s
    }
}

/// What `str::parse::<i64>` gives: an optional `+` or `-`, then one or more
/// ASCII digits, with the value in range; `None` for anything else.
pub open spec fn parse_i64(s: Seq<char>) -> Option<i64> {
    if s.len() == 0 {
        None
    } else if unsigned_part(s).len() == 0 || !all_digits(unsigned_part(s)) {
        None
    } else if s[0] == '-' {
        if digits_value(unsigned_part(s)) <= 9223372036854775808 {
            Some((0 - digits_value(unsigned_part(s))) as i64)
        } else {
            None
        }
    } else {
        if digits_value(unsigned_part(s)) <= 9223372036854775807 {
            Some(digits_value(unsigned_part(s)) as i64)
        } else {
            None
        }
    }
}

/// The pieces of `s` between `;` separators (`str::split(';')`): always at
/// least one piece, empty pieces kept.
pub open spec fn split_semi(s: Seq<char>) -> Seq<Seq<char>>
    decreases s.len(),
{
    if s.len() == 0 {
        seq![Seq::<char>::empty()]
    } else {
        let r = split_semi(s.drop_last());
        if s.last() == ';' {
            r.push(Seq::<char>::empty())
        } else {
            r.update(r.len() - 1, r.last().push(s.last()))
        }
    }
}

/// The parsed values of the pieces that parse, in order.
pub open spec fn parsed_pieces(p: Seq<Seq<char>>) -> Seq<i64>
    decreases p.len(),
{
    if p.len() == 0 {
        seq![]
    } else {
        parsed_pieces(p.drop_last()) + match parse_i64(p.last()) {
            Some(v) => seq![v],
            None => Seq::<i64>::empty(),
        }
    }
}

/// The numeric parameters of a CSI parameter string.
pub open spec fn csi_nums(params: Seq<char>) -> Seq<i64> {
    parsed_pieces(split_semi(params))
}

proof fn lemma_digits_grow(d: Seq<char>, k: int)
    requires
        0 <= k <= d.len(),
        forall|i: int| 0 <= i < d.len() ==> is_digit(#[trigger] d[i]),
    ensures
        digits_value(d.take(k)) <= digits_value(d),
    decreases d.len() - k,
{
    if k < d.len() {
        lemma_digits_grow(d, k + 1);
        assert(d.take(k + 1).drop_last() == d.take(k));
    } else {
        assert(d.take(k) == d);
    }
}

proof fn lemma_parse_nondigit(piece: Seq<char>, j: int)
    requires
        piece.len() > 0,
        0 <= j < unsigned_part(piece).len(),
        !is_digit(unsigned_part(piece)[j]),
    ensures
        parse_i64(piece).is_none(),
{
    assert(!all_digits(unsigned_part(piece)));
}

/// `str::parse::<i64>` on `s[from..to]`.
#[verifier::loop_isolation(false)]
pub fn parse_i64_range(s: &Vec<char>, from: usize, to: usize) -> (r: Option<i64>)
    requires
        from <= to <= s@.len(),
    ensures
        r == parse_i64(s@.subrange(from as int, to as int)),
{
    let ghost piece = s@.subrange(from as int, to as int);
    if from == to {
        return None;
    }
    let neg = s[from] == '-';
    let start = if s[from] == '-' || s[from] == '+' {
        from + 1
    } else {
        from
    };
    let ghost d = s@.subrange(start as int, to as int);
    assert(piece[0] == s@[from as int]);
    assert(d == unsigned_part(piece));
    if start == to {
        return None;
    }
    let mut i = start;
    while i < to
        invariant
            start <= i <= to <= s@.len(),
            forall|k: int| start <= k < i ==> is_digit(#[trigger] s@[k]),
        decreases to - i,
    {
        if !('0' <= s[i] && s[i] <= '9') {
            assert(d[i - start] == s@[i as int]);
            assert(!is_digit(d[i - start]));
            proof {
                lemma_parse_nondigit(piece, i - start);
            }
            return None;
        }
        i = i + 1;
    }
    assert(all_digits(d));
    let mut v: u64 = 0;
    let mut j = start;
    while j < to
        invariant
            start <= j <= to <= s@.len(),
            d == s@.subrange(start as int, to as int),
            forall|k: int| 0 <= k < d.len() ==> is_digit(#[trigger] d[k]),
            v as nat == digits_value(d.take(j - start)),
            v <= 9223372036854775808,
        decreases to - j,
    {
        assert(d[j - start] == s@[j as int]);
        assert(is_digit(d[j - start]));
        let dig: u64 = ((s[j] as u32) - 48) as u64;
        assert(d.take(j - start + 1).drop_last() == d.take(j - start));
        assert(d.take(j - start + 1).last() == s@[j as int]);
        proof {
            lemma_digits_grow(d, j - start + 1);
        }
        if v > 922337203685477580 {
            assert(digits_value(d.take(j - start + 1)) > 9223372036854775808);
            return None;
        }
        let nv = v * 10 + dig;
        if nv > 9223372036854775808 {
            return None;
        }
        v = nv;
        j = j + 1;
    }
    assert(d.take(d.len() as int) == d);
    if neg {
        if v == 9223372036854775808 {
            Some(i64::MIN)
        } else {
            Some(0 - (v as i64))
        }
    } else {
        if v > 9223372036854775807 {
            None
        } else {
            Some(v as i64)
        }
    }
}

/// The numeric parameters of the CSI parameter string `s[from..to]`.
pub fn parse_csi_nums(s: &Vec<char>, from: usize, to: usize) -> (nums: Vec<i64>)
    requires
        from <= to <= s@.len(),
    ensures
        nums@ == csi_nums(s@.subrange(from as int, to as int)),
{
    let mut nums: Vec<i64> = Vec::new();
    assert(s@.subrange(from as int, from as int) == Seq::<char>::empty());
    let mut start = from;
    let mut i = from;
    let ghost mut done: Seq<Seq<char>> = seq![];
    while i < to
        invariant
            from <= start <= i <= to <= s@.len(),
            split_semi(s@.subrange(from as int, i as int)) == done.push(
                s@.subrange(start as int, i as int),
            ),
            nums@ == parsed_pieces(done),
        decreases to - i,
    {
        let ghost pre = s@.subrange(from as int, i as int);
        assert(s@.subrange(from as int, i + 1).drop_last() == pre);
        if s[i] == ';' {
            let v = parse_i64_range(s, start, i);
            proof {
                assert(done.push(s@.subrange(start as int, i as int)).drop_last() == done);
            }
            if let Some(x) = v {
                nums.push(x);
            }
            proof {
                let nd = done.push(s@.subrange(start as int, i as int));
                assert(nd.drop_last() == done);
                assert(nums@ == parsed_pieces(nd));
                done = nd;
                assert(s@.subrange(i + 1, i + 1) == Seq::<char>::empty());
            }
            start = i + 1;
        } else {
            proof {
                assert(s@.subrange(start as int, i + 1) == s@.subrange(start as int, i as int).push(
                    s@[i as int],
                ));
            }
        }
        i = i + 1;
    }
    let v = parse_i64_range(s, start, to);
    if let Some(x) = v {
        nums.push(x);
    }
    proof {
        let nd = done.push(s@.subrange(start as int, to as int));
        assert(nd.drop_last() == done);
    }
    nums
}

pub proof fn lemma_decimal_digits(n: nat)
    ensures
        decimal(n).len() >= 1,
        all_digits(decimal(n)),
        digits_value(decimal(n)) == n,
    decreases n,
{
    let d = decimal(n);
    if n < 10 {
        assert(d == seq![digit_char(n)]);
        assert(d.drop_last() =~= Seq::<char>::empty());
        assert(digits_value(d.drop_last()) == 0);
        assert(d.last() == digit_char(n));
        assert((digit_char(n) as int) == n + 48);
        assert(((d.last() as int - 48) as nat) == n);
    } else {
        lemma_decimal_digits(n / 10);
        let p = decimal(n / 10);
        assert(d == p.push(digit_char(n % 10)));
        assert(d.drop_last() =~= p);
        assert(d.last() == digit_char(n % 10));
        assert((digit_char(n % 10) as int) == n % 10 + 48);
        assert(((d.last() as int - 48) as nat) == n % 10);
        assert(digits_value(d) == digits_value(p) * 10 + n % 10);
        assert(n == (n / 10) * 10 + n % 10);
        assert forall|k: int| 0 <= k < d.len() implies is_digit(#[trigger] d[k]) by {
            if k < p.len() {
                assert(d[k] == p[k]);
            }
        }
    }
}

pub proof fn lemma_split_no_semi(s: Seq<char>)
    requires
        forall|k: int| 0 <= k < s.len() ==> #[trigger] s[k] != ';',
    ensures
        split_semi(s) == seq![s],
    decreases s.len(),
{
    if s.len() > 0 {
        assert forall|k: int| 0 <= k < s.drop_last().len() implies #[trigger] s.drop_last()[k] != ';' by {
            assert(s.drop_last()[k] == s[k]);
        }
        lemma_split_no_semi(s.drop_last());
        assert(s.drop_last().push(s.last()) =~= s);
        assert(seq![s.drop_last()].update(0, s.drop_last().push(s.last())) =~= seq![s]);
    } else {
        assert(s =~= Seq::<char>::empty());
    }
}

/// The parameters of a CSI sequence written with one decimal number are that
/// number.
pub proof fn lemma_csi_nums_decimal(n: nat)
    requires
        n <= i64::MAX,
    ensures
        csi_nums(decimal(n)) == seq![n as i64],
        forall|k: int| 0 <= k < decimal(n).len() ==> is_digit(#[trigger] decimal(n)[k]),
{
    let d = decimal(n);
    lemma_decimal_digits(n);
    assert forall|k: int| 0 <= k < d.len() implies #[trigger] d[k] != ';' by {
        assert(is_digit(d[k]));
    }
    lemma_split_no_semi(d);
    assert(is_digit(d[0]));
    assert(unsigned_part(d) == d);
    assert(parse_i64(d) == Some(n as i64));
    let p = seq![d];
    assert(p.drop_last() =~= Seq::<Seq<char>>::empty());
    assert(p.last() == d);
    assert(parsed_pieces(Seq::<Seq<char>>::empty()) == Seq::<i64>::empty());
    assert(parsed_pieces(p) =~= seq![n as i64]);
}

pub proof fn lemma_csi_nums_empty()
    ensures
        csi_nums(Seq::<char>::empty()) == Seq::<i64>::empty(),
{
    let p = split_semi(Seq::<char>::empty());
    assert(p == seq![Seq::<char>::empty()]);
    assert(p.drop_last() =~= Seq::<Seq<char>>::empty());
    assert(parsed_pieces(Seq::<Seq<char>>::empty()) == Seq::<i64>::empty());
    assert(parse_i64(p.last()) is None);
    assert(parsed_pieces(p) =~= Seq::<i64>::empty());
}

} // verus!
