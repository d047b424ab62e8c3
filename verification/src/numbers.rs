//! Decimal numbers as text: validated parsing of strictly positive integers
//! and rendering of line numbers in a fixed-width, tab-terminated field.
use vstd::prelude::*;
use vstd::string::StrSliceExecFns;
use vstd::string::StringExecFns;

verus! {

/// A decimal digit character, `'0'` through `'9'`.
pub open spec fn is_digit_char(c: char) -> bool {
    48 <= c as int <= 57
}

/// The numeric value of one decimal digit character.
pub open spec fn digit_val(c: char) -> nat {
    (c as int - 48) as nat
}

/// Every character of `s` is a decimal digit.
pub open spec fn all_digits(s: Seq<char>) -> bool {
    forall|i: int| 0 <= i < s.len() ==> is_digit_char(#[trigger] s[i])
}

/// The numeric value of a sequence of decimal digit characters, with the
/// most significant digit first.
pub open spec fn dec_value(s: Seq<char>) -> nat
    decreases s.len(),
{
    if s.len() == 0 {
        0
    } else {
        dec_value(s.drop_last()) * 10 + digit_val(s.last())
    }
}

/// The text of a strictly positive integer that fits the machine: a
/// non-empty run of digits whose value is at least one and at most
/// `usize::MAX`.
pub open spec fn positive_int_text(s: Seq<char>) -> bool {
    s.len() > 0 && all_digits(s) && 1 <= dec_value(s) <= usize::MAX
}

/// The character for one decimal digit value below ten.
pub open spec fn digit_char(d: nat) -> char {
    if d == 0 {
        '0'
    } else if d == 1 {
        '1'
    } else if d == 2 {
        '2'
    } else if d == 3 {
        '3'
    } else if d == 4 {
        '4'
    } else if d == 5 {
        '5'
    } else if d == 6 {
        '6'
    } else if d == 7 {
        '7'
    } else if d == 8 {
        '8'
    } else {
        '9'
    }
}

/// The shortest decimal representation of `n`: no leading zeros, and the
/// single digit `0` for zero.
pub open spec fn dec_rep(n: nat) -> Seq<char>
    decreases n,
{
    if n < 10 {
        seq![digit_char(n)]
    } else {
        dec_rep(n / 10).push(digit_char(n % 10))
    }
}

/// The decimal representation of a number is made of digits, is never
/// empty, and evaluates back to that number.
pub proof fn lemma_dec_rep_value(n: nat)
    ensures
        dec_rep(n).len() >= 1,
        all_digits(dec_rep(n)),
        dec_value(dec_rep(n)) == n,
    decreases n,
{
    if n < 10 {
        let s = seq![digit_char(n)];
        assert(s.drop_last() =~= Seq::<char>::empty());
        assert(dec_value(s) == dec_value(s.drop_last()) * 10 + digit_val(s.last()));
    } else {
        lemma_dec_rep_value(n / 10);
        let prefix = dec_rep(n / 10);
        let d = digit_char(n % 10);
        assert(prefix.push(d).drop_last() =~= prefix);
        assert(dec_value(prefix.push(d)) == dec_value(prefix) * 10 + digit_val(d));
        assert(digit_val(d) == n % 10);
        assert(dec_value(prefix) * 10 + n % 10 == n) by {
            assert(n / 10 * 10 + n % 10 == n);
        }
        assert forall|i: int| 0 <= i < prefix.push(d).len() implies is_digit_char(
            #[trigger] prefix.push(d)[i],
        ) by {
            if i < prefix.len() {
                assert(prefix.push(d)[i] == prefix[i]);
            }
        }
    }
}

/// Distinct numbers have distinct decimal representations.
pub proof fn lemma_dec_rep_injective(m: nat, n: nat)
    requires
        dec_rep(m) == dec_rep(n),
    ensures
        m == n,
{
    lemma_dec_rep_value(m);
    lemma_dec_rep_value(n);
}

/// Reading one more digit multiplies the value so far by ten and adds it.
pub proof fn lemma_dec_value_extend(s: Seq<char>, i: int)
    requires
        0 <= i < s.len(),
    ensures
        dec_value(s.subrange(0, i + 1)) == dec_value(s.subrange(0, i)) * 10 + digit_val(s[i]),
{
    assert(s.subrange(0, i + 1).drop_last() =~= s.subrange(0, i));
    assert(s.subrange(0, i + 1).last() == s[i]);
}

/// The value of a digit string is at least the value of any of its prefixes.
pub proof fn lemma_dec_value_prefix_le(s: Seq<char>, i: int)
    requires
        0 <= i <= s.len(),
    ensures
        dec_value(s.subrange(0, i)) <= dec_value(s),
    decreases s.len() - i,
{
    if i == s.len() {
        assert(s.subrange(0, i) =~= s);
    } else {
        lemma_dec_value_extend(s, i);
        lemma_dec_value_prefix_le(s, i + 1);
    }
}

/// A sequence of `k` space characters.
pub open spec fn spaces(k: nat) -> Seq<char>
    decreases k,
{
    if k == 0 {
        Seq::<char>::empty()
    } else {
        spaces((k - 1) as nat).push(' ')
    }
}

/// `s` padded on the left with spaces to width `w`; `s` itself when it is
/// already at least that wide.
pub open spec fn padded(s: Seq<char>, w: nat) -> Seq<char> {
    if s.len() >= w {
        s
    } else {
        spaces((w - s.len()) as nat) + s
    }
}

/// The text of a line number: its digits right-aligned in a field of width
/// six, followed by one tab.
pub open spec fn number_field(n: nat) -> Seq<char> {
    padded(dec_rep(n), 6) + seq!['\t']
}

/// A numbered output line: the number field, then the line's own text.
pub open spec fn numbered_line(n: nat, line: Seq<char>) -> Seq<char> {
    number_field(n) + line
}

fn digit_str(d: usize) -> (r: &'static str)
    requires
        d < 10,
    ensures
        r@ == seq![digit_char(d as nat)],
{
    let r: &'static str = if d == 0 {
        "0"
    } else if d == 1 {
        "1"
    } else if d == 2 {
        "2"
    } else if d == 3 {
        "3"
    } else if d == 4 {
        "4"
    } else if d == 5 {
        "5"
    } else if d == 6 {
        "6"
    } else if d == 7 {
        "7"
    } else if d == 8 {
        "8"
    } else {
        "9"
    };
    proof {
        reveal_strlit("0");
        reveal_strlit("1");
        reveal_strlit("2");
        reveal_strlit("3");
        reveal_strlit("4");
        reveal_strlit("5");
        reveal_strlit("6");
        reveal_strlit("7");
        reveal_strlit("8");
        reveal_strlit("9");
        assert(r@ =~= seq![digit_char(d as nat)]);
    }
    r
}

/// Render `n` in decimal.
pub fn fmt_usize(n: usize) -> (r: String)
    ensures
        r@ == dec_rep(n as nat),
    decreases n,
{
    if n < 10 {
        String::from_str(digit_str(n))
    } else {
        let mut s = fmt_usize(n / 10);
        let d = digit_str(n % 10);
        s.append(d);
        proof {
            assert(dec_rep((n as nat) / 10).push(digit_char((n as nat) % 10)) =~= dec_rep(
                (n as nat) / 10,
            ) + seq![digit_char((n as nat) % 10)]);
        }
        s
    }
}

/// Pad `s` on the left with spaces to at least `width` characters.
pub fn pad_left(s: &str, width: usize) -> (r: String)
    ensures
        r@ == padded(s@, width as nat),
{
    let len = s.unicode_len();
    let mut r = String::new();
    let mut k: usize = len;
    while k < width
        invariant
            len == s@.len(),
            len <= k,
            k <= width || k == len,
            r@ == spaces((k - len) as nat),
        decreases width - k,
    {
        r.append(" ");
        k = k + 1;
        proof {
            reveal_strlit(" ");
            assert(spaces((k - len) as nat) =~= spaces((k - 1 - len) as nat).push(' '));
            assert(r@ =~= spaces((k - len) as nat));
        }
    }
    r.append(s);
    proof {
        assert(r@ =~= padded(s@, width as nat));
    }
    r
}

/// Render the number field that precedes a numbered line: the digits of
/// `n` right-aligned to width six, then one tab.
pub fn number_prefix(n: usize) -> (r: String)
    ensures
        r@ == number_field(n as nat),
{
    let digits = fmt_usize(n);
    let mut r = pad_left(digits.as_str(), 6);
    r.append("\t");
    proof {
        reveal_strlit("\t");
        assert(r@ =~= number_field(n as nat));
    }
    r
}

/// Parse a strictly positive decimal integer. Returns the value exactly
/// when the whole input is a non-empty run of digits whose value is at
/// least one and fits in `usize`; otherwise returns the offending input
/// unchanged as the error.
pub fn parse_positive_int(val: &str) -> (r: Result<usize, String>)
    ensures
        r is Ok <==> positive_int_text(val@),
        r is Ok ==> r->Ok_0 == dec_value(val@),
        r is Err ==> r->Err_0@ == val@,
{
    let n = val.unicode_len();
    if n == 0 {
        return Err(val.to_owned());
    }
    let mut acc: usize = 0;
    let mut i: usize = 0;
    while i < n
        invariant
            n == val@.len(),
            i <= n,
            all_digits(val@.subrange(0, i as int)),
            acc == dec_value(val@.subrange(0, i as int)),
        decreases n - i,
    {
        let c = val.get_char(i);
        let cv = c as u32;
        if cv < 48 || cv > 57 {
            proof {
                assert(!is_digit_char(val@[i as int]));
            }
            return Err(val.to_owned());
        }
        let d = (cv - 48) as usize;
        let next = match acc.checked_mul(10) {
            Some(m) => m.checked_add(d),
            None => None,
        };
        proof {
            lemma_dec_value_extend(val@, i as int);
            assert(val@.subrange(0, i as int).push(val@[i as int]) =~= val@.subrange(
                0,
                i as int + 1,
            ));
        }
        match next {
            None => {
                proof {
                    lemma_dec_value_prefix_le(val@, i as int + 1);
                }
                return Err(val.to_owned());
            },
            Some(v) => {
                acc = v;
            },
        }
        i = i + 1;
    }
    proof {
        assert(val@.subrange(0, n as int) =~= val@);
    }
    if acc == 0 {
        Err(val.to_owned())
    } else {
        Ok(acc)
    }
}

} // verus!
