use vstd::prelude::*;

verus! {

/// The character of a decimal digit.
pub open spec fn digit_char(d: nat) -> char {
    if d == 0 {
        '0'
    } else if d == 1 {
        '1'
    } else if d == 2 {
        '2'
    } else if d == 3 {
        '3'
    } else if d == 4 {
        '4'
    } else if d == 5 {
        '5'
    } else if d == 6 {
        '6'
    } else if d == 7 {
        '7'
    } else if d == 8 {
        '8'
    } else {
        '9'
    }
}

/// The decimal digits of a natural number, most significant first, without leading zeros.
pub open spec fn decimal_digits(n: nat) -> Seq<char>
    decreases n,
{
    if n < 10 {
        seq![digit_char(n)]
    } else {
        decimal_digits(n / 10).push(digit_char(n % 10))
    }
}

/// The decimal text of an integer, with a leading minus sign when it is negative.
pub open spec fn decimal_text(n: int) -> Seq<char> {
    if n < 0 {
        seq!['-'] + decimal_digits((-n) as nat)
    } else {
        decimal_digits(n as nat)
    }
}

/// `s` padded on the left with `'0'` up to `width` characters.
pub open spec fn zero_padded(s: Seq<char>, width: nat) -> Seq<char> {
    if s.len() >= width {
        s
    } else {
        Seq::new((width - s.len()) as nat, |i: int| '0') + s
    }
}

/// The digit `d` as text.
fn digit_text(d: u128) -> (r: &'static str)
    requires
        d < 10,
    ensures
        r@ == seq![digit_char(d as nat)],
{
    if d == 0 {
        proof {
            reveal_strlit("0");
        }
        "0"
    } else if d == 1 {
        proof {
            reveal_strlit("1");
        }
        "1"
    } else if d == 2 {
        proof {
            reveal_strlit("2");
        }
        "2"
    } else if d == 3 {
        proof {
            reveal_strlit("3");
        }
        "3"
    } else if d == 4 {
        proof {
            reveal_strlit("4");
        }
        "4"
    } else if d == 5 {
        proof {
            reveal_strlit("5");
        }
        "5"
    } else if d == 6 {
        proof {
            reveal_strlit("6");
        }
        "6"
    } else if d == 7 {
        proof {
            reveal_strlit("7");
        }
        "7"
    } else if d == 8 {
        proof {
            reveal_strlit("8");
        }
        "8"
    } else {
        proof {
            reveal_strlit("9");
        }
        "9"
    }
}

/// The decimal digits of `n`, most significant first, without leading zeros.
fn natural_text(n: u128) -> (r: String)
    ensures
        r@ == decimal_digits(n as nat),
    decreases n,
{
    if n < 10 {
        let mut s = String::new();
        s.append(digit_text(n));
        assert(s@ =~= seq![digit_char(n as nat)]);
        s
    } else {
        let mut s = natural_text(n / 10);
        s.append(digit_text(n % 10));
        assert(s@ =~= decimal_digits((n / 10) as nat).push(digit_char((n % 10) as nat)));
        s
    }
}

/// The decimal text of an integer, as `i128`'s `Display` writes it: a minus sign for
/// negative numbers, then the digits without leading zeros.
pub(crate) fn int_to_string(n: i128) -> (r: String)
    ensures
        r@ == decimal_text(n as int),
{
    if n < 0 {
        let m: u128 = (-(n + 1)) as u128 + 1;
        assert(m == -n);
        let digits = natural_text(m);
        let mut s = String::new();
        proof {
            reveal_strlit("-");
        }
        s.append("-");
        s.append(digits.as_str());
        assert(s@ =~= seq!['-'] + decimal_digits((-n) as nat));
        s
    } else {
        natural_text(n as u128)
    }
}

/// Whether two string slices hold the same characters.
pub fn text_eq(a: &str, b: &str) -> (r: bool)
    ensures
        r == (a@ == b@),
{
    let la = a.unicode_len();
    let lb = b.unicode_len();
    if la != lb {
        return false;
    }
    let mut i: usize = 0;
    while i < la
        invariant
            la == a@.len(),
            lb == b@.len(),
            la == lb,
            i <= la,
            forall|k: int| 0 <= k < i ==> a@[k] == b@[k],
        decreases la - i,
    {
        if a.get_char(i) != b.get_char(i) {
            return false;
        }
        i = i + 1;
    }
    assert(a@ =~= b@);
    true
}

/// A fresh `String` holding the characters of `s`.
pub fn owned(s: &str) -> (r: String)
    ensures
        r@ == s@,
{
    String::from_str(s)
}

/// The text of `prefix` followed by the decimal text of `n`.
pub fn prefixed_number(prefix: &str, n: i128) -> (r: String)
    ensures
        r@ == prefix@ + decimal_text(n as int),
{
    let mut s = owned(prefix);
    let digits = int_to_string(n);
    s.append(digits.as_str());
    s
}

/// The text of `prefix` followed by the decimal text of `n`, zero-padded to three digits.
pub fn prefixed_padded_number(prefix: &str, n: u32) -> (r: String)
    ensures
        r@ == prefix@ + zero_padded(decimal_text(n as int), 3),
{
    let mut s = owned(prefix);
    let digits = int_to_string(n as i128);
    let len = digits.as_str().unicode_len();
    let mut pad: usize = len;
    while pad < 3
        invariant
            len == digits@.len(),
            len <= pad <= 3 || (pad == len && len >= 3),
            s@ == prefix@ + Seq::new((pad - len) as nat, |i: int| '0'),
        decreases 3 - pad,
    {
        s.append("0");
        proof {
            reveal_strlit("0");
            assert(Seq::new((pad + 1 - len) as nat, |i: int| '0') =~= Seq::new(
                (pad - len) as nat,
                |i: int| '0',
            ) + "0"@);
        }
        pad = pad + 1;
    }
    s.append(digits.as_str());
    proof {
        if len >= 3 {
            assert(Seq::new((pad - len) as nat, |i: int| '0') =~= Seq::<char>::empty());
            assert(s@ =~= prefix@ + digits@);
        } else {
            assert(s@ =~= prefix@ + zero_padded(decimal_text(n as int), 3));
        }
    }
    s
}

/// `s` with every occurrence of the non-empty pattern `pat` replaced by `with`, the
/// occurrences taken from left to right without overlapping.
pub open spec fn replaced(s: Seq<char>, pat: Seq<char>, with: Seq<char>) -> Seq<char>
    decreases s.len(),
{
    if s.len() == 0 || pat.len() == 0 {
        s
    } else if pat.len() <= s.len() && s.take(pat.len() as int) == pat {
        with + replaced(s.skip(pat.len() as int), pat, with)
    } else {
        seq![s[0]] + replaced(s.skip(1), pat, with)
    }
}

/// Whether `pat` occurs in `s` at character position `i`.
fn occurs_at(s: &str, n: usize, i: usize, pat: &str, m: usize) -> (r: bool)
    requires
        n == s@.len(),
        m == pat@.len(),
        i <= n,
    ensures
        r == (m <= n - i && s@.subrange(i as int, i + m) == pat@),
{
    if m > n - i {
        return false;
    }
    let mut k: usize = 0;
    while k < m
        invariant
            n == s@.len(),
            m == pat@.len(),
            i + m <= n,
            k <= m,
            forall|j: int| 0 <= j < k ==> s@[i + j] == pat@[j],
        decreases m - k,
    {
        if s.get_char(i + k) != pat.get_char(k) {
            assert(s@.subrange(i as int, i + m)[k as int] != pat@[k as int]);
            return false;
        }
        k = k + 1;
    }
    assert(s@.subrange(i as int, i + m) =~= pat@);
    true
}

/// Replaces every occurrence of the non-empty `pat` in `s` by `with`, as `str::replace`
/// does.
pub fn replace_all(s: &str, pat: &str, with: &str) -> (r: String)
    requires
        pat@.len() > 0,
    ensures
        r@ == replaced(s@, pat@, with@),
{
    let n = s.unicode_len();
    let m = pat.unicode_len();
    let mut out = String::new();
    let mut i: usize = 0;
    proof {
        assert(s@.skip(0) =~= s@);
        assert(out@ + replaced(s@, pat@, with@) =~= replaced(s@, pat@, with@));
    }
    while i < n
        invariant
            n == s@.len(),
            m == pat@.len(),
            m > 0,
            i <= n,
            out@ + replaced(s@.skip(i as int), pat@, with@) == replaced(s@, pat@, with@),
        decreases n - i,
    {
        let rest = Ghost(s@.skip(i as int));
        if occurs_at(s, n, i, pat, m) {
            proof {
                assert(rest@.take(m as int) =~= s@.subrange(i as int, i + m));
                assert(rest@.skip(m as int) =~= s@.skip(i + m));
                assert(out@ + (with@ + replaced(s@.skip(i + m), pat@, with@)) =~= (out@ + with@)
                    + replaced(s@.skip(i + m), pat@, with@));
            }
            out.append(with);
            i = i + m;
        } else {
            let c = s.substring_char(i, i + 1);
            proof {
                if m <= rest@.len() {
                    assert(rest@.take(m as int) =~= s@.subrange(i as int, i + m));
                }
                assert(rest@.skip(1) =~= s@.skip(i + 1));
                assert(c@ =~= seq![rest@[0]]);
                assert(out@ + (c@ + replaced(s@.skip(i + 1), pat@, with@)) =~= (out@ + c@)
                    + replaced(s@.skip(i + 1), pat@, with@));
            }
            out.append(c);
            i = i + 1;
        }
    }
    proof {
        assert(s@.skip(n as int) =~= Seq::<char>::empty());
        assert(out@ + Seq::<char>::empty() =~= out@);
    }
    out
}

/// The placeholder `{i}` that a text holds for its argument `i`.
pub open spec fn placeholder(i: nat) -> Seq<char> {
    seq!['{'] + decimal_digits(i) + seq!['}']
}

/// `t` with the placeholder of each argument replaced by it, argument 0 first.
pub open spec fn filled(t: Seq<char>, args: Seq<Seq<char>>) -> Seq<char>
    decreases args.len(),
{
    if args.len() == 0 {
        t
    } else {
        replaced(filled(t, args.drop_last()), placeholder((args.len() - 1) as nat), args.last())
    }
}

/// The text of a placeholder.
pub fn placeholder_text(i: usize) -> (r: String)
    ensures
        r@ == placeholder(i as nat),
{
    let mut s = prefixed_number("{", i as i128);
    s.append("}");
    proof {
        reveal_strlit("{");
        reveal_strlit("}");
        assert(s@ =~= placeholder(i as nat));
    }
    s
}

/// Fills the placeholders `{0}`, `{1}`, ... of `t` with `args`, in that order.
pub fn fill_placeholders(t: &str, args: &[&str]) -> (r: String)
    ensures
        r@ == filled(t@, args@.map_values(|a: &str| a@)),
{
    let ghost av = args@.map_values(|a: &str| a@);
    let mut out = owned(t);
    let mut i: usize = 0;
    while i < args.len()
        invariant
            av == args@.map_values(|a: &str| a@),
            i <= args@.len(),
            out@ == filled(t@, av.take(i as int)),
        decreases args.len() - i,
    {
        let ph = placeholder_text(i);
        proof {
            assert(ph@.len() > 0) by {
                assert(ph@[0] == '{');
            }
            assert(av.take(i + 1).drop_last() =~= av.take(i as int));
            assert(av.take(i + 1).last() == args@[i as int]@);
        }
        out = replace_all(out.as_str(), ph.as_str(), args[i]);
        i = i + 1;
    }
    assert(av.take(args@.len() as int) =~= av);
    out
}

/// `pat` occurs somewhere in `s`.
pub open spec fn has_substring(s: Seq<char>, pat: Seq<char>) -> bool {
    exists|i: int| 0 <= i <= s.len() - pat.len() && #[trigger] s.subrange(i, i + pat.len()) == pat
}

/// Whether `pat` occurs in `s`, as `str::contains` answers for a text pattern.
pub fn text_contains(s: &str, pat: &str) -> (r: bool)
    ensures
        r == has_substring(s@, pat@),
{
    let n = s.unicode_len();
    let m = pat.unicode_len();
    if m > n {
        return false;
    }
    if m == 0 {
        assert(s@.subrange(0int, 0int + pat@.len()) =~= pat@);
        return true;
    }
    let mut i: usize = 0;
    while i <= n - m
        invariant
            n == s@.len(),
            m == pat@.len(),
            1 <= m <= n,
            i <= n - m + 1,
            forall|k: int| 0 <= k < i ==> #[trigger] s@.subrange(k, k + m) != pat@,
        decreases n - m + 1 - i,
    {
        if occurs_at(s, n, i, pat, m) {
            return true;
        }
        i = i + 1;
    }
    false
}

} // verus!
