use vstd::prelude::*;
use vstd::string::StringExecFns;

verus! {

/// The character of the decimal digit `d`.
pub open spec fn digit_char(d: nat) -> char {
    ((d + 48) as u8) as char
}

/// The decimal digits of `n`, most significant first, without leading zeros.
pub open spec fn decimal_digits(n: nat) -> Seq<char>
    decreases n,
{
    if n < 10 {
        seq![digit_char(n)]
    } else {
        decimal_digits(n / 10).push(digit_char(n % 10))
    }
}

/// The stem of every executable's path.
pub open spec fn executable_stem() -> Seq<char> {
    "./executable"@
}

/// The path tried at the `attempt`-th probe: the stem alone first, then the
/// stem followed by 0, 1, 2, ...
pub open spec fn executable_path(attempt: nat) -> Seq<char> {
    if attempt == 0 {
        executable_stem()
    } else {
        executable_stem() + decimal_digits((attempt - 1) as nat)
    }
}

/// The one-character string of the decimal digit `d`.
fn digit_str(d: usize) -> (r: &'static str)
    requires
        d < 10,
    ensures
        r@ == seq![digit_char(d as nat)],
{
    proof {
        reveal_strlit("0");
        reveal_strlit("1");
        reveal_strlit("2");
        reveal_strlit("3");
        reveal_strlit("4");
        reveal_strlit("5");
        reveal_strlit("6");
        reveal_strlit("7");
        reveal_strlit("8");
        reveal_strlit("9");
    }
    if d == 0 {
        assert("0"@ =~= seq![digit_char(0)]);
        "0"
    } else if d == 1 {
        assert("1"@ =~= seq![digit_char(1)]);
        "1"
    } else if d == 2 {
        assert("2"@ =~= seq![digit_char(2)]);
        "2"
    } else if d == 3 {
        assert("3"@ =~= seq![digit_char(3)]);
        "3"
    } else if d == 4 {
        assert("4"@ =~= seq![digit_char(4)]);
        "4"
    } else if d == 5 {
        assert("5"@ =~= seq![digit_char(5)]);
        "5"
    } else if d == 6 {
        assert("6"@ =~= seq![digit_char(6)]);
        "6"
    } else if d == 7 {
        assert("7"@ =~= seq![digit_char(7)]);
        "7"
    } else if d == 8 {
        assert("8"@ =~= seq![digit_char(8)]);
        "8"
    } else {
        assert("9"@ =~= seq![digit_char(9)]);
        "9"
    }
}

/// The decimal digits of `n`, most significant first, with no sign and no
/// leading zero.
pub fn decimal(n: usize) -> (r: String)
    ensures
        r@ == decimal_digits(n as nat),
    decreases n,
{
    if n < 10 {
        String::from_str(digit_str(n))
    } else {
        let mut s = decimal(n / 10);
        s.append(digit_str(n % 10));
        assert(s@ =~= decimal_digits((n / 10) as nat).push(digit_char((n % 10) as nat)));
        s
    }
}

/// The path to try at the `attempt`-th probe for a fresh executable.
pub fn executable_name(attempt: usize) -> (r: String)
    ensures
        r@ == executable_path(attempt as nat),
{
    let mut name = String::from_str("./executable");
    if attempt > 0 {
        let digits = decimal(attempt - 1);
        name.append(digits.as_str());
    }
    name
}

/// Distinct probes try distinct paths.
pub proof fn lemma_executable_paths_distinct(a: nat, b: nat)
    requires
        a != b,
    ensures
        executable_path(a) != executable_path(b),
{
    lemma_decimal_digits_injective(a, b);
    if a > 0 && b > 0 {
        lemma_decimal_digits_injective((a - 1) as nat, (b - 1) as nat);
        let s = executable_stem();
        let x = s + decimal_digits((a - 1) as nat);
        let y = s + decimal_digits((b - 1) as nat);
        if x == y {
            assert(x.subrange(s.len() as int, x.len() as int) =~= decimal_digits((a - 1) as nat));
            assert(y.subrange(s.len() as int, y.len() as int) =~= decimal_digits((b - 1) as nat));
        }
    } else if a == 0 {
        lemma_decimal_digits_nonempty((b - 1) as nat);
        assert(executable_path(b).len() > executable_path(a).len());
    } else {
        lemma_decimal_digits_nonempty((a - 1) as nat);
        assert(executable_path(a).len() > executable_path(b).len());
    }
}

pub proof fn lemma_decimal_digits_nonempty(n: nat)
    ensures
        decimal_digits(n).len() >= 1,
    decreases n,
{
    if n >= 10 {
        lemma_decimal_digits_nonempty(n / 10);
    }
}

/// Different numbers have different decimal digits.
pub proof fn lemma_decimal_digits_injective(a: nat, b: nat)
    ensures
        decimal_digits(a) == decimal_digits(b) ==> a == b,
    decreases a + b,
{
    if decimal_digits(a) == decimal_digits(b) {
        lemma_decimal_digits_nonempty(a / 10);
        lemma_decimal_digits_nonempty(b / 10);
        if a < 10 && b < 10 {
            assert(digit_char(a) == decimal_digits(a)[0]);
            assert(digit_char(b) == decimal_digits(b)[0]);
        } else if a >= 10 && b >= 10 {
            let x = decimal_digits(a);
            let y = decimal_digits(b);
            assert(x.drop_last() =~= decimal_digits(a / 10));
            assert(y.drop_last() =~= decimal_digits(b / 10));
            lemma_decimal_digits_injective(a / 10, b / 10);
            assert(digit_char(a % 10) == x.last());
            assert(digit_char(b % 10) == y.last());
        } else if a < 10 {
            assert(decimal_digits(b).len() >= 2);
        } else {
            assert(decimal_digits(a).len() >= 2);
        }
    }
}

} // verus!
