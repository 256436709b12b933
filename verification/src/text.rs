use vstd::prelude::*;

verus! {

use vstd::string::StringExecFns;
use crate::birthday::BirthdayKind;
use crate::birthday::BirthdayStatus;

pub open spec fn digit_char(d: int) -> char {
    if d == 0 {
        '0'
    } else if d == 1 {
        '1'
    } else if d == 2 {
        '2'
    } else if d == 3 {
        '3'
    } else if d == 4 {
        '4'
    } else if d == 5 {
        '5'
    } else if d == 6 {
        '6'
    } else if d == 7 {
        '7'
    } else if d == 8 {
        '8'
    } else {
        '9'
    }
}

/// The decimal digits of `n`, most significant first, with no leading zeros.
pub open spec fn spec_digits(n: int) -> Seq<char>
    decreases n,
{
    if n < 10 {
        seq![digit_char(n)]
    } else {
        spec_digits(n / 10).push(digit_char(n % 10))
    }
}

fn digit_str(d: u64) -> (r: &'static str)
    requires
        d < 10,
    ensures
        r@ =~= seq![digit_char(d as int)],
{
    proof {
        reveal_strlit("0");
        reveal_strlit("1");
        reveal_strlit("2");
        reveal_strlit("3");
        reveal_strlit("4");
        reveal_strlit("5");
        reveal_strlit("6");
        reveal_strlit("7");
        reveal_strlit("8");
        reveal_strlit("9");
    }
    if d == 0 {
        "0"
    } else if d == 1 {
        "1"
    } else if d == 2 {
        "2"
    } else if d == 3 {
        "3"
    } else if d == 4 {
        "4"
    } else if d == 5 {
        "5"
    } else if d == 6 {
        "6"
    } else if d == 7 {
        "7"
    } else if d == 8 {
        "8"
    } else {
        "9"
    }
}

/// Renders `n` in decimal, exactly as `spec_digits` states.
pub fn decimal_string(n: u64) -> (r: String)
    requires
        n < 1000,
    ensures
        r@ == spec_digits(n as int),
{
    let mut s = String::new();
    if n >= 100 {
        s.append(digit_str(n / 100));
    }
    if n >= 10 {
        s.append(digit_str((n / 10) % 10));
    }
    s.append(digit_str(n % 10));
    proof {
        let ni = n as int;
        if ni < 10 {
            vstd::arithmetic::div_mod::lemma_small_mod(n as nat, 10);
            assert(s@ =~= spec_digits(ni));
        } else if ni < 100 {
            vstd::arithmetic::div_mod::lemma_small_mod((n / 10) as nat, 10);
            assert(spec_digits(ni / 10) =~= seq![digit_char(ni / 10)]);
            assert(s@ =~= spec_digits(ni));
        } else {
            vstd::arithmetic::div_mod::lemma_div_denominator(ni, 10, 10);
            assert(ni / 10 >= 10 && ni / 10 < 100);
            assert(spec_digits(ni / 100) =~= seq![digit_char(ni / 100)]);
            assert(spec_digits(ni / 10) =~= seq![digit_char(ni / 100), digit_char((ni / 10) % 10)]);
            assert(s@ =~= spec_digits(ni));
        }
    }
    s
}

/// The greeting a read reports for a stored user: a birthday wish when the
/// birthday is today, otherwise the whole days remaining until the next one.
pub open spec fn spec_message(username: Seq<char>, st: BirthdayStatus) -> Seq<char> {
    if st.kind is Today {
        "Hello, "@ + username + "! Happy birthday!"@
    } else {
        "Hello, "@ + username + "! Your birthday is in "@ + spec_digits(st.days_until as int)
            + " day(s)"@
    }
}

/// Builds the greeting, exactly as `spec_message` states.
pub fn greeting(username: &str, st: &BirthdayStatus) -> (r: String)
    requires
        st.days_until < 1000,
    ensures
        r@ == spec_message(username@, *st),
{
    let mut s = String::from_str("Hello, ");
    s.append(username);
    match st.kind {
        BirthdayKind::Today => {
            s.append("! Happy birthday!");
        },
        BirthdayKind::Upcoming => {
            s.append("! Your birthday is in ");
            let d = decimal_string(st.days_until);
            s.append(d.as_str());
            s.append(" day(s)");
        },
    }
    proof {
        assert(s@ =~= spec_message(username@, *st));
    }
    s
}

/// The message a read reports for an unknown username.
pub open spec fn spec_not_found_message(username: Seq<char>) -> Seq<char> {
    "Username: "@ + username + " not found"@
}

/// Builds the not-found message, exactly as `spec_not_found_message` states.
pub fn not_found_message(username: &str) -> (r: String)
    ensures
        r@ == spec_not_found_message(username@),
{
    let mut s = String::from_str("Username: ");
    s.append(username);
    s.append(" not found");
    proof {
        assert(s@ =~= spec_not_found_message(username@));
    }
    s
}

} // verus!
