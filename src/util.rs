//! Small text helpers shared by the codec and the router.
use vstd::prelude::*;
use vstd::string::*;

verus! {

/// Whether `prefix` opens `s`.
pub open spec fn has_prefix(s: Seq<char>, prefix: Seq<char>) -> bool {
    prefix.len() <= s.len() && s.subrange(0, prefix.len() as int) == prefix
}

/// Removes `prefix` from the front of `input`; `None` where `input` does
/// not begin with it.
pub fn strip_prefix_from_cow(input: String, prefix: &str) -> (r: Option<String>)
    ensures
        r is Some <==> has_prefix(input@, prefix@),
        r matches Some(rest) ==> rest@ == input@.subrange(prefix@.len() as int, input@.len() as int),
{
    let text = input.as_str();
    let n = prefix.unicode_len();
    let m = text.unicode_len();
    if n > m {
        return None;
    }
    let mut i: usize = 0;
    while i < n
        invariant
            n == prefix@.len(),
            m == text@.len(),
            text@ == input@,
            n <= m,
            i <= n,
            forall|k: int| 0 <= k < i ==> text@[k] == prefix@[k],
        decreases n - i,
    {
        if text.get_char(i) != prefix.get_char(i) {
            proof {
                assert(input@.subrange(0, n as int)[i as int] != prefix@[i as int]);
            }
            return None;
        }
        i = i + 1;
    }
    assert(input@.subrange(0, n as int) =~= prefix@);
    Some(String::from_str(text.substring_char(n, m)))
}

/// The position of the first `c` in `s`.
pub open spec fn first_index_of(s: Seq<char>, c: char) -> Option<nat>
    decreases s.len(),
{
    if s.len() == 0 {
        None
    } else if s[0] == c {
        Some(0)
    } else {
        match first_index_of(s.drop_first(), c) {
            Some(i) => Some(i + 1),
            None => None,
        }
    }
}

/// `s` split at its first `sep`: the text before it and the text after it.
pub open spec fn split_once_spec(s: Seq<char>, sep: char) -> Option<(Seq<char>, Seq<char>)> {
    match first_index_of(s, sep) {
        Some(i) => Some((s.subrange(0, i as int), s.subrange(i as int + 1, s.len() as int))),
        None => None,
    }
}

/// Splits `s` at its first `sep`.
pub fn split_once(s: &String, sep: char) -> (r: Option<(String, String)>)
    ensures
        r matches Some(p) ==> split_once_spec(s@, sep) == Some((p.0@, p.1@)),
        r is None ==> split_once_spec(s@, sep) is None,
{
    let text = s.as_str();
    let n = text.unicode_len();
    let ghost t = s@;
    assert(t.subrange(0, n as int) =~= t);
    let mut i: usize = 0;
    while i < n
        invariant
            t == s@,
            text@ == t,
            n == t.len(),
            i <= n,
            first_index_of(t, sep) == match first_index_of(t.subrange(i as int, n as int), sep) {
                Some(k) => Some((k + i) as nat),
                None => None,
            },
        decreases n - i,
    {
        let ghost rest = t.subrange(i as int, n as int);
        assert(rest[0] == t[i as int]);
        if text.get_char(i) == sep {
            assert(first_index_of(rest, sep) == Some(0nat));
            let before = String::from_str(text.substring_char(0, i));
            let after = String::from_str(text.substring_char(i + 1, n));
            return Some((before, after));
        }
        assert(rest.drop_first() =~= t.subrange(i + 1, n as int));
        i = i + 1;
    }
    assert(t.subrange(i as int, n as int) =~= Seq::<char>::empty());
    None
}

/// The decimal digit for `d`.
pub open spec fn digit_char(d: nat) -> char {
    if d == 0 { '0' } else if d == 1 { '1' } else if d == 2 { '2' } else if d == 3 { '3' }
    else if d == 4 { '4' } else if d == 5 { '5' } else if d == 6 { '6' } else if d == 7 { '7' }
    else if d == 8 { '8' } else { '9' }
}

/// The decimal text of `n`, without leading zeros (`0` for zero).
pub open spec fn decimal_digits(n: nat) -> Seq<char>
    decreases n,
{
    if n < 10 {
        seq![digit_char(n)]
    } else {
        decimal_digits(n / 10).push(digit_char(n % 10))
    }
}

fn digit_text(d: u64) -> (r: &'static str)
    requires
        d < 10,
    ensures
        r@ == seq![digit_char(d as nat)],
{
    proof {
        reveal_strlit("0");
        reveal_strlit("1");
        reveal_strlit("2");
        reveal_strlit("3");
        reveal_strlit("4");
        reveal_strlit("5");
        reveal_strlit("6");
        reveal_strlit("7");
        reveal_strlit("8");
        reveal_strlit("9");
    }
    let r = if d == 0 { "0" } else if d == 1 { "1" } else if d == 2 { "2" } else if d == 3 { "3" }
    else if d == 4 { "4" } else if d == 5 { "5" } else if d == 6 { "6" } else if d == 7 { "7" }
    else if d == 8 { "8" } else { "9" };
    assert(r@ =~= seq![digit_char(d as nat)]);
    r
}

/// The decimal text of `n`.
pub fn decimal_text(n: u64) -> (r: String)
    ensures
        r@ == decimal_digits(n as nat),
    decreases n,
{
    if n < 10 {
        String::from_str(digit_text(n))
    } else {
        let mut r = decimal_text(n / 10);
        r.append(digit_text(n % 10));
        r
    }
}

} // verus!
