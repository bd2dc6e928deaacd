//! Searching and formatting text.

use vstd::prelude::*;

verus! {

/// `pat` stands in `text` at index `at`.
pub open spec fn occurs_at(text: Seq<char>, pat: Seq<char>, at: int) -> bool {
    &&& 0 <= at
    &&& at + pat.len() <= text.len()
    &&& text.subrange(at, at + pat.len()) == pat
}

/// `at` is the leftmost place at which `pat` stands in `text`.
pub open spec fn first_at(text: Seq<char>, pat: Seq<char>, at: int) -> bool {
    &&& occurs_at(text, pat, at)
    &&& forall|j: int| 0 <= j < at ==> !occurs_at(text, pat, j)
}

/// `pat` stands somewhere in `text`.
pub open spec fn contains(text: Seq<char>, pat: Seq<char>) -> bool {
    exists|i: int| occurs_at(text, pat, i)
}

/// What stands before the leftmost `pat` in `text`.
pub open spec fn before_first(text: Seq<char>, pat: Seq<char>) -> Seq<char> {
    text.take(choose|i: int| first_at(text, pat, i))
}

/// `text` with its leftmost `from`, if there is one, replaced by `to`.
pub open spec fn replace_first(text: Seq<char>, from: Seq<char>, to: Seq<char>) -> Seq<char> {
    if contains(text, from) {
        let head = before_first(text, from);
        head + to + text.skip((head.len() + from.len()) as int)
    } else {
        text
    }
}

/// `text` begins with `prefix`.
pub open spec fn has_prefix(text: Seq<char>, prefix: Seq<char>) -> bool {
    occurs_at(text, prefix, 0)
}

/// The digit character of `d`, for `d` below ten.
pub open spec fn digit_char(d: nat) -> char {
    (48 + d) as char
}

/// `n` in decimal, without leading zeros.
pub open spec fn decimal(n: nat) -> Seq<char>
    decreases n,
{
    if n < 10 {
        seq![digit_char(n)]
    } else {
        decimal(n / 10).push(digit_char(n % 10))
    }
}

/// `n` in decimal, with a minus sign where it is negative.
pub open spec fn signed_decimal(n: int) -> Seq<char> {
    if n < 0 {
        "-"@ + decimal((-n) as nat)
    } else {
        decimal(n as nat)
    }
}

/// What a row of digits is worth, each place ten times the one to its right.
pub open spec fn worth(s: Seq<char>) -> int
    decreases s.len(),
{
    if s.len() == 0 {
        0
    } else {
        worth(s.drop_last()) * 10 + (s.last() as int - 48)
    }
}

/// A number is printed as digits that are worth it, without a leading zero but
/// for zero itself, which is a single digit.
pub proof fn decimals_are_worth_their_number(n: nat)
    ensures
        worth(decimal(n)) == n,
        forall|i: int| 0 <= i < decimal(n).len() ==> '0' <= #[trigger] decimal(n)[i] <= '9',
        decimal(n).len() > 0,
        decimal(n)[0] == '0' <==> n == 0,
        n == 0 ==> decimal(n).len() == 1,
    decreases n,
{
    reveal_with_fuel(worth, 2);
    let s = decimal(n);
    if n < 10 {
        assert(s.drop_last() =~= Seq::empty());
        assert(s[0] as int == 48 + n);
    } else {
        decimals_are_worth_their_number(n / 10);
        assert(s.drop_last() =~= decimal(n / 10));
        assert(s.last() as int == 48 + n % 10);
        assert(s[0] == decimal(n / 10)[0]);
        assert forall|i: int| 0 <= i < s.len() implies '0' <= #[trigger] s[i] <= '9' by {
            if i < s.len() - 1 {
                assert(s[i] == decimal(n / 10)[i]);
            }
        }
    }
}

/// A negative number is printed with a minus sign before the digits of the
/// number without its sign.
pub proof fn minus_signs_stand_before_the_digits(n: nat)
    requires
        n > 0,
    ensures
        signed_decimal(-n) == seq!['-'] + decimal(n),
        signed_decimal(n as int) == decimal(n),
        signed_decimal(0) == seq!['0'],
{
    reveal_strlit("-");
    assert("-"@ =~= seq!['-']);
    assert(decimal(0) =~= seq!['0']);
}

/// There is only one leftmost place.
pub proof fn first_at_unique(text: Seq<char>, pat: Seq<char>, i: int, j: int)
    requires
        first_at(text, pat, i),
        first_at(text, pat, j),
    ensures
        i == j,
{
    if i < j {
        assert(!occurs_at(text, pat, i));
    }
    if j < i {
        assert(!occurs_at(text, pat, j));
    }
}

/// A pattern that stands somewhere in a text has a leftmost place in it.
pub proof fn first_at_exists(text: Seq<char>, pat: Seq<char>, at: int)
    requires
        occurs_at(text, pat, at),
    ensures
        exists|i: int| 0 <= i <= at && first_at(text, pat, i),
    decreases at,
{
    if exists|j: int| 0 <= j < at && occurs_at(text, pat, j) {
        let j = choose|j: int| 0 <= j < at && occurs_at(text, pat, j);
        first_at_exists(text, pat, j);
    } else {
        assert(first_at(text, pat, at));
    }
}

/// Where `pat` first stands behind `head`, what stands before it is `head`, and
/// replacing it leaves the text before it and behind it as it is. A text without
/// it stays as it is.
pub proof fn the_leftmost_place_counts(
    head: Seq<char>,
    pat: Seq<char>,
    tail: Seq<char>,
    to: Seq<char>,
)
    requires
        forall|j: int|
            0 <= j < head.len() ==> #[trigger] (head + pat + tail).subrange(j, j + pat.len())
                != pat,
    ensures
        contains(head + pat + tail, pat),
        before_first(head + pat + tail, pat) == head,
        replace_first(head + pat + tail, pat, to) == head + to + tail,
        forall|text: Seq<char>|
            (forall|j: int|
                0 <= j <= text.len() - pat.len() ==> #[trigger] text.subrange(j, j + pat.len())
                    != pat) ==> !contains(text, pat) && #[trigger] replace_first(text, pat, to)
                == text,
{
    let text = head + pat + tail;
    let n = head.len() as int;
    assert(text.subrange(n, n + pat.len()) =~= pat);
    assert(first_at(text, pat, n)) by {
        assert forall|j: int| 0 <= j < n implies !occurs_at(text, pat, j) by {
            assert(text.subrange(j, j + pat.len()) != pat);
        }
    }
    assert(occurs_at(text, pat, n));
    first_at_unique(text, pat, n, choose|i: int| first_at(text, pat, i));
    assert(text.take(n) =~= head);
    assert(text.skip(n + pat.len()) =~= tail);
    assert forall|text: Seq<char>|
        (forall|j: int|
            0 <= j <= text.len() - pat.len() ==> #[trigger] text.subrange(j, j + pat.len())
                != pat) implies !contains(text, pat) && #[trigger] replace_first(text, pat, to)
        == text by {
        assert forall|j: int| !occurs_at(text, pat, j) by {
            if occurs_at(text, pat, j) {
                assert(text.subrange(j, j + pat.len()) != pat);
            }
        }
    }
}

/// Where a text begins with `from`, it is that `from` which is replaced.
pub proof fn replace_at_front(text: Seq<char>, from: Seq<char>, to: Seq<char>)
    requires
        occurs_at(text, from, 0),
    ensures
        replace_first(text, from, to) == to + text.skip(from.len() as int),
{
    assert(first_at(text, from, 0));
    first_at_unique(text, from, 0, choose|i: int| first_at(text, from, i));
    assert(text.take(0) =~= Seq::empty());
    assert(replace_first(text, from, to) =~= to + text.skip(from.len() as int));
}

/// The characters of `s`.
pub fn to_chars(s: &str) -> (v: Vec<char>)
    ensures
        v@ == s@,
{
    let mut v: Vec<char> = Vec::new();
    for c in it: s.chars()
        invariant
            it.seq() == s@,
            v@ == it.seq().take(it.index() as int),
    {
        v.push(c);
        assert(it.seq().take(it.index() + 1) =~= it.seq().take(it.index() as int).push(c));
    }
    assert(s@.take(s@.len() as int) =~= s@);
    v
}

fn matches_at(text: &Vec<char>, pat: &Vec<char>, at: usize) -> (b: bool)
    requires
        at + pat.len() <= text.len(),
    ensures
        b == occurs_at(text@, pat@, at as int),
{
    let mut k: usize = 0;
    while k < pat.len()
        invariant
            k <= pat.len(),
            at + pat.len() <= text.len(),
            forall|j: int| 0 <= j < k ==> text@[at + j] == pat@[j],
        decreases pat.len() - k,
    {
        if text[at + k] != pat[k] {
            assert(text@.subrange(at as int, at + pat@.len())[k as int] != pat@[k as int]);
            return false;
        }
        k = k + 1;
    }
    assert(text@.subrange(at as int, at + pat@.len()) =~= pat@);
    true
}

/// The leftmost place of `pat` in `text`.
pub fn find(text: &str, pat: &str) -> (found: Option<usize>)
    ensures
        match found {
            Some(i) => first_at(text@, pat@, i as int),
            None => !contains(text@, pat@),
        },
{
    let t = to_chars(text);
    let p = to_chars(pat);
    if p.len() > t.len() {
        return None;
    }
    let last: usize = t.len() - p.len();
    let mut i: usize = 0;
    loop
        invariant
            t@ == text@,
            p@ == pat@,
            i <= last,
            last + p.len() == t.len(),
            forall|j: int| 0 <= j < i ==> !occurs_at(text@, pat@, j),
        decreases last - i,
    {
        if matches_at(&t, &p, i) {
            return Some(i);
        }
        if i == last {
            assert forall|j: int| !occurs_at(text@, pat@, j) by {
                if occurs_at(text@, pat@, j) {
                    assert(j <= last);
                }
            }
            return None;
        }
        i = i + 1;
    }
}

/// `s` split around the leftmost `pat`: what stands before it and after it.
pub fn split_once<'a>(s: &'a str, pat: &str) -> (r: Option<(&'a str, &'a str)>)
    ensures
        match r {
            Some((head, tail)) => {
                &&& contains(s@, pat@)
                &&& head@ == before_first(s@, pat@)
                &&& tail@ == s@.skip((head@.len() + pat@.len()) as int)
            },
            None => !contains(s@, pat@),
        },
{
    match find(s, pat) {
        Some(i) => {
            proof {
                first_at_unique(s@, pat@, i as int, choose|i: int| first_at(s@, pat@, i));
            }
            let n: usize = s.unicode_len();
            let m: usize = pat.unicode_len();
            let head = s.substring_char(0, i);
            let tail = s.substring_char(i + m, n);
            assert(head@ =~= s@.take(i as int));
            assert(tail@ =~= s@.skip(i + m));
            Some((head, tail))
        },
        None => None,
    }
}

/// `s` with its leftmost `from` replaced by `to`.
pub fn replacen_once(s: &str, from: &str, to: &str) -> (r: String)
    ensures
        r@ == replace_first(s@, from@, to@),
{
    match split_once(s, from) {
        Some((head, tail)) => head.to_owned().concat(to).concat(tail),
        None => s.to_owned(),
    }
}

pub fn starts_with(s: &str, prefix: &str) -> (b: bool)
    ensures
        b == has_prefix(s@, prefix@),
        b <==> prefix@.len() <= s@.len() && s@.take(prefix@.len() as int) == prefix@,
{
    let t = to_chars(s);
    let p = to_chars(prefix);
    if p.len() > t.len() {
        return false;
    }
    assert(s@.subrange(0, prefix@.len() as int) =~= s@.take(prefix@.len() as int));
    matches_at(&t, &p, 0)
}

/// Two texts hold the same characters.
pub fn same_text(a: &str, b: &str) -> (r: bool)
    ensures
        r == (a@ == b@),
{
    let x = to_chars(a);
    let y = to_chars(b);
    if x.len() != y.len() {
        return false;
    }
    let r = matches_at(&x, &y, 0);
    assert(x@.subrange(0, y@.len() as int) =~= x@);
    r
}

fn digit_text(d: u64) -> (s: &'static str)
    requires
        d < 10,
    ensures
        s@ == seq![digit_char(d as nat)],
{
    proof {
        reveal_strlit("0");
        reveal_strlit("1");
        reveal_strlit("2");
        reveal_strlit("3");
        reveal_strlit("4");
        reveal_strlit("5");
        reveal_strlit("6");
        reveal_strlit("7");
        reveal_strlit("8");
        reveal_strlit("9");
    }
    let s = match d {
        0 => "0",
        1 => "1",
        2 => "2",
        3 => "3",
        4 => "4",
        5 => "5",
        6 => "6",
        7 => "7",
        8 => "8",
        _ => "9",
    };
    assert(s@ =~= seq![digit_char(d as nat)]);
    s
}

/// `n` in decimal.
pub fn decimal_text(n: u64) -> (s: String)
    ensures
        s@ == decimal(n as nat),
    decreases n,
{
    if n < 10 {
        digit_text(n).to_owned()
    } else {
        let s = decimal_text(n / 10).concat(digit_text(n % 10));
        assert(s@ =~= decimal(n as nat));
        s
    }
}

/// `n` in decimal.
pub fn signed_decimal_text(n: i32) -> (s: String)
    ensures
        s@ == signed_decimal(n as int),
{
    let wide: i64 = n as i64;
    if wide < 0 {
        "-".to_owned().concat(decimal_text((-wide) as u64).as_str())
    } else {
        decimal_text(wide as u64)
    }
}

} // verus!
