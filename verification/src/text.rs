//! Text as sequences of characters: equality, containment, prefixes and decimal numbers.

use vstd::prelude::*;

verus! {

/// Whether `needle` stands in `hay` at position `at`.
pub open spec fn occurs_at(hay: Seq<char>, needle: Seq<char>, at: int) -> bool {
    &&& 0 <= at
    &&& at + needle.len() <= hay.len()
    &&& hay.subrange(at, at + needle.len()) == needle
}

/// Whether `needle` stands anywhere in `hay`.
pub open spec fn holds_text(hay: Seq<char>, needle: Seq<char>) -> bool {
    exists|at: int| occurs_at(hay, needle, at)
}

/// Whether two strings hold the same characters.
pub fn same_text(a: &str, b: &str) -> (same: bool)
    ensures
        same == (a@ == b@),
{
    let n: usize = a.unicode_len();
    if n != b.unicode_len() {
        return false;
    }
    let mut i: usize = 0;
    while i < n
        invariant
            n == a@.len(),
            n == b@.len(),
            i <= n,
            forall|k: int| 0 <= k < i ==> a@[k] == b@[k],
        decreases n - i,
    {
        if a.get_char(i) != b.get_char(i) {
            return false;
        }
        i += 1;
    }
    assert(a@ =~= b@);
    true
}

/// Whether `needle` stands anywhere in `hay`.
pub fn contains_text(hay: &str, needle: &str) -> (found: bool)
    ensures
        found == holds_text(hay@, needle@),
{
    let n: usize = hay.unicode_len();
    let m: usize = needle.unicode_len();
    if m > n {
        return false;
    }
    let mut at: usize = 0;
    loop
        invariant
            n == hay@.len(),
            m == needle@.len(),
            m <= n,
            at <= n - m,
            forall|k: int| 0 <= k < at ==> !occurs_at(hay@, needle@, k),
        decreases n - m - at,
    {
        if same_text(hay.substring_char(at, at + m), needle) {
            assert(occurs_at(hay@, needle@, at as int));
            return true;
        }
        if at == n - m {
            return false;
        }
        at += 1;
    }
}

/// What follows `prefix` in `text`, where `text` starts with it.
pub fn strip_prefix<'a>(text: &'a str, prefix: &str) -> (rest: Option<&'a str>)
    ensures
        rest is Some <==> occurs_at(text@, prefix@, 0),
        rest matches Some(r) ==> text@ == prefix@ + r@,
{
    let n: usize = text.unicode_len();
    let m: usize = prefix.unicode_len();
    if m > n {
        return None;
    }
    if same_text(text.substring_char(0, m), prefix) {
        let rest = text.substring_char(m, n);
        assert(text@ =~= prefix@ + rest@);
        Some(rest)
    } else {
        None
    }
}

/// Whether `text` ends with `suffix`.
pub open spec fn ends_with(text: Seq<char>, suffix: Seq<char>) -> bool {
    occurs_at(text, suffix, text.len() - suffix.len())
}

/// Whether `text` ends with `suffix`.
pub fn has_suffix(text: &str, suffix: &str) -> (ends: bool)
    ensures
        ends == ends_with(text@, suffix@),
{
    let n: usize = text.unicode_len();
    let m: usize = suffix.unicode_len();
    m <= n && same_text(text.substring_char(n - m, n), suffix)
}

/// The character that writes the digit `d`.
pub open spec fn digit(d: nat) -> char {
    (48 + d) as char
}

/// `n` in decimal, without leading zeros.
pub open spec fn decimal(n: nat) -> Seq<char>
    decreases n,
{
    if n < 10 {
        seq![digit(n)]
    } else {
        decimal(n / 10).push(digit(n % 10))
    }
}

/// A prefix, a decimal number and a suffix, joined.
pub open spec fn numbered_name(prefix: Seq<char>, n: nat, suffix: Seq<char>) -> Seq<char> {
    prefix + decimal(n) + suffix
}

fn digit_text(d: usize) -> (text: &'static str)
    requires
        d < 10,
    ensures
        text@ == seq![digit(d as nat)],
{
    proof {
        reveal_strlit("0");
        reveal_strlit("1");
        reveal_strlit("2");
        reveal_strlit("3");
        reveal_strlit("4");
        reveal_strlit("5");
        reveal_strlit("6");
        reveal_strlit("7");
        reveal_strlit("8");
        reveal_strlit("9");
    }
    match d {
        0 => "0",
        1 => "1",
        2 => "2",
        3 => "3",
        4 => "4",
        5 => "5",
        6 => "6",
        7 => "7",
        8 => "8",
        _ => "9",
    }
}

fn decimal_text(n: usize) -> (text: String)
    ensures
        text@ == decimal(n as nat),
    decreases n,
{
    if n < 10 {
        String::from_str(digit_text(n))
    } else {
        let mut text = decimal_text(n / 10);
        text.append(digit_text(n % 10));
        text
    }
}

/// Joins a prefix, `n` in decimal and a suffix.
pub fn numbered(prefix: &str, n: usize, suffix: &str) -> (name: String)
    ensures
        name@ == numbered_name(prefix@, n as nat, suffix@),
{
    let mut name = String::from_str(prefix);
    let number = decimal_text(n);
    name.append(number.as_str());
    name.append(suffix);
    name
}

/// Two numbers written alike are the same number.
pub proof fn law_decimal_is_injective(a: nat, b: nat)
    requires
        decimal(a) == decimal(b),
    ensures
        a == b,
    decreases a,
{
    lemma_decimal_is_not_empty(a);
    lemma_decimal_is_not_empty(b);
    if a < 10 && b < 10 {
        assert(decimal(a)[0] == digit(a) && decimal(b)[0] == digit(b));
    } else if a < 10 {
        lemma_decimal_is_not_empty(b / 10);
        assert(decimal(b).len() >= 2);
    } else if b < 10 {
        lemma_decimal_is_not_empty(a / 10);
        assert(decimal(a).len() >= 2);
    } else {
        let da = decimal(a / 10);
        let db = decimal(b / 10);
        assert(da.push(digit(a % 10)).drop_last() =~= da);
        assert(db.push(digit(b % 10)).drop_last() =~= db);
        assert(decimal(a).last() == digit(a % 10));
        assert(decimal(b).last() == digit(b % 10));
        law_decimal_is_injective(a / 10, b / 10);
    }
}

proof fn lemma_decimal_is_not_empty(n: nat)
    ensures
        decimal(n).len() > 0,
{
}

/// Names that share prefix and suffix differ exactly where their numbers do.
pub proof fn law_numbered_names_differ(prefix: Seq<char>, a: nat, b: nat, suffix: Seq<char>)
    ensures
        numbered_name(prefix, a, suffix) == numbered_name(prefix, b, suffix) <==> a == b,
{
    let na = numbered_name(prefix, a, suffix);
    let nb = numbered_name(prefix, b, suffix);
    if na == nb {
        let from = prefix.len() as int;
        let to = na.len() - suffix.len();
        assert(na.subrange(from, to) =~= decimal(a));
        assert(nb.subrange(from, to) =~= decimal(b));
        law_decimal_is_injective(a, b);
    }
}

/// A text stands in another exactly where that is made of something, the text and something; it
/// starts or ends another where the first or the last of these is empty.
pub proof fn law_text_is_found_where_it_stands(hay: Seq<char>, needle: Seq<char>)
    ensures
        holds_text(hay, needle) <==> exists|before: Seq<char>, behind: Seq<char>|
            hay == #[trigger] (before + needle + behind),
        occurs_at(hay, needle, 0) <==> exists|behind: Seq<char>|
            hay == #[trigger] (needle + behind),
        ends_with(hay, needle) <==> exists|before: Seq<char>| hay == #[trigger] (before + needle),
{
    let n = needle.len() as int;
    if holds_text(hay, needle) {
        let at = choose|at: int| occurs_at(hay, needle, at);
        assert(hay =~= hay.take(at) + needle + hay.skip(at + n));
    }
    if exists|before: Seq<char>, behind: Seq<char>| hay == #[trigger] (before + needle + behind) {
        let (before, behind) = choose|before: Seq<char>, behind: Seq<char>|
            hay == #[trigger] (before + needle + behind);
        let at = before.len() as int;
        assert(hay.subrange(at, at + n) =~= needle);
        assert(occurs_at(hay, needle, at));
    }
    if occurs_at(hay, needle, 0) {
        assert(hay =~= needle + hay.skip(n));
    }
    if exists|behind: Seq<char>| hay == #[trigger] (needle + behind) {
        assert(hay.subrange(0, n) =~= needle);
    }
    if ends_with(hay, needle) {
        assert(hay =~= hay.take(hay.len() - n) + needle);
    }
    if exists|before: Seq<char>| hay == #[trigger] (before + needle) {
        assert(hay.subrange(hay.len() - n, hay.len() as int) =~= needle);
    }
}

/// The number that a row of digits writes.
pub open spec fn number_in(digits: Seq<char>) -> int
    decreases digits.len(),
{
    if digits.len() == 0 {
        0
    } else {
        number_in(digits.drop_last()) * 10 + (digits.last() as int - '0' as int)
    }
}

/// A number in decimal is a row of digits that writes it, with a zero in front for zero alone.
pub proof fn law_decimal_writes_its_number(n: nat)
    ensures
        number_in(decimal(n)) == n,
        decimal(n).len() > 0,
        forall|k: int| 0 <= k < decimal(n).len() ==> '0' <= #[trigger] decimal(n)[k] <= '9',
        decimal(n)[0] == '0' ==> n == 0 && decimal(n).len() == 1,
    decreases n,
{
    reveal_with_fuel(number_in, 2);
    if n >= 10 {
        law_decimal_writes_its_number(n / 10);
        let front = decimal(n / 10);
        assert(decimal(n).drop_last() =~= front);
        assert(decimal(n)[0] == front[0]);
        assert forall|k: int| 0 <= k < decimal(n).len() implies '0' <= #[trigger] decimal(n)[k]
            <= '9' by {
            if k < front.len() {
                assert(decimal(n)[k] == front[k]);
            }
        }
    } else {
        assert(decimal(n).drop_last() =~= Seq::<char>::empty());
    }
}

/// A numbered name is its prefix, then its number in decimal, then its suffix.
pub proof fn law_numbered_names_hold_their_parts(prefix: Seq<char>, n: nat, suffix: Seq<char>)
    ensures
        ({
            let name = numbered_name(prefix, n, suffix);
            let from = prefix.len() as int;
            let to = name.len() - suffix.len();
            &&& from <= to
            &&& name.take(from) == prefix
            &&& number_in(name.subrange(from, to)) == n
            &&& name.subrange(from, to) == decimal(n)
            &&& name.skip(to) == suffix
        }),
{
    let name = numbered_name(prefix, n, suffix);
    let from = prefix.len() as int;
    let to = name.len() - suffix.len();
    assert(name.take(from) =~= prefix);
    assert(name.subrange(from, to) =~= decimal(n));
    assert(name.skip(to) =~= suffix);
    law_decimal_writes_its_number(n);
}

} // verus!
