//! Text building blocks: decimal numerals and the bracketed lists that messages print.

use vstd::prelude::*;

verus! {

/// The character of the decimal digit `d`.
pub open spec fn digit_char(d: nat) -> char {
    (48 + d) as char
}

/// `n` written in decimal, without leading zeros.
pub open spec fn decimal(n: nat) -> Seq<char>
    decreases n,
{
    if n < 10 {
        seq![digit_char(n)]
    } else {
        decimal(n / 10).push(digit_char(n % 10))
    }
}

/// `n` written in decimal, with a leading minus sign where it is negative.
pub open spec fn signed_decimal(n: int) -> Seq<char> {
    if n < 0 {
        "-"@ + decimal((-n) as nat)
    } else {
        decimal(n as nat)
    }
}

/// The first `k` elements of `s` in decimal, separated by a comma and a blank.
pub open spec fn joined_decimals(s: Seq<i64>, k: nat) -> Seq<char>
    decreases k,
{
    if k == 0 {
        Seq::empty()
    } else if k == 1 {
        signed_decimal(s[0] as int)
    } else {
        joined_decimals(s, (k - 1) as nat) + ", "@ + signed_decimal(s[k - 1] as int)
    }
}

/// A list of integers as it is printed: its elements in square brackets.
pub open spec fn list_text(s: Seq<i64>) -> Seq<char> {
    "["@ + joined_decimals(s, s.len()) + "]"@
}

/// The texts that a list of strings holds.
pub open spec fn texts(v: Seq<String>) -> Seq<Seq<char>> {
    Seq::new(v.len(), |i: int| v[i]@)
}

/// Two lists of strings hold the same texts when they agree at every place.
pub broadcast proof fn texts_push(v: Seq<String>, s: String)
    ensures
        #[trigger] texts(v.push(s)) == texts(v).push(s@),
{
    assert(texts(v.push(s)) =~= texts(v).push(s@));
}

fn digit_str(d: u64) -> (r: &'static str)
    requires
        d < 10,
    ensures
        r@ == seq![digit_char(d as nat)],
{
    proof {
        reveal_strlit("0");
        reveal_strlit("1");
        reveal_strlit("2");
        reveal_strlit("3");
        reveal_strlit("4");
        reveal_strlit("5");
        reveal_strlit("6");
        reveal_strlit("7");
        reveal_strlit("8");
        reveal_strlit("9");
    }
    match d {
        0 => "0",
        1 => "1",
        2 => "2",
        3 => "3",
        4 => "4",
        5 => "5",
        6 => "6",
        7 => "7",
        8 => "8",
        _ => "9",
    }
}

/// Appends `n` in decimal to `s`.
pub fn push_decimal(s: &mut String, n: u64)
    ensures
        final(s)@ == old(s)@ + decimal(n as nat),
    decreases n,
{
    if n < 10 {
        s.append(digit_str(n));
    } else {
        push_decimal(s, n / 10);
        s.append(digit_str(n % 10));
        assert(s@ =~= old(s)@ + decimal(n as nat));
    }
}

/// Appends `n` in decimal to `s`.
pub fn push_signed(s: &mut String, n: i64)
    ensures
        final(s)@ == old(s)@ + signed_decimal(n as int),
{
    if n < 0 {
        s.append("-");
        push_decimal(s, (-(n as i128)) as u64);
        assert(s@ =~= old(s)@ + signed_decimal(n as int));
    } else {
        push_decimal(s, n as u64);
    }
}

/// Appends the list `v` as it is printed to `s`.
pub fn push_list(s: &mut String, v: &Vec<i64>)
    ensures
        final(s)@ == old(s)@ + list_text(v@),
{
    s.append("[");
    let ghost head: Seq<char> = s@;
    let mut k: usize = 0;
    while k < v.len()
        invariant
            k <= v.len(),
            head == old(s)@ + "["@,
            s@ == head + joined_decimals(v@, k as nat),
        decreases v.len() - k,
    {
        if k > 0 {
            s.append(", ");
        }
        push_signed(s, v[k]);
        k += 1;
        assert(s@ =~= head + joined_decimals(v@, k as nat));
    }
    s.append("]");
    assert(s@ =~= old(s)@ + list_text(v@));
}

/// The number that a row of decimal digits stands for.
pub open spec fn read_decimal(s: Seq<char>) -> int
    decreases s.len(),
{
    if s.len() == 0 {
        0
    } else {
        10 * read_decimal(s.drop_last()) + (s.last() as int - '0' as int)
    }
}

/// A number in decimal is made of digits that give the number back, and begins with a zero only if
/// it is zero.
pub proof fn decimals_are_read_back(n: nat)
    ensures
        decimal(n).len() > 0,
        read_decimal(decimal(n)) == n,
        forall|i: int| 0 <= i < decimal(n).len() ==> '0' <= #[trigger] decimal(n)[i] <= '9',
        n > 0 ==> decimal(n)[0] != '0',
    decreases n,
{
    reveal_with_fuel(read_decimal, 2);
    if n < 10 {
        assert(seq![digit_char(n)].drop_last() =~= Seq::<char>::empty());
    } else {
        decimals_are_read_back(n / 10);
        let head = decimal(n / 10);
        let d = digit_char(n % 10);
        assert(head.push(d).drop_last() =~= head);
        assert forall|i: int| 0 <= i < decimal(n).len() implies '0' <= #[trigger] decimal(n)[i]
            <= '9' by {
            if i < head.len() {
                assert(decimal(n)[i] == head[i]);
            }
        }
    }
}

/// Different numbers are written differently.
pub proof fn decimals_identify(a: nat, b: nat)
    ensures
        decimal(a) == decimal(b) <==> a == b,
{
    decimals_are_read_back(a);
    decimals_are_read_back(b);
}

/// A negative number is written as a minus sign before what its opposite is written as, any other
/// as it is.
pub proof fn signs_are_written(n: int)
    ensures
        n < 0 ==> signed_decimal(n) == "-"@ + decimal((-n) as nat),
        n >= 0 ==> signed_decimal(n) == decimal(n as nat),
{
}

/// The empty list is a pair of brackets, a list of one number is that number in brackets, and one
/// more number stands behind a comma and a blank.
pub proof fn lists_are_written_in_order(s: Seq<i64>, x: i64, y: i64)
    requires
        s.len() > 0,
    ensures
        list_text(Seq::<i64>::empty()) == "["@ + Seq::<char>::empty() + "]"@,
        list_text(seq![x]) == "["@ + signed_decimal(x as int) + "]"@,
        list_text(s.push(y)) == "["@ + (joined_decimals(s, s.len()) + ", "@ + signed_decimal(
            y as int,
        )) + "]"@,
        list_text(s) == "["@ + joined_decimals(s, s.len()) + "]"@,
{
    lemma_joined_agree(s, s.push(y), s.len());
}

proof fn lemma_joined_agree(a: Seq<i64>, b: Seq<i64>, k: nat)
    requires
        k <= a.len(),
        k <= b.len(),
        forall|i: int| 0 <= i < k ==> a[i] == b[i],
    ensures
        joined_decimals(a, k) == joined_decimals(b, k),
    decreases k,
{
    if k > 0 {
        lemma_joined_agree(a, b, (k - 1) as nat);
    }
}

} // verus!
