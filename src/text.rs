use vstd::prelude::*;
use vstd::string::*;
use vstd::utf8::{decode_utf8, valid_utf8};

verus! {

/// The pieces of `s` between occurrences of `sep`; there is always one
/// piece more than there are separators.
pub open spec fn split_at_sep<A>(s: Seq<A>, sep: A) -> Seq<Seq<A>>
    decreases s.len(),
{
    if s.len() == 0 {
        seq![Seq::<A>::empty()]
    } else {
        let rest = split_at_sep(s.drop_last(), sep);
        if s.last() == sep {
            rest.push(Seq::<A>::empty())
        } else {
            rest.update(rest.len() - 1, rest.last().push(s.last()))
        }
    }
}

pub open spec fn free_of<A>(s: Seq<A>, sep: A) -> bool {
    forall|i: int| 0 <= i < s.len() ==> s[i] != sep
}

pub proof fn lemma_split_nonempty<A>(s: Seq<A>, sep: A)
    ensures
        split_at_sep(s, sep).len() >= 1,
    decreases s.len(),
{
    if s.len() > 0 {
        lemma_split_nonempty(s.drop_last(), sep);
    }
}

/// One more element: either a new piece starts, or the last piece grows.
pub proof fn lemma_split_push<A>(s: Seq<A>, x: A, sep: A)
    ensures
        split_at_sep(s.push(x), sep) == (if x == sep {
            split_at_sep(s, sep).push(Seq::<A>::empty())
        } else {
            split_at_sep(s, sep).update(
                split_at_sep(s, sep).len() - 1,
                split_at_sep(s, sep).last().push(x),
            )
        }),
{
    assert(s.push(x).drop_last() =~= s);
}

/// Appending text free of the separator only extends the last piece.
pub proof fn lemma_split_append_free<A>(p: Seq<A>, q: Seq<A>, sep: A)
    requires
        free_of(q, sep),
    ensures
        split_at_sep(p + q, sep) == split_at_sep(p, sep).update(
            split_at_sep(p, sep).len() - 1,
            split_at_sep(p, sep).last() + q,
        ),
    decreases q.len(),
{
    lemma_split_nonempty(p, sep);
    let sp = split_at_sep(p, sep);
    if q.len() == 0 {
        assert(p + q =~= p);
        assert(sp.last() + q =~= sp.last());
        assert(sp.update(sp.len() - 1, sp.last()) =~= sp);
    } else {
        let q0 = q.drop_last();
        let x = q.last();
        assert(free_of(q0, sep));
        lemma_split_append_free(p, q0, sep);
        assert((p + q0).push(x) =~= p + q);
        lemma_split_push(p + q0, x, sep);
        assert((sp.last() + q0).push(x) =~= sp.last() + q);
        assert(sp.update(sp.len() - 1, sp.last() + q0).update(
            sp.len() - 1,
            (sp.last() + q0).push(x),
        ) =~= sp.update(sp.len() - 1, sp.last() + q));
    }
}

/// A piece of text with no separator in it is a single piece.
pub proof fn lemma_split_free<A>(q: Seq<A>, sep: A)
    requires
        free_of(q, sep),
    ensures
        split_at_sep(q, sep) == seq![q],
{
    lemma_split_append_free(Seq::<A>::empty(), q, sep);
    assert(Seq::<A>::empty() + q =~= q);
    assert(seq![Seq::<A>::empty()].update(0, Seq::<A>::empty() + q) =~= seq![q]);
}

/// The character of a decimal digit.
pub open spec fn digit_char(d: nat) -> char {
    if d == 0 { '0' }
    else if d == 1 { '1' }
    else if d == 2 { '2' }
    else if d == 3 { '3' }
    else if d == 4 { '4' }
    else if d == 5 { '5' }
    else if d == 6 { '6' }
    else if d == 7 { '7' }
    else if d == 8 { '8' }
    else { '9' }
}

/// Decimal text of a natural number, without leading zeros.
pub open spec fn nat_decimal(n: nat) -> Seq<char>
    decreases n,
{
    if n < 10 {
        seq![digit_char(n)]
    } else {
        nat_decimal(n / 10).push(digit_char(n % 10))
    }
}

/// Decimal text of an integer, with a leading `-` when it is negative.
pub open spec fn int_decimal(i: int) -> Seq<char> {
    if i < 0 {
        seq!['-'] + nat_decimal((-i) as nat)
    } else {
        nat_decimal(i as nat)
    }
}

fn digit_str(d: u64) -> (r: &'static str)
    requires
        d < 10,
    ensures
        r@ == seq![digit_char(d as nat)],
{
    proof {
        reveal_strlit("0");
        reveal_strlit("1");
        reveal_strlit("2");
        reveal_strlit("3");
        reveal_strlit("4");
        reveal_strlit("5");
        reveal_strlit("6");
        reveal_strlit("7");
        reveal_strlit("8");
        reveal_strlit("9");
    }
    match d {
        0 => "0",
        1 => "1",
        2 => "2",
        3 => "3",
        4 => "4",
        5 => "5",
        6 => "6",
        7 => "7",
        8 => "8",
        _ => "9",
    }
}

/// Decimal text of an unsigned number.
pub fn u64_to_decimal(n: u64) -> (r: String)
    ensures
        r@ == nat_decimal(n as nat),
{
    let mut m: u64 = n / 10;
    let mut r = String::from_str(digit_str(n % 10));
    while m > 0
        invariant
            m == 0 ==> nat_decimal(n as nat) == r@,
            m > 0 ==> nat_decimal(n as nat) == nat_decimal(m as nat) + r@,
        decreases m,
    {
        let d = digit_str(m % 10);
        proof {
            let dm = seq![digit_char((m % 10) as nat)];
            if m >= 10 {
                assert(nat_decimal(m as nat) == nat_decimal((m / 10) as nat).push(digit_char((m % 10) as nat)));
                assert(nat_decimal(m as nat) + r@ =~= nat_decimal((m / 10) as nat) + (dm + r@));
            } else {
                assert(nat_decimal(m as nat) == dm);
            }
        }
        r = String::from_str(d).concat(r.as_str());
        m = m / 10;
    }
    r
}

/// Decimal text of a signed number.
pub fn i64_to_decimal(i: i64) -> (r: String)
    ensures
        r@ == int_decimal(i as int),
{
    if i < 0 {
        let mag: u64 = ((-(i + 1)) as u64) + 1;
        let digits = u64_to_decimal(mag);
        let r = String::from_str("-").concat(digits.as_str());
        proof {
            reveal_strlit("-");
        }
        r
    } else {
        u64_to_decimal(i as u64)
    }
}

/// Relies on `String::from_utf8`: it accepts exactly the valid UTF-8 byte
/// sequences, and the string it returns holds the characters they encode.
#[verifier::external_body]
pub(crate) fn utf8_to_string(bytes: &Vec<u8>) -> (r: Option<String>)
    ensures
        r is Some <==> valid_utf8(bytes@),
        r is Some ==> r->Some_0@ == decode_utf8(bytes@),
{
    String::from_utf8(bytes.clone()).ok()
}

} // verus!
