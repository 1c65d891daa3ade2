//! What texts of numbers read as, what replacing and trimming do, and how names are ordered.
use crate::text::{begins_with, bytes_before, decimal, replaced, trimmed};
use vstd::prelude::*;

verus! {

/// The value of a digit.
pub open spec fn digit_value(c: char) -> nat {
    if c == '1' {
        1
    } else if c == '2' {
        2
    } else if c == '3' {
        3
    } else if c == '4' {
        4
    } else if c == '5' {
        5
    } else if c == '6' {
        6
    } else if c == '7' {
        7
    } else if c == '8' {
        8
    } else if c == '9' {
        9
    } else {
        0
    }
}

/// What digits read as, the last one being the ones.
pub open spec fn read_decimal(text: Seq<char>) -> nat
    decreases text.len(),
{
    if text.len() == 0 {
        0
    } else {
        10 * read_decimal(text.drop_last()) + digit_value(text.last())
    }
}

/// A number that is written in digits is read back, and it is written without a zero in
/// front.
pub proof fn numbers_read_back(n: nat)
    ensures
        read_decimal(decimal(n)) == n,
        decimal(n).len() > 0,
        n > 0 ==> decimal(n)[0] != '0',
    decreases n,
{
    if n < 10 {
        assert(decimal(n).drop_last() =~= Seq::<char>::empty());
        assert(read_decimal(Seq::<char>::empty()) == 0);
    } else {
        numbers_read_back(n / 10);
        assert(decimal(n).drop_last() =~= decimal(n / 10));
        assert(decimal(n)[0] == decimal(n / 10)[0]);
    }
}

/// Whether a text stands somewhere in another one.
pub open spec fn occurs_at(text: Seq<char>, part: Seq<char>, at: int) -> bool {
    0 <= at <= text.len() && begins_with(text.skip(at), part)
}

/// Nothing is replaced in front of the first occurrence.
pub proof fn first_occurrence_is_replaced(
    text: Seq<char>,
    from: Seq<char>,
    to: Seq<char>,
    at: int,
)
    requires
        from.len() > 0,
        occurs_at(text, from, at),
        forall|i: int| 0 <= i < at ==> !#[trigger] occurs_at(text, from, i),
    ensures
        replaced(text, from, to) == text.take(at) + to + replaced(
            text.skip(at + from.len()),
            from,
            to,
        ),
    decreases at,
{
    assert(text.skip(0) =~= text);
    if at == 0 {
        assert(text.take(0) + to =~= to);
    } else {
        assert(!occurs_at(text, from, 0));
        let rest = text.skip(1);
        assert(rest.skip(at - 1) =~= text.skip(at));
        assert forall|i: int| 0 <= i < at - 1 implies !#[trigger] occurs_at(rest, from, i) by {
            assert(rest.skip(i) =~= text.skip(i + 1));
            assert(!occurs_at(text, from, i + 1));
        }
        first_occurrence_is_replaced(rest, from, to, at - 1);
        assert(rest.skip(at - 1 + from.len()) =~= text.skip(at + from.len()));
        assert(replaced(text, from, to) =~= text.take(at) + to + replaced(
            text.skip(at + from.len()),
            from,
            to,
        )) by {
            assert(seq![text[0]] + rest.take(at - 1) =~= text.take(at));
        }
    }
}

/// A text in which there is nothing to replace stays as it is.
pub proof fn others_are_not_replaced(text: Seq<char>, from: Seq<char>, to: Seq<char>)
    requires
        forall|i: int| 0 <= i <= text.len() ==> !#[trigger] occurs_at(text, from, i),
    ensures
        replaced(text, from, to) == text,
    decreases text.len(),
{
    if text.len() > 0 {
        assert(text.skip(0) =~= text);
        assert(!occurs_at(text, from, 0));
        let rest = text.skip(1);
        assert forall|i: int| 0 <= i <= rest.len() implies !#[trigger] occurs_at(rest, from, i) by {
            assert(rest.skip(i) =~= text.skip(i + 1));
            assert(!occurs_at(text, from, i + 1));
        }
        others_are_not_replaced(rest, from, to);
        assert(seq![text[0]] + rest =~= text);
    }
}

/// What is left of a trimmed text does not begin with what was trimmed, and stands at its
/// end.
pub proof fn trimmed_texts_begin_otherwise(text: Seq<char>, prefix: Seq<char>)
    requires
        prefix.len() > 0,
    ensures
        !begins_with(trimmed(text, prefix), prefix),
        trimmed(text, prefix).len() <= text.len(),
        text.skip(text.len() - trimmed(text, prefix).len()) == trimmed(text, prefix),
        !begins_with(text, prefix) ==> trimmed(text, prefix) == text,
        begins_with(text, prefix) ==> trimmed(text, prefix) == trimmed(
            text.skip(prefix.len() as int),
            prefix,
        ),
    decreases text.len(),
{
    if begins_with(text, prefix) {
        let rest = text.skip(prefix.len() as int);
        trimmed_texts_begin_otherwise(rest, prefix);
        let left = trimmed(rest, prefix);
        assert(text.skip(text.len() - left.len()) =~= rest.skip(rest.len() - left.len()));
    } else {
        assert(text.skip(0) =~= text);
    }
}

/// Of two byte strings the one with the lesser byte at the first place where they differ comes
/// first.
pub proof fn first_difference_decides(a: Seq<u8>, b: Seq<u8>, k: int)
    requires
        0 <= k < a.len(),
        k < b.len(),
        a[k] != b[k],
        forall|i: int| 0 <= i < k ==> #[trigger] a[i] == b[i],
    ensures
        bytes_before(a, b) <==> a[k] < b[k],
    decreases k,
{
    if k > 0 {
        let (x, y) = (a.drop_first(), b.drop_first());
        assert(a[0] == b[0]);
        assert forall|i: int| 0 <= i < k - 1 implies #[trigger] x[i] == y[i] by {
            assert(a[i + 1] == b[i + 1]);
        }
        first_difference_decides(x, y, k - 1);
    }
}

/// A byte string comes before those that go on from it.
pub proof fn shorter_comes_first(a: Seq<u8>, more: Seq<u8>)
    requires
        more.len() > 0,
    ensures
        bytes_before(a, a + more),
        !bytes_before(a + more, a),
    decreases a.len(),
{
    if a.len() > 0 {
        shorter_comes_first(a.drop_first(), more);
        assert((a + more).drop_first() =~= a.drop_first() + more);
    }
}

} // verus!
