//! Strings: numbers in words, comparisons, and replacements.
use vstd::prelude::*;
use vstd::string::{StrSliceExecFns, StringExecFns};

verus! {

/// The character of a decimal digit.
pub open spec fn digit_char(digit: nat) -> char {
    if digit == 0 {
        '0'
    } else if digit == 1 {
        '1'
    } else if digit == 2 {
        '2'
    } else if digit == 3 {
        '3'
    } else if digit == 4 {
        '4'
    } else if digit == 5 {
        '5'
    } else if digit == 6 {
        '6'
    } else if digit == 7 {
        '7'
    } else if digit == 8 {
        '8'
    } else {
        '9'
    }
}

/// A number in decimal digits.
pub open spec fn decimal(n: nat) -> Seq<char>
    decreases n,
{
    if n < 10 {
        seq![digit_char(n)]
    } else {
        decimal(n / 10).push(digit_char(n % 10))
    }
}

/// Different numbers have different digits.
pub proof fn decimal_is_injective(a: nat, b: nat)
    requires
        decimal(a) == decimal(b),
    ensures
        a == b,
    decreases a,
{
    let last_a = decimal(a).last();
    let last_b = decimal(b).last();
    assert(last_a == digit_char(a % 10)) by {
        if a < 10 {
            assert(a % 10 == a);
        }
    }
    assert(last_b == digit_char(b % 10)) by {
        if b < 10 {
            assert(b % 10 == b);
        }
    }
    assert(a % 10 == b % 10);
    if a >= 10 && b >= 10 {
        assert(decimal(a).drop_last() =~= decimal(a / 10));
        assert(decimal(b).drop_last() =~= decimal(b / 10));
        decimal_is_injective(a / 10, b / 10);
    } else {
        decimal_has_digits(a);
        decimal_has_digits(b);
    }
}

/// A number has one digit where it is less than ten, and else more.
proof fn decimal_has_digits(n: nat)
    ensures
        n < 10 ==> decimal(n).len() == 1,
        n >= 10 ==> decimal(n).len() > 1,
    decreases n,
{
    if n >= 10 {
        decimal_has_digits(n / 10);
    }
}

/// A digit as a string.
fn digit_text(digit: u64) -> (text: &'static str)
    requires
        digit < 10,
    ensures
        text@ == seq![digit_char(digit as nat)],
{
    proof {
        reveal_strlit("0");
        reveal_strlit("1");
        reveal_strlit("2");
        reveal_strlit("3");
        reveal_strlit("4");
        reveal_strlit("5");
        reveal_strlit("6");
        reveal_strlit("7");
        reveal_strlit("8");
        reveal_strlit("9");
    }
    let text = if digit == 0 {
        "0"
    } else if digit == 1 {
        "1"
    } else if digit == 2 {
        "2"
    } else if digit == 3 {
        "3"
    } else if digit == 4 {
        "4"
    } else if digit == 5 {
        "5"
    } else if digit == 6 {
        "6"
    } else if digit == 7 {
        "7"
    } else if digit == 8 {
        "8"
    } else {
        "9"
    };
    assert(text@ =~= seq![digit_char(digit as nat)]);
    text
}

/// A number in decimal digits.
pub fn decimal_text(n: u64) -> (text: String)
    ensures
        text@ == decimal(n as nat),
    decreases n,
{
    if n < 10 {
        String::from_str(digit_text(n))
    } else {
        let text = decimal_text(n / 10).concat(digit_text(n % 10));
        assert(text@ =~= decimal((n / 10) as nat).push(digit_char((n % 10) as nat)));
        text
    }
}

/// Whether two strings are the same.
pub fn same_text(a: &str, b: &str) -> (same: bool)
    ensures
        same == (a@ == b@),
{
    String::from_str(a) == String::from_str(b)
}

/// Whether `a` comes before `b`: at the first byte in which they differ, or
/// by being shorter.
pub open spec fn bytes_before(a: Seq<u8>, b: Seq<u8>) -> bool
    decreases a.len(),
{
    if b.len() == 0 {
        false
    } else if a.len() == 0 {
        true
    } else if a[0] != b[0] {
        a[0] < b[0]
    } else {
        bytes_before(a.drop_first(), b.drop_first())
    }
}

/// Whether the name `a` comes before the name `b`.
pub open spec fn name_before(a: Seq<char>, b: Seq<char>) -> bool {
    bytes_before(vstd::utf8::encode_utf8(a), vstd::utf8::encode_utf8(b))
}

/// Two names are different and in one of the two orders, or the same.
pub proof fn names_are_ordered(a: Seq<char>, b: Seq<char>)
    ensures
        a == b || name_before(a, b) || name_before(b, a),
        !(name_before(a, b) && name_before(b, a)),
        !name_before(a, a),
{
    let x = vstd::utf8::encode_utf8(a);
    let y = vstd::utf8::encode_utf8(b);
    bytes_are_ordered(x, y);
    bytes_are_ordered(x, x);
    if x == y {
        vstd::utf8::encode_utf8_decode_utf8(a);
        vstd::utf8::encode_utf8_decode_utf8(b);
    }
}

proof fn bytes_are_ordered(a: Seq<u8>, b: Seq<u8>)
    ensures
        a == b || bytes_before(a, b) || bytes_before(b, a),
        !(bytes_before(a, b) && bytes_before(b, a)),
    decreases a.len(),
{
    if a.len() > 0 && b.len() > 0 && a[0] == b[0] {
        bytes_are_ordered(a.drop_first(), b.drop_first());
        if a.drop_first() == b.drop_first() {
            assert(a =~= seq![a[0]] + a.drop_first());
            assert(b =~= seq![b[0]] + b.drop_first());
        }
    } else if a.len() == 0 && b.len() == 0 {
        assert(a =~= b);
    }
}

/// The order of names leads on.
pub proof fn name_order_leads_on(a: Seq<char>, b: Seq<char>, c: Seq<char>)
    requires
        name_before(a, b),
        name_before(b, c),
    ensures
        name_before(a, c),
{
    byte_order_leads_on(
        vstd::utf8::encode_utf8(a),
        vstd::utf8::encode_utf8(b),
        vstd::utf8::encode_utf8(c),
    );
}

proof fn byte_order_leads_on(a: Seq<u8>, b: Seq<u8>, c: Seq<u8>)
    requires
        bytes_before(a, b),
        bytes_before(b, c),
    ensures
        bytes_before(a, c),
    decreases a.len(),
{
    if a.len() > 0 && a[0] == b[0] && b[0] == c[0] {
        byte_order_leads_on(a.drop_first(), b.drop_first(), c.drop_first());
    }
}

/// Whether the name `a` comes before the name `b`.
pub fn comes_before(a: &str, b: &str) -> (before: bool)
    ensures
        before == name_before(a@, b@),
{
    let x = a.as_bytes();
    let y = b.as_bytes();
    let mut i: usize = 0;
    assert(x@.skip(0) =~= x@);
    assert(y@.skip(0) =~= y@);
    while i < x.len() && i < y.len()
        invariant
            i <= x@.len(),
            i <= y@.len(),
            x@ == vstd::utf8::encode_utf8(a@),
            y@ == vstd::utf8::encode_utf8(b@),
            bytes_before(x@, y@) == bytes_before(x@.skip(i as int), y@.skip(i as int)),
        decreases x@.len() - i,
    {
        assert(x@.skip(i as int)[0] == x@[i as int]);
        assert(y@.skip(i as int)[0] == y@[i as int]);
        if x[i] != y[i] {
            return x[i] < y[i];
        }
        assert(x@.skip(i as int).drop_first() =~= x@.skip(i + 1));
        assert(y@.skip(i as int).drop_first() =~= y@.skip(i + 1));
        i += 1;
    }
    i < y.len()
}

/// The two texts, one behind the other.
pub fn text2(a: &str, b: &str) -> (text: String)
    ensures
        text@ == a@ + b@,
{
    String::from_str(a).concat(b)
}

/// The three texts, one behind the other.
pub fn text3(a: &str, b: &str, c: &str) -> (text: String)
    ensures
        text@ == a@ + b@ + c@,
{
    text2(a, b).concat(c)
}

/// The four texts, one behind the other.
pub fn text4(a: &str, b: &str, c: &str, d: &str) -> (text: String)
    ensures
        text@ == a@ + b@ + c@ + d@,
{
    text3(a, b, c).concat(d)
}

/// The five texts, one behind the other.
pub fn text5(a: &str, b: &str, c: &str, d: &str, e: &str) -> (text: String)
    ensures
        text@ == a@ + b@ + c@ + d@ + e@,
{
    text4(a, b, c, d).concat(e)
}

/// The six texts, one behind the other.
pub fn text6(a: &str, b: &str, c: &str, d: &str, e: &str, f: &str) -> (text: String)
    ensures
        text@ == a@ + b@ + c@ + d@ + e@ + f@,
{
    text5(a, b, c, d, e).concat(f)
}

/// The seven texts, one behind the other.
pub fn text7(a: &str, b: &str, c: &str, d: &str, e: &str, f: &str, g: &str) -> (text: String)
    ensures
        text@ == a@ + b@ + c@ + d@ + e@ + f@ + g@,
{
    text5(a, b, c, d, e).concat(f).concat(g)
}

/// Whether a text begins with another one.
pub open spec fn begins_with(text: Seq<char>, prefix: Seq<char>) -> bool {
    text.len() >= prefix.len() && text.take(prefix.len() as int) == prefix
}

/// The text with every occurrence of `from`, found from the front, replaced.
pub open spec fn replaced(text: Seq<char>, from: Seq<char>, to: Seq<char>) -> Seq<char>
    decreases text.len(),
{
    if text.len() == 0 {
        text
    } else if from.len() > 0 && begins_with(text, from) {
        to + replaced(text.skip(from.len() as int), from, to)
    } else {
        seq![text[0]] + replaced(text.skip(1), from, to)
    }
}

/// The text without the occurrences of `prefix` that it begins with.
pub open spec fn trimmed(text: Seq<char>, prefix: Seq<char>) -> Seq<char>
    decreases text.len(),
{
    if prefix.len() > 0 && begins_with(text, prefix) {
        trimmed(text.skip(prefix.len() as int), prefix)
    } else {
        text
    }
}

/// Whether `part` stands at a place of a text.
fn stands_at(text: &str, at: usize, len: usize, part: &str, part_len: usize) -> (stands: bool)
    requires
        at <= len,
        len == text@.len(),
        part_len == part@.len(),
    ensures
        stands == begins_with(text@.skip(at as int), part@),
{
    if len - at < part_len {
        return false;
    }
    assert(text@.skip(at as int).take(part_len as int) =~= text@.subrange(
        at as int,
        at + part_len,
    ));
    same_text(text.substring_char(at, at + part_len), part)
}

/// The text with every occurrence of `from`, found from the front, replaced.
pub fn replace_text(text: &str, from: &str, to: &str) -> (result: String)
    requires
        from@.len() > 0,
    ensures
        result@ == replaced(text@, from@, to@),
{
    let len = text.unicode_len();
    let from_len = from.unicode_len();
    let mut result = String::new();
    let mut i: usize = 0;
    assert(text@.skip(0) =~= text@);
    assert(result@ + replaced(text@, from@, to@) =~= replaced(text@, from@, to@));
    while i < len
        invariant
            i <= len,
            len == text@.len(),
            from_len == from@.len(),
            from_len > 0,
            result@ + replaced(text@.skip(i as int), from@, to@) == replaced(text@, from@, to@),
        decreases len - i,
    {
        let ghost rest = text@.skip(i as int);
        if stands_at(text, i, len, from, from_len) {
            let ghost before = result@;
            result.append(to);
            proof {
                assert(rest.skip(from_len as int) =~= text@.skip(i + from_len));
                assert(before + (to@ + replaced(text@.skip(i + from_len), from@, to@)) =~= before
                    + to@ + replaced(text@.skip(i + from_len), from@, to@));
            }
            i += from_len;
        } else {
            let ghost before = result@;
            result.append(text.substring_char(i, i + 1));
            proof {
                assert(rest.skip(1) =~= text@.skip(i + 1));
                assert(text@.subrange(i as int, i + 1) =~= seq![rest[0]]);
                assert(before + (seq![rest[0]] + replaced(text@.skip(i + 1), from@, to@)) =~= before
                    + seq![rest[0]] + replaced(text@.skip(i + 1), from@, to@));
            }
            i += 1;
        }
    }
    assert(text@.skip(i as int).len() == 0);
    assert(result@ + text@.skip(i as int) =~= result@);
    result
}

/// The text without the occurrences of `prefix` that it begins with.
pub fn trim_start<'a>(text: &'a str, prefix: &str) -> (result: &'a str)
    requires
        prefix@.len() > 0,
    ensures
        result@ == trimmed(text@, prefix@),
{
    let len = text.unicode_len();
    let prefix_len = prefix.unicode_len();
    let mut i: usize = 0;
    assert(text@.skip(0) =~= text@);
    while stands_at(text, i, len, prefix, prefix_len)
        invariant
            i <= len,
            len == text@.len(),
            prefix_len == prefix@.len(),
            prefix_len > 0,
            trimmed(text@.skip(i as int), prefix@) == trimmed(text@, prefix@),
        decreases len - i,
    {
        assert(text@.skip(i as int).skip(prefix_len as int) =~= text@.skip(i + prefix_len));
        i += prefix_len;
    }
    assert(text@.skip(i as int) =~= text@.subrange(i as int, len as int));
    text.substring_char(i, len)
}

} // verus!
