//! Facts about sequences.
use vstd::prelude::*;

verus! {

/// A longer prefix holds one more element.
pub proof fn take_one_more<T>(s: Seq<T>, n: int)
    requires
        0 <= n < s.len(),
    ensures
        s.take(n + 1) == s.take(n).push(s[n]),
        s.take(n + 1).drop_last() == s.take(n),
        s.take(n + 1).last() == s[n],
        forall|x: T|
            #![trigger s.take(n + 1).contains(x)]
            #![trigger s.take(n).contains(x)]
            s.take(n + 1).contains(x) <==> s.take(n).contains(x) || x == s[n],
        s.no_duplicates() ==> !s.take(n).contains(s[n]),
{
    let shorter = s.take(n);
    let longer = s.take(n + 1);
    assert(longer =~= shorter.push(s[n]));
    assert(longer.drop_last() =~= shorter);
    assert forall|x: T| longer.contains(x) <==> shorter.contains(x) || x == s[n] by {
        if shorter.contains(x) {
            let i = choose|i: int| 0 <= i < shorter.len() && shorter[i] == x;
            assert(longer[i] == x);
        }
        if x == s[n] {
            assert(longer[n] == x);
        }
        if longer.contains(x) && x != s[n] {
            let i = choose|i: int| 0 <= i < longer.len() && longer[i] == x;
            assert(shorter[i] == x);
        }
    }
    if s.no_duplicates() && shorter.contains(s[n]) {
        let i = choose|i: int| 0 <= i < shorter.len() && shorter[i] == s[n];
        assert(s[i] == s[n]);
    }
}

/// Inserting an element adds that one and no other.
pub proof fn insert_adds_one<T>(s: Seq<T>, at: int, x: T)
    requires
        0 <= at <= s.len(),
    ensures
        s.no_duplicates() && !s.contains(x) ==> s.insert(at, x).no_duplicates(),
        forall|y: T|
            #![trigger s.insert(at, x).contains(y)]
            #![trigger s.contains(y)]
            s.insert(at, x).contains(y) <==> s.contains(y) || y == x,
{
    let t = s.insert(at, x);
    assert forall|y: T| t.contains(y) <==> s.contains(y) || y == x by {
        if s.contains(y) {
            let i = choose|i: int| 0 <= i < s.len() && s[i] == y;
            if i < at {
                assert(t[i] == y);
            } else {
                assert(t[i + 1] == y);
            }
        }
        if y == x {
            assert(t[at] == y);
        }
        if t.contains(y) && y != x {
            let i = choose|i: int| 0 <= i < t.len() && t[i] == y;
            if i < at {
                assert(s[i] == y);
            } else {
                assert(s[i - 1] == y);
            }
        }
    }
    if s.no_duplicates() && !s.contains(x) {
        assert forall|i: int, j: int| 0 <= i < t.len() && 0 <= j < t.len() && i != j implies t[i]
            != t[j] by {
            if i == at || j == at {
                if i != at {
                    let k = if i < at {
                        i
                    } else {
                        i - 1
                    };
                    assert(s[k] == t[i]);
                }
                if j != at {
                    let k = if j < at {
                        j
                    } else {
                        j - 1
                    };
                    assert(s[k] == t[j]);
                }
            }
        }
    }
}

/// Pushing an element adds that one and no other.
pub proof fn push_adds_one<T>(s: Seq<T>, x: T)
    ensures
        s.no_duplicates() && !s.contains(x) ==> s.push(x).no_duplicates(),
        forall|y: T|
            #![trigger s.push(x).contains(y)]
            #![trigger s.contains(y)]
            s.push(x).contains(y) <==> s.contains(y) || y == x,
{
    insert_adds_one(s, s.len() as int, x);
    assert(s.insert(s.len() as int, x) =~= s.push(x));
}

/// `x` put behind every element whose key is not greater.
pub open spec fn insert_by<T>(s: Seq<T>, x: T, key: spec_fn(T) -> int) -> Seq<T>
    decreases s.len(),
{
    if s.len() == 0 || key(s.last()) <= key(x) {
        s.push(x)
    } else {
        insert_by(s.drop_last(), x, key).push(s.last())
    }
}

/// The elements by their keys, those with the same key in the given order.
pub open spec fn stable_sort<T>(s: Seq<T>, key: spec_fn(T) -> int) -> Seq<T>
    decreases s.len(),
{
    if s.len() == 0 {
        s
    } else {
        insert_by(stable_sort(s.drop_last(), key), s.last(), key)
    }
}

/// Whether the keys do not decrease.
pub open spec fn ascending<T>(s: Seq<T>, key: spec_fn(T) -> int) -> bool {
    forall|i: int, j: int| 0 <= i < j < s.len() ==> key(#[trigger] s[i]) <= key(#[trigger] s[j])
}

/// The place that `insert_by` puts the element at.
pub proof fn insert_by_at<T>(s: Seq<T>, x: T, key: spec_fn(T) -> int, at: int)
    requires
        0 <= at <= s.len(),
        forall|j: int| at <= j < s.len() ==> key(#[trigger] s[j]) > key(x),
        at > 0 ==> key(s[at - 1]) <= key(x),
    ensures
        insert_by(s, x, key) == s.insert(at, x),
    decreases s.len(),
{
    if at == s.len() {
        assert(s.insert(at, x) =~= s.push(x));
    } else {
        assert(key(s[s.len() - 1]) > key(x));
        insert_by_at(s.drop_last(), x, key, at);
        assert(s.drop_last().insert(at, x).push(s.last()) =~= s.insert(at, x));
    }
}

/// Inserting into ascending elements keeps them ascending, and adds the one.
pub proof fn insert_by_is_sound<T>(s: Seq<T>, x: T, key: spec_fn(T) -> int)
    requires
        ascending(s, key),
    ensures
        ascending(insert_by(s, x, key), key),
        insert_by(s, x, key).to_multiset() == s.to_multiset().insert(x),
        insert_by(s, x, key).len() == s.len() + 1,
        forall|y: T| #[trigger] insert_by(s, x, key).contains(y) <==> s.contains(y) || y == x,
    decreases s.len(),
{
    let at = insertion_place(s, x, key);
    insert_by_at(s, x, key, at);
    let t = s.insert(at, x);
    assert forall|i: int, j: int| 0 <= i < j < t.len() implies key(#[trigger] t[i]) <= key(
        #[trigger] t[j],
    ) by {
        if j == at {
            assert(t[i] == s[i]);
            if i < at - 1 {
                assert(key(s[i]) <= key(s[at - 1]));
            }
        } else if i == at {
            assert(t[j] == s[j - 1]);
        } else {
            let a = if i < at {
                i
            } else {
                i - 1
            };
            let b = if j < at {
                j
            } else {
                j - 1
            };
            assert(t[i] == s[a] && t[j] == s[b]);
        }
    }
    s.to_multiset_ensures();
    t.to_multiset_ensures();
    vstd::seq_lib::to_multiset_insert(s, at, x);
    insert_adds_one(s, at, x);
}

/// The place behind every element of ascending ones whose key is not greater.
proof fn insertion_place<T>(s: Seq<T>, x: T, key: spec_fn(T) -> int) -> (at: int)
    requires
        ascending(s, key),
    ensures
        0 <= at <= s.len(),
        forall|j: int| at <= j < s.len() ==> key(#[trigger] s[j]) > key(x),
        at > 0 ==> key(s[at - 1]) <= key(x),
    decreases s.len(),
{
    if s.len() == 0 || key(s.last()) <= key(x) {
        s.len() as int
    } else {
        let at = insertion_place(s.drop_last(), x, key);
        assert forall|j: int| at <= j < s.len() implies key(#[trigger] s[j]) > key(x) by {
            if j < s.len() - 1 {
                assert(key(s.drop_last()[j]) > key(x));
            }
        }
        at
    }
}

/// A stable sort brings the same elements in ascending order.
pub proof fn stable_sort_is_sound<T>(s: Seq<T>, key: spec_fn(T) -> int)
    ensures
        ascending(stable_sort(s, key), key),
        stable_sort(s, key).to_multiset() == s.to_multiset(),
        stable_sort(s, key).len() == s.len(),
        forall|y: T| #[trigger] stable_sort(s, key).contains(y) <==> s.contains(y),
    decreases s.len(),
{
    if s.len() > 0 {
        let rest = s.drop_last();
        stable_sort_is_sound(rest, key);
        insert_by_is_sound(stable_sort(rest, key), s.last(), key);
        assert(s =~= rest.push(s.last()));
        rest.to_multiset_ensures();
        push_adds_one(rest, s.last());
    }
}

/// Sorting what is in order changes nothing.
pub proof fn sorting_keeps_order<T>(s: Seq<T>, key: spec_fn(T) -> int)
    requires
        ascending(s, key),
    ensures
        stable_sort(s, key) == s,
    decreases s.len(),
{
    if s.len() > 0 {
        let rest = s.drop_last();
        assert forall|i: int, j: int| 0 <= i < j < rest.len() implies key(#[trigger] rest[i])
            <= key(#[trigger] rest[j]) by {
            assert(rest[i] == s[i] && rest[j] == s[j]);
        }
        sorting_keeps_order(rest, key);
        if rest.len() > 0 {
            assert(key(s[s.len() - 2]) <= key(s[s.len() - 1]));
        }
        insert_by_at(rest, s.last(), key, rest.len() as int);
        assert(rest.insert(rest.len() as int, s.last()) =~= s);
    } else {
        assert(stable_sort(s, key) =~= s);
    }
}

} // verus!
