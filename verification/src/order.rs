//! Ordering names without regard to case.

use vstd::prelude::*;
use crate::state::names_of;

verus! {

/// Whether `a` comes before `b`, or equals it, in the order of strings:
/// position by position, by the characters' code points, a prefix first.
pub open spec fn precedes_or_equals(a: Seq<char>, b: Seq<char>) -> bool
    decreases a.len(),
{
    if a.len() == 0 {
        true
    } else if b.len() == 0 {
        false
    } else if a[0] != b[0] {
        (a[0] as u32) < (b[0] as u32)
    } else {
        precedes_or_equals(a.drop_first(), b.drop_first())
    }
}

/// The lowercase form of a text, as `str::to_lowercase` gives it.
pub uninterp spec fn lowercase_of(s: Seq<char>) -> Seq<char>;

/// Whether `a` may stand before `b` where names are ordered without regard to case.
pub open spec fn key_le(a: Seq<char>, b: Seq<char>) -> bool {
    precedes_or_equals(lowercase_of(a), lowercase_of(b))
}

/// `sorted` with `x` put behind the last name that may stand before it.
pub open spec fn insert_by_key(sorted: Seq<Seq<char>>, x: Seq<char>) -> Seq<Seq<char>>
    decreases sorted.len(),
{
    if sorted.len() == 0 {
        seq![x]
    } else if key_le(sorted.last(), x) {
        sorted.push(x)
    } else {
        insert_by_key(sorted.drop_last(), x).push(sorted.last())
    }
}

/// The names ordered without regard to case; names that differ by case
/// only, or not at all, keep the order they came in.
pub open spec fn sorted_by_key(names: Seq<Seq<char>>) -> Seq<Seq<char>>
    decreases names.len(),
{
    if names.len() == 0 {
        Seq::empty()
    } else {
        insert_by_key(sorted_by_key(names.drop_last()), names.last())
    }
}

/// Whether each name may stand before all that follow it.
pub open spec fn is_ordered(names: Seq<Seq<char>>) -> bool {
    forall|i: int, j: int| 0 <= i < j < names.len() ==> key_le(names[i], names[j])
}

/// std's `str::to_lowercase`: the lowercase form of the text.
#[verifier::external_body]
fn to_lowercase(s: &String) -> (r: String)
    ensures
        r@ == lowercase_of(s@),
{
    s.to_lowercase()
}

/// Whether `a` comes before `b` or equals it, in the order of strings.
fn string_le(a: &String, b: &String) -> (r: bool)
    ensures
        r == precedes_or_equals(a@, b@),
{
    let first = a.as_str();
    let second = b.as_str();
    let n = first.unicode_len();
    let m = second.unicode_len();
    let mut i: usize = 0;
    assert(a@.skip(0) =~= a@ && b@.skip(0) =~= b@);
    while i < n && i < m
        invariant
            i <= n,
            i <= m,
            n == a@.len(),
            m == b@.len(),
            first@ == a@,
            second@ == b@,
            precedes_or_equals(a@, b@) == precedes_or_equals(a@.skip(i as int), b@.skip(i as int)),
        decreases n - i,
    {
        let x = first.get_char(i);
        let y = second.get_char(i);
        proof {
            assert(a@.skip(i as int)[0] == x);
            assert(b@.skip(i as int)[0] == y);
            assert(a@.skip(i as int).drop_first() =~= a@.skip(i + 1));
            assert(b@.skip(i as int).drop_first() =~= b@.skip(i + 1));
        }
        if x != y {
            return (x as u32) < (y as u32);
        }
        i += 1;
    }
    i == n
}

/// Putting `x` at position `k` is putting it behind the last name that may
/// stand before it, where no name from `k` on may and the one before `k` may.
proof fn lemma_insert_position(sorted: Seq<Seq<char>>, x: Seq<char>, k: int)
    requires
        0 <= k <= sorted.len(),
        forall|m: int| k <= m < sorted.len() ==> !key_le(#[trigger] sorted[m], x),
        k > 0 ==> key_le(sorted[k - 1], x),
    ensures
        insert_by_key(sorted, x) == sorted.insert(k, x),
    decreases sorted.len(),
{
    if sorted.len() == 0 {
        assert(sorted.insert(k, x) =~= seq![x]);
    } else if k == sorted.len() {
        assert(sorted.insert(k, x) =~= sorted.push(x));
    } else {
        assert(!key_le(sorted[sorted.len() - 1], x));
        lemma_insert_position(sorted.drop_last(), x, k);
        assert(sorted.drop_last().insert(k, x).push(sorted.last()) =~= sorted.insert(k, x));
    }
}

/// Of two texts, one comes before the other or equals it.
pub proof fn lemma_precedes_total(a: Seq<char>, b: Seq<char>)
    ensures
        precedes_or_equals(a, b) || precedes_or_equals(b, a),
    decreases a.len(),
{
    if a.len() > 0 && b.len() > 0 {
        if a[0] == b[0] {
            lemma_precedes_total(a.drop_first(), b.drop_first());
        } else {
            vstd::utf8::char_u32_cast(a[0], a[0] as u32);
            vstd::utf8::char_u32_cast(b[0], b[0] as u32);
        }
    }
}

/// What comes before a text comes before all that the text comes before.
pub proof fn lemma_precedes_transitive(a: Seq<char>, b: Seq<char>, c: Seq<char>)
    requires
        precedes_or_equals(a, b),
        precedes_or_equals(b, c),
    ensures
        precedes_or_equals(a, c),
    decreases a.len(),
{
    if a.len() > 0 && b.len() > 0 && c.len() > 0 && a[0] == b[0] && b[0] == c[0] {
        lemma_precedes_transitive(a.drop_first(), b.drop_first(), c.drop_first());
    }
}

/// Putting a name into ordered names keeps them ordered and adds that name only.
pub proof fn lemma_insert_by_key(sorted: Seq<Seq<char>>, x: Seq<char>)
    requires
        is_ordered(sorted),
    ensures
        is_ordered(insert_by_key(sorted, x)),
        insert_by_key(sorted, x).to_multiset() == sorted.to_multiset().insert(x),
        forall|i: int|
            0 <= i < insert_by_key(sorted, x).len() ==> sorted.contains(
                #[trigger] insert_by_key(sorted, x)[i],
            ) || insert_by_key(sorted, x)[i] == x,
    decreases sorted.len(),
{
    let result = insert_by_key(sorted, x);
    if sorted.len() == 0 {
        assert(result =~= sorted.push(x));
        vstd::seq_lib::to_multiset_build(sorted, x);
    } else if key_le(sorted.last(), x) {
        vstd::seq_lib::to_multiset_build(sorted, x);
        assert forall|i: int, j: int| 0 <= i < j < result.len() implies key_le(
            result[i],
            result[j],
        ) by {
            if j == sorted.len() && i < sorted.len() - 1 {
                assert(key_le(sorted[i], sorted[sorted.len() - 1]));
                lemma_precedes_transitive(
                    lowercase_of(sorted[i]),
                    lowercase_of(sorted.last()),
                    lowercase_of(x),
                );
            }
        }
        assert forall|i: int| 0 <= i < result.len() implies sorted.contains(#[trigger] result[i])
            || result[i] == x by {
            if i < sorted.len() {
                assert(sorted[i] == result[i]);
            }
        }
    } else {
        let rest = sorted.drop_last();
        let last = sorted.last();
        let inner = insert_by_key(rest, x);
        assert(is_ordered(rest)) by {
            assert forall|i: int, j: int| 0 <= i < j < rest.len() implies key_le(
                rest[i],
                rest[j],
            ) by {
                assert(key_le(sorted[i], sorted[j]));
            }
        }
        lemma_insert_by_key(rest, x);
        lemma_precedes_total(lowercase_of(last), lowercase_of(x));
        assert forall|i: int, j: int| 0 <= i < j < result.len() implies key_le(
            result[i],
            result[j],
        ) by {
            if j == inner.len() {
                if inner[i] != x {
                    assert(rest.contains(inner[i]));
                    let k = choose|k: int| 0 <= k < rest.len() && rest[k] == inner[i];
                    assert(key_le(sorted[k], sorted[sorted.len() - 1]));
                }
            } else {
                assert(key_le(inner[i], inner[j]));
            }
        }
        assert forall|i: int| 0 <= i < result.len() implies sorted.contains(#[trigger] result[i])
            || result[i] == x by {
            if i < inner.len() {
                if inner[i] != x {
                    assert(rest.contains(inner[i]));
                    let k = choose|k: int| 0 <= k < rest.len() && rest[k] == inner[i];
                    assert(sorted[k] == result[i]);
                }
            } else {
                assert(sorted[sorted.len() - 1] == result[i]);
            }
        }
        vstd::seq_lib::to_multiset_build(inner, last);
        vstd::seq_lib::to_multiset_build(rest, last);
        assert(rest.push(last) =~= sorted);
        assert(result.to_multiset() =~= sorted.to_multiset().insert(x));
    }
}

/// The ordered names are ordered, and are the given names, each as often as given.
pub proof fn lemma_sorted_by_key(names: Seq<Seq<char>>)
    ensures
        is_ordered(sorted_by_key(names)),
        sorted_by_key(names).to_multiset() == names.to_multiset(),
    decreases names.len(),
{
    if names.len() == 0 {
        assert(sorted_by_key(names) =~= names);
    } else {
        lemma_sorted_by_key(names.drop_last());
        lemma_insert_by_key(sorted_by_key(names.drop_last()), names.last());
        vstd::seq_lib::to_multiset_build(names.drop_last(), names.last());
        assert(names.drop_last().push(names.last()) =~= names);
    }
}

/// Orders the names without regard to case; names that differ by case only
/// keep the order they came in.
pub fn sort_dependencies(dependencies: Vec<String>) -> (r: Vec<String>)
    ensures
        names_of(r@) == sorted_by_key(names_of(dependencies@)),
        is_ordered(names_of(r@)),
        names_of(r@).to_multiset() == names_of(dependencies@).to_multiset(),
{
    proof {
        lemma_sorted_by_key(names_of(dependencies@));
    }
    let ghost names = names_of(dependencies@);
    let mut out: Vec<String> = Vec::new();
    let mut keys: Vec<String> = Vec::new();
    let mut i: usize = 0;
    assert(names.take(0) =~= Seq::<Seq<char>>::empty());
    assert(names_of(out@) =~= sorted_by_key(names.take(0)));
    while i < dependencies.len()
        invariant
            i <= dependencies.len(),
            names == names_of(dependencies@),
            names_of(out@) == sorted_by_key(names.take(i as int)),
            keys@.len() == out@.len(),
            forall|m: int| 0 <= m < out@.len() ==> (#[trigger] keys@[m])@ == lowercase_of(out@[m]@),
        decreases dependencies.len() - i,
    {
        let name = dependencies[i].clone();
        let key = to_lowercase(&name);
        let ghost before = names_of(out@);
        let mut k: usize = out.len();
        while k > 0 && !string_le(&keys[k - 1], &key)
            invariant
                k <= out@.len(),
                keys@.len() == out@.len(),
                key@ == lowercase_of(name@),
                forall|m: int|
                    0 <= m < out@.len() ==> (#[trigger] keys@[m])@ == lowercase_of(out@[m]@),
                forall|m: int| k <= m < out@.len() ==> !key_le(#[trigger] names_of(out@)[m], name@),
            decreases k,
        {
            k -= 1;
        }
        proof {
            assert(names.take(i + 1).drop_last() =~= names.take(i as int));
            assert(names.take(i + 1).last() == name@);
            if k > 0 {
                assert(key_le(names_of(out@)[k - 1], name@));
            }
            lemma_insert_position(before, name@, k as int);
        }
        out.insert(k, name);
        keys.insert(k, key);
        assert(names_of(out@) =~= before.insert(k as int, name@));
        i += 1;
    }
    assert(names.take(i as int) =~= names);
    out
}

} // verus!
