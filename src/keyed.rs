use vstd::prelude::*;

verus! {

/// The last element of `s` whose key is `k`.
pub open spec fn find_last<A>(s: Seq<A>, key: spec_fn(A) -> Seq<char>, k: Seq<char>) -> Option<A>
    decreases s.len(),
{
    if s.len() == 0 {
        None
    } else if key(s.last()) == k {
        Some(s.last())
    } else {
        find_last(s.drop_last(), key, k)
    }
}

/// No two elements of `s` share a key.
pub open spec fn keys_unique<A>(s: Seq<A>, key: spec_fn(A) -> Seq<char>) -> bool {
    forall|i: int, j: int|
        0 <= i < s.len() && 0 <= j < s.len() && i != j ==> key(#[trigger] s[i]) != key(
            #[trigger] s[j],
        )
}

pub proof fn lemma_find_at<A>(s: Seq<A>, key: spec_fn(A) -> Seq<char>, j: int)
    requires
        keys_unique(s, key),
        0 <= j < s.len(),
    ensures
        find_last(s, key, key(s[j])) == Some(s[j]),
    decreases s.len(),
{
    if j < s.len() - 1 {
        assert(key(s[s.len() - 1]) != key(s[j]));
        assert(s.drop_last()[j] == s[j]);
        lemma_find_at(s.drop_last(), key, j);
    }
}

pub proof fn lemma_find_in<A>(s: Seq<A>, key: spec_fn(A) -> Seq<char>, k: Seq<char>)
    ensures
        find_last(s, key, k) is Some ==> exists|j: int| 0 <= j < s.len() && s[j] == find_last(s, key, k)->0,
    decreases s.len(),
{
    if s.len() > 0 && key(s.last()) != k {
        lemma_find_in(s.drop_last(), key, k);
        if find_last(s, key, k) is Some {
            let j = choose|j: int| 0 <= j < s.drop_last().len() && s.drop_last()[j] == find_last(s.drop_last(), key, k)->0;
            assert(s[j] == s.drop_last()[j]);
        }
    } else if s.len() > 0 {
        assert(s[s.len() - 1] == s.last());
    }
}

pub proof fn lemma_find_none<A>(s: Seq<A>, key: spec_fn(A) -> Seq<char>, k: Seq<char>)
    requires
        forall|i: int| 0 <= i < s.len() ==> key(#[trigger] s[i]) != k,
    ensures
        find_last(s, key, k) is None,
    decreases s.len(),
{
    if s.len() > 0 {
        assert(key(s[s.len() - 1]) != k);
        assert forall|i: int| 0 <= i < s.drop_last().len() implies key(
            #[trigger] s.drop_last()[i],
        ) != k by {
            assert(s.drop_last()[i] == s[i]);
        }
        lemma_find_none(s.drop_last(), key, k);
    }
}

pub proof fn lemma_find_push<A>(s: Seq<A>, key: spec_fn(A) -> Seq<char>, a: A, k: Seq<char>)
    ensures
        find_last(s.push(a), key, k) == if key(a) == k {
            Some(a)
        } else {
            find_last(s, key, k)
        },
{
    assert(s.push(a).drop_last() =~= s);
}

pub proof fn lemma_find_update<A>(
    s: Seq<A>,
    key: spec_fn(A) -> Seq<char>,
    j: int,
    a: A,
    k: Seq<char>,
)
    requires
        keys_unique(s, key),
        0 <= j < s.len(),
        key(a) == key(s[j]),
    ensures
        keys_unique(s.update(j, a), key),
        find_last(s.update(j, a), key, k) == if k == key(a) {
            Some(a)
        } else {
            find_last(s, key, k)
        },
    decreases s.len(),
{
    let t = s.update(j, a);
    assert forall|x: int, y: int|
        0 <= x < t.len() && 0 <= y < t.len() && x != y implies key(#[trigger] t[x]) != key(
        #[trigger] t[y],
    ) by {
        assert(key(t[x]) == key(s[x]));
        assert(key(t[y]) == key(s[y]));
    }
    if k == key(a) {
        lemma_find_at(t, key, j);
    } else if j == s.len() - 1 {
        assert(t.drop_last() =~= s.drop_last());
    } else {
        assert(t.drop_last() =~= s.drop_last().update(j, a));
        assert(t.last() == s.last());
        if key(s.last()) != k {
            lemma_find_update(s.drop_last(), key, j, a, k);
        }
    }
}

} // verus!
