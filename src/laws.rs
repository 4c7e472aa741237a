use vstd::prelude::*;

verus! {

/// After appending `v` to either array kind, the element at index `size - 1`
/// (the old length) is `v`, and every earlier element is unchanged.
pub proof fn lemma_append_then_get<T>(s: Seq<T>, v: T)
    ensures
        s.push(v).len() == s.len() + 1,
        s.push(v)[s.push(v).len() - 1] == v,
        forall|j: int| 0 <= j < s.len() ==> #[trigger] s.push(v)[j] == s[j],
{
}

/// After `set(i, v)` at a valid index of either array kind, `get(i)` yields `v`,
/// and every other index keeps its element.
pub proof fn lemma_set_then_get<T>(s: Seq<T>, i: int, v: T)
    requires
        0 <= i < s.len(),
    ensures
        s.update(i, v).len() == s.len(),
        s.update(i, v)[i] == v,
        forall|j: int| 0 <= j < s.len() && j != i ==> #[trigger] s.update(i, v)[j] == s[j],
{
}

/// After `remove(i)`, `get(j)` for `j < i` yields the element held there before, and the
/// elements after `i` move down by one index.
pub proof fn lemma_remove_then_get<T>(s: Seq<T>, i: int)
    requires
        0 <= i < s.len(),
    ensures
        s.remove(i).len() == s.len() - 1,
        forall|j: int| 0 <= j < i ==> #[trigger] s.remove(i)[j] == s[j],
        forall|j: int| i <= j < s.len() - 1 ==> #[trigger] s.remove(i)[j] == s[j + 1],
{
}

/// On either linked list, `insert_at_head(v)` followed by `delete_at_head()` returns `v`
/// and leaves the list as it was, with its size restored.
pub proof fn lemma_insert_then_delete_at_head<T>(s: Seq<T>, v: T)
    ensures
        (seq![v] + s).len() > 0,
        (seq![v] + s)[0] == v,
        (seq![v] + s).drop_first() == s,
        (seq![v] + s).drop_first().len() == s.len(),
{
    assert((seq![v] + s).drop_first() =~= s);
}

} // verus!
