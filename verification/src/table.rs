use vstd::prelude::*;

verus! {

/// No two items of the list have one key.
pub open spec fn keys_distinct<T>(items: Seq<T>, key: spec_fn(T) -> Seq<char>) -> bool {
    forall|i: int, j: int|
        0 <= i < j < items.len() ==> key(#[trigger] items[i]) != key(#[trigger] items[j])
}

/// Some item of the list has key `k`.
pub open spec fn has_key<T>(items: Seq<T>, key: spec_fn(T) -> Seq<char>, k: Seq<char>) -> bool {
    exists|i: int| 0 <= i < items.len() && key(#[trigger] items[i]) == k
}

/// The place of an item with key `k`.
pub open spec fn place<T>(items: Seq<T>, key: spec_fn(T) -> Seq<char>, k: Seq<char>) -> int {
    choose|i: int| 0 <= i < items.len() && key(#[trigger] items[i]) == k
}

/// The list read as a mapping from the key of each item to its content.
pub open spec fn keyed<T, V>(
    items: Seq<T>,
    key: spec_fn(T) -> Seq<char>,
    content: spec_fn(T) -> V,
) -> Map<Seq<char>, V> {
    Map::new(
        |k: Seq<char>| has_key(items, key, k),
        |k: Seq<char>| content(items[place(items, key, k)]),
    )
}

/// Where keys are distinct, the mapping has each item under its key.
pub proof fn lemma_keyed_at<T, V>(
    items: Seq<T>,
    key: spec_fn(T) -> Seq<char>,
    content: spec_fn(T) -> V,
    i: int,
)
    requires
        keys_distinct(items, key),
        0 <= i < items.len(),
    ensures
        has_key(items, key, key(items[i])),
        place(items, key, key(items[i])) == i,
        keyed(items, key, content).contains_key(key(items[i])),
        keyed(items, key, content)[key(items[i])] == content(items[i]),
{
    let j = place(items, key, key(items[i]));
    if j < i {
        assert(key(items[j]) != key(items[i]));
    } else if i < j {
        assert(key(items[i]) != key(items[j]));
    }
}

/// Replacing an item by one of the same key replaces its content in the
/// mapping and nothing else.
pub proof fn lemma_keyed_update<T, V>(
    items: Seq<T>,
    key: spec_fn(T) -> Seq<char>,
    content: spec_fn(T) -> V,
    i: int,
    item: T,
)
    requires
        keys_distinct(items, key),
        0 <= i < items.len(),
        key(item) == key(items[i]),
    ensures
        keys_distinct(items.update(i, item), key),
        keyed(items.update(i, item), key, content) == keyed(items, key, content).insert(
            key(item),
            content(item),
        ),
{
    let after = items.update(i, item);
    assert forall|a: int, b: int| 0 <= a < b < after.len() implies key(#[trigger] after[a]) != key(
        #[trigger] after[b],
    ) by {
        assert(key(after[a]) == key(items[a]));
        assert(key(after[b]) == key(items[b]));
    }
    assert forall|k: Seq<char>| has_key(after, key, k) <==> has_key(items, key, k) || k == key(
        item,
    ) by {
        if has_key(after, key, k) {
            let p = place(after, key, k);
            assert(key(items[p]) == k);
        }
        if has_key(items, key, k) {
            let p = place(items, key, k);
            assert(key(after[p]) == k);
        }
        if k == key(item) {
            assert(key(after[i]) == k);
        }
    }
    assert forall|k: Seq<char>| has_key(after, key, k) implies #[trigger] keyed(
        after,
        key,
        content,
    )[k] == keyed(items, key, content).insert(key(item), content(item))[k] by {
        let p = place(after, key, k);
        lemma_keyed_at(after, key, content, p);
        if p != i {
            assert(after[p] == items[p]);
            lemma_keyed_at(items, key, content, p);
        }
    }
    assert(keyed(after, key, content) =~= keyed(items, key, content).insert(
        key(item),
        content(item),
    ));
}

/// Adding an item under a key that is not there adds it to the mapping.
pub proof fn lemma_keyed_push<T, V>(
    items: Seq<T>,
    key: spec_fn(T) -> Seq<char>,
    content: spec_fn(T) -> V,
    item: T,
)
    requires
        keys_distinct(items, key),
        !has_key(items, key, key(item)),
    ensures
        keys_distinct(items.push(item), key),
        keyed(items.push(item), key, content) == keyed(items, key, content).insert(
            key(item),
            content(item),
        ),
{
    let after = items.push(item);
    assert forall|a: int, b: int| 0 <= a < b < after.len() implies key(#[trigger] after[a]) != key(
        #[trigger] after[b],
    ) by {
        if b == items.len() {
            assert(key(items[a]) != key(item));
        } else {
            assert(after[a] == items[a] && after[b] == items[b]);
        }
    }
    assert forall|k: Seq<char>| has_key(after, key, k) <==> has_key(items, key, k) || k == key(
        item,
    ) by {
        if has_key(after, key, k) {
            let p = place(after, key, k);
            if p < items.len() {
                assert(key(items[p]) == k);
            }
        }
        if has_key(items, key, k) {
            let p = place(items, key, k);
            assert(key(after[p]) == k);
        }
        if k == key(item) {
            assert(key(after[items.len() as int]) == k);
        }
    }
    assert forall|k: Seq<char>| has_key(after, key, k) implies #[trigger] keyed(
        after,
        key,
        content,
    )[k] == keyed(items, key, content).insert(key(item), content(item))[k] by {
        let p = place(after, key, k);
        lemma_keyed_at(after, key, content, p);
        if p < items.len() {
            assert(after[p] == items[p]);
            lemma_keyed_at(items, key, content, p);
        }
    }
    assert(keyed(after, key, content) =~= keyed(items, key, content).insert(
        key(item),
        content(item),
    ));
}

/// Removing an item removes its key from the mapping and nothing else.
pub proof fn lemma_keyed_remove<T, V>(
    items: Seq<T>,
    key: spec_fn(T) -> Seq<char>,
    content: spec_fn(T) -> V,
    i: int,
)
    requires
        keys_distinct(items, key),
        0 <= i < items.len(),
    ensures
        keys_distinct(items.remove(i), key),
        keyed(items.remove(i), key, content) == keyed(items, key, content).remove(key(items[i])),
{
    let after = items.remove(i);
    let gone = key(items[i]);
    let back = |a: int|
        if a < i {
            a
        } else {
            a + 1
        };
    assert forall|a: int| 0 <= a < after.len() implies #[trigger] after[a] == items[back(a)] by {}
    assert forall|a: int, b: int| 0 <= a < b < after.len() implies key(#[trigger] after[a]) != key(
        #[trigger] after[b],
    ) by {
        assert(key(items[back(a)]) != key(items[back(b)]));
    }
    assert forall|k: Seq<char>| has_key(after, key, k) <==> has_key(items, key, k) && k != gone by {
        if has_key(after, key, k) {
            let p = place(after, key, k);
            assert(key(items[back(p)]) == k);
            lemma_keyed_at(items, key, content, back(p));
            lemma_keyed_at(items, key, content, i);
        }
        if has_key(items, key, k) && k != gone {
            let p = place(items, key, k);
            let q = if p < i {
                p
            } else {
                p - 1
            };
            assert(key(after[q]) == k);
        }
    }
    assert forall|k: Seq<char>| has_key(after, key, k) implies #[trigger] keyed(
        after,
        key,
        content,
    )[k] == keyed(items, key, content).remove(gone)[k] by {
        let p = place(after, key, k);
        lemma_keyed_at(after, key, content, p);
        lemma_keyed_at(items, key, content, back(p));
    }
    assert(keyed(after, key, content) =~= keyed(items, key, content).remove(gone));
}

/// A list with distinct keys has as many keys as items.
pub proof fn lemma_keyed_size<T, V>(
    items: Seq<T>,
    key: spec_fn(T) -> Seq<char>,
    content: spec_fn(T) -> V,
)
    requires
        keys_distinct(items, key),
    ensures
        keyed(items, key, content).dom().finite(),
        keyed(items, key, content).dom().len() == items.len(),
    decreases items.len(),
{
    if items.len() == 0 {
        assert(keyed(items, key, content).dom() =~= Set::<Seq<char>>::empty());
    } else {
        let rest = items.drop_last();
        let last = items.last();
        assert(keys_distinct(rest, key)) by {
            assert forall|a: int, b: int| 0 <= a < b < rest.len() implies key(#[trigger] rest[a])
                != key(#[trigger] rest[b]) by {
                assert(rest[a] == items[a] && rest[b] == items[b]);
            }
        }
        lemma_keyed_size(rest, key, content);
        assert(!has_key(rest, key, key(last))) by {
            if has_key(rest, key, key(last)) {
                let p = place(rest, key, key(last));
                assert(rest[p] == items[p]);
                assert(key(items[p]) != key(items[items.len() - 1]));
            }
        }
        lemma_keyed_push(rest, key, content, last);
        assert(rest.push(last) =~= items);
        assert(keyed(items, key, content).dom() =~= keyed(rest, key, content).dom().insert(
            key(last),
        ));
    }
}

} // verus!
