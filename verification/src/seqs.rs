//! Searching a sequence for the first item of some kind.

use vstd::prelude::*;

verus! {

/// The position of the first item of `s` that `wanted` holds of.
pub open spec fn first_where<T>(s: Seq<T>, wanted: spec_fn(T) -> bool) -> Option<int>
    decreases s.len(),
{
    if s.len() == 0 {
        None
    } else {
        match first_where(s.drop_last(), wanted) {
            Some(i) => Some(i),
            None => if wanted(s.last()) {
                Some(s.len() - 1)
            } else {
                None
            },
        }
    }
}

/// `first_where` gives a position that holds such an item and has none before
/// it, or nothing where the sequence holds no such item.
pub proof fn lemma_first_where<T>(s: Seq<T>, wanted: spec_fn(T) -> bool)
    ensures
        match first_where(s, wanted) {
            Some(i) => 0 <= i < s.len() && wanted(s[i]) && forall|j: int|
                0 <= j < i ==> !wanted(#[trigger] s[j]),
            None => forall|j: int| 0 <= j < s.len() ==> !wanted(#[trigger] s[j]),
        },
    decreases s.len(),
{
    if s.len() > 0 {
        let front = s.drop_last();
        lemma_first_where(front, wanted);
        assert(forall|j: int| 0 <= j < front.len() ==> front[j] == s[j]);
    }
}

/// A position that holds a wanted item and has none before it is the one that
/// `first_where` gives.
pub proof fn lemma_first_where_is<T>(s: Seq<T>, wanted: spec_fn(T) -> bool, i: int)
    requires
        0 <= i < s.len(),
        wanted(s[i]),
        forall|j: int| 0 <= j < i ==> !wanted(#[trigger] s[j]),
    ensures
        first_where(s, wanted) == Some(i),
{
    lemma_first_where(s, wanted);
}

/// A sequence without a wanted item has no first one.
pub proof fn lemma_first_where_none<T>(s: Seq<T>, wanted: spec_fn(T) -> bool)
    requires
        forall|j: int| 0 <= j < s.len() ==> !wanted(#[trigger] s[j]),
    ensures
        first_where(s, wanted) is None,
{
    lemma_first_where(s, wanted);
}

/// Putting an item at the end leaves the first wanted item where it is; the
/// new item is the first where there was none and it is wanted.
pub proof fn lemma_first_where_push<T>(s: Seq<T>, wanted: spec_fn(T) -> bool, item: T)
    ensures
        first_where(s.push(item), wanted) == (match first_where(s, wanted) {
            Some(i) => Some(i),
            None => if wanted(item) {
                Some(s.len() as int)
            } else {
                None
            },
        }),
{
    assert(s.push(item).drop_last() =~= s);
}

/// Replacing an item by one that is wanted just as much leaves the first
/// wanted item where it is.
pub proof fn lemma_first_where_update<T>(s: Seq<T>, wanted: spec_fn(T) -> bool, k: int, item: T)
    requires
        0 <= k < s.len(),
        wanted(s[k]) == wanted(item),
    ensures
        first_where(s.update(k, item), wanted) == first_where(s, wanted),
{
    lemma_first_where(s, wanted);
    let changed = s.update(k, item);
    match first_where(s, wanted) {
        Some(i) => {
            assert(wanted(changed[i]));
            assert forall|j: int| 0 <= j < i implies !wanted(#[trigger] changed[j]) by {
                if j != k {
                    assert(changed[j] == s[j]);
                }
            }
            lemma_first_where_is(changed, wanted, i);
        },
        None => {
            assert forall|j: int| 0 <= j < changed.len() implies !wanted(#[trigger] changed[j]) by {
                if j != k {
                    assert(changed[j] == s[j]);
                }
            }
            lemma_first_where_none(changed, wanted);
        },
    }
}

/// Whether `ids` holds `id`.
pub fn contains_id(ids: &Vec<u64>, id: u64) -> (b: bool)
    ensures
        b == ids@.contains(id),
{
    let mut i: usize = 0;
    while i < ids.len()
        invariant
            i <= ids.len(),
            forall|j: int| 0 <= j < i ==> ids@[j] != id,
        decreases ids.len() - i,
    {
        if ids[i] == id {
            return true;
        }
        i += 1;
    }
    false
}

/// Whether `texts` holds `text`.
pub fn contains_text(texts: &Vec<String>, text: &String) -> (b: bool)
    ensures
        b == texts.deep_view().contains(text@),
{
    let mut i: usize = 0;
    while i < texts.len()
        invariant
            i <= texts.len(),
            forall|j: int| 0 <= j < i ==> texts.deep_view()[j] != text@,
        decreases texts.len() - i,
    {
        if texts[i] == *text {
            assert(texts.deep_view()[i as int] == text@);
            return true;
        }
        i += 1;
    }
    false
}

/// Copies a list of ids.
pub fn clone_ids(ids: &Vec<u64>) -> (r: Vec<u64>)
    ensures
        r@ == ids@,
{
    let mut out: Vec<u64> = Vec::new();
    let mut i: usize = 0;
    while i < ids.len()
        invariant
            i <= ids.len(),
            out@ == ids@.take(i as int),
        decreases ids.len() - i,
    {
        out.push(ids[i]);
        assert(out@ =~= ids@.take(i + 1));
        i += 1;
    }
    assert(ids@.take(ids.len() as int) =~= ids@);
    out
}

/// Adds `id` to a list unless the list holds it.
pub fn push_once(ids: &mut Vec<u64>, id: u64)
    ensures
        final(ids)@ == (if old(ids)@.contains(id) {
            old(ids)@
        } else {
            old(ids)@.push(id)
        }),
{
    if !contains_id(ids, id) {
        ids.push(id);
    }
}

/// Copies a list of texts.
pub fn clone_texts(texts: &Vec<String>) -> (r: Vec<String>)
    ensures
        r.deep_view() == texts.deep_view(),
{
    let mut out: Vec<String> = Vec::new();
    let mut i: usize = 0;
    while i < texts.len()
        invariant
            i <= texts.len(),
            out.len() == i,
            forall|k: int| 0 <= k < i ==> out[k]@ == texts[k]@,
        decreases texts.len() - i,
    {
        out.push(texts[i].clone());
        i += 1;
    }
    assert(out.deep_view() =~= texts.deep_view());
    out
}

/// The same items in the opposite order.
pub fn reversed<T>(items: Vec<T>) -> (r: Vec<T>)
    ensures
        r@ == items@.reverse(),
{
    let ghost all = items@;
    let mut items = items;
    let mut out: Vec<T> = Vec::new();
    while items.len() > 0
        invariant
            items@.len() + out@.len() == all.len(),
            forall|j: int| 0 <= j < items@.len() ==> items@[j] == all[j],
            forall|j: int| 0 <= j < out@.len() ==> out@[j] == all[all.len() - 1 - j],
        decreases items.len(),
    {
        let item = items.pop().unwrap();
        out.push(item);
    }
    assert(out@ =~= all.reverse());
    out
}

} // verus!
