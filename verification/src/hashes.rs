//! Lists of content hashes.
//!
//! A content hash names one payload. However often a hash is listed, its
//! payload is fetched and processed once: the functions here reduce a list to
//! the hashes that occur in it, each at its first place.

use vstd::prelude::*;

verus! {

/// The texts that a list of strings holds, in order.
pub open spec fn texts(list: Seq<String>) -> Seq<Seq<char>> {
    Seq::new(list.len(), |i: int| list[i]@)
}

/// `list` without repetitions: each item stays where it occurs first.
pub open spec fn first_occurrences(list: Seq<Seq<char>>) -> Seq<Seq<char>>
    decreases list.len(),
{
    if list.len() == 0 {
        Seq::empty()
    } else {
        let earlier = first_occurrences(list.drop_last());
        if list.drop_last().contains(list.last()) {
            earlier
        } else {
            earlier.push(list.last())
        }
    }
}

/// An item is in a list with one more item where it is in the shorter list or
/// is the new item.
pub proof fn lemma_push_contains<T>(list: Seq<T>, item: T, other: T)
    ensures
        list.push(item).contains(other) <==> list.contains(other) || other == item,
{
    let longer = list.push(item);
    if list.contains(other) {
        let i = choose|i: int| 0 <= i < list.len() && list[i] == other;
        assert(longer[i] == other);
    }
    if other == item {
        assert(longer[list.len() as int] == other);
    }
    if longer.contains(other) {
        let i = choose|i: int| 0 <= i < longer.len() && longer[i] == other;
        if i < list.len() {
            assert(list[i] == other);
        }
    }
}

/// The first occurrences of a list repeat nothing, hold exactly the items of
/// the list, and are no more than the list has items.
pub proof fn lemma_first_occurrences(list: Seq<Seq<char>>)
    ensures
        first_occurrences(list).no_duplicates(),
        first_occurrences(list).len() <= list.len(),
        forall|item: Seq<char>|
            #[trigger] first_occurrences(list).contains(item) <==> list.contains(item),
    decreases list.len(),
{
    if list.len() > 0 {
        let shorter = list.drop_last();
        let last = list.last();
        let earlier = first_occurrences(shorter);
        lemma_first_occurrences(shorter);
        assert(list == shorter.push(last));
        assert forall|item: Seq<char>| #[trigger]
            first_occurrences(list).contains(item) <==> list.contains(item) by {
            lemma_push_contains(shorter, last, item);
            lemma_push_contains(earlier, last, item);
        }
        if !shorter.contains(last) {
            assert(!earlier.contains(last));
            lemma_push_no_duplicates(earlier, last);
        }
    }
}

/// A list that repeats nothing still repeats nothing with one more item that
/// it did not hold.
pub proof fn lemma_push_no_duplicates<T>(list: Seq<T>, item: T)
    requires
        list.no_duplicates(),
        !list.contains(item),
    ensures
        list.push(item).no_duplicates(),
{
    let longer = list.push(item);
    assert forall|i: int, j: int| 0 <= i < longer.len() && 0 <= j < longer.len() && i
        != j implies longer[i] != longer[j] by {
        if i < list.len() && j < list.len() {
        } else if i < list.len() {
            assert(list.contains(list[i]));
        } else {
            assert(list.contains(list[j]));
        }
    }
}

/// A list that repeats nothing, without the item at `index`, still repeats
/// nothing, and holds what it held but for that item.
pub proof fn lemma_remove_contains<T>(list: Seq<T>, index: int, other: T)
    requires
        list.no_duplicates(),
        0 <= index < list.len(),
    ensures
        list.remove(index).no_duplicates(),
        list.remove(index).contains(other) <==> list.contains(other) && other != list[index],
{
    let shorter = list.remove(index);
    assert forall|i: int| 0 <= i < shorter.len() implies shorter[i] == list[if i < index {
        i
    } else {
        i + 1
    }] by {}
    if shorter.contains(other) {
        let i = choose|i: int| 0 <= i < shorter.len() && shorter[i] == other;
        let at = if i < index {
            i
        } else {
            i + 1
        };
        assert(list[at] == other);
    }
    if list.contains(other) && other != list[index] {
        let at = choose|i: int| 0 <= i < list.len() && list[i] == other;
        let i = if at < index {
            at
        } else {
            at - 1
        };
        assert(shorter[i] == other);
    }
}

/// The first place of `item` in `list`, if it is there.
pub fn position(list: &Vec<String>, item: &String) -> (place: Option<usize>)
    ensures
        match place {
            Some(i) => {
                &&& i < list.len()
                &&& texts(list@)[i as int] == item@
                &&& forall|j: int| 0 <= j < i ==> texts(list@)[j] != item@
            },
            None => !texts(list@).contains(item@),
        },
{
    let mut i: usize = 0;
    while i < list.len()
        invariant
            i <= list.len(),
            forall|j: int| 0 <= j < i ==> texts(list@)[j] != item@,
        decreases list.len() - i,
    {
        if list[i] == *item {
            return Some(i);
        }
        i += 1;
    }
    None
}

/// A list that repeats nothing is its own list of first occurrences.
pub proof fn lemma_first_occurrences_of_distinct(list: Seq<Seq<char>>)
    requires
        list.no_duplicates(),
    ensures
        first_occurrences(list) == list,
    decreases list.len(),
{
    if list.len() > 0 {
        let shorter = list.drop_last();
        let last = list.last();
        assert(shorter.no_duplicates());
        lemma_first_occurrences_of_distinct(shorter);
        if shorter.contains(last) {
            let i = choose|i: int| 0 <= i < shorter.len() && shorter[i] == last;
            assert(list[i] == list[list.len() - 1]);
        }
        assert(shorter.push(last) == list);
    } else {
        assert(list == Seq::<Seq<char>>::empty());
    }
}

/// Whether `list` holds `item`.
pub fn contains_hash(list: &Vec<String>, item: &String) -> (found: bool)
    ensures
        found == texts(list@).contains(item@),
{
    match position(list, item) {
        Some(i) => {
            assert(texts(list@)[i as int] == item@);
            true
        },
        None => false,
    }
}

/// The hashes of `hashes` without repetitions, each where it occurs first.
pub fn unique_hashes(hashes: &Vec<String>) -> (unique: Vec<String>)
    ensures
        texts(unique@) == first_occurrences(texts(hashes@)),
{
    let mut unique: Vec<String> = Vec::new();
    let mut i: usize = 0;
    while i < hashes.len()
        invariant
            i <= hashes.len(),
            texts(unique@) == first_occurrences(texts(hashes@).take(i as int)),
        decreases hashes.len() - i,
    {
        let ghost shorter = texts(hashes@).take(i as int);
        let ghost longer = texts(hashes@).take(i + 1);
        let ghost kept = texts(unique@);
        proof {
            assert(longer.drop_last() == shorter);
            assert(longer.last() == hashes[i as int]@);
            lemma_first_occurrences(shorter);
        }
        if !contains_hash(&unique, &hashes[i]) {
            unique.push(hashes[i].clone());
            assert(texts(unique@) == kept.push(hashes[i as int]@));
        }
        i += 1;
    }
    assert(texts(hashes@).take(i as int) == texts(hashes@));
    unique
}

} // verus!
