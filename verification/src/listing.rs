//! The order of a directory listing: directories first, then by lowercased
//! name.

use crate::text::{characters, lowercased, to_lowercase};
use vstd::prelude::*;

verus! {

/// What an item of a listing holds.
pub struct Entry {
    pub name: Seq<char>,
    pub path: Seq<char>,
    pub is_dir: bool,
}

/// One item of a directory listing.
pub struct FileItem {
    pub name: String,
    pub path: String,
    pub is_dir: bool,
}

impl View for FileItem {
    type V = Entry;

    open spec fn view(&self) -> Entry {
        Entry { name: self.name@, path: self.path@, is_dir: self.is_dir }
    }
}

/// What the items of a listing hold.
pub open spec fn entries(items: Seq<FileItem>) -> Seq<Entry> {
    items.map_values(|item: FileItem| item@)
}

/// `a` stands before `b` in the dictionary, character by character in the
/// order of their code points.
pub open spec fn comes_before(a: Seq<char>, b: Seq<char>) -> bool
    decreases a.len(),
{
    if b.len() == 0 {
        false
    } else if a.len() == 0 {
        true
    } else if a[0] != b[0] {
        (a[0] as int) < (b[0] as int)
    } else {
        comes_before(a.skip(1), b.skip(1))
    }
}

/// `a` is listed before `b`: a directory before a file, and among two of a
/// kind the one whose lowercased name stands first in the dictionary.
pub open spec fn listed_before(a: Entry, b: Entry) -> bool {
    if a.is_dir != b.is_dir {
        a.is_dir
    } else {
        comes_before(lowercased(a.name), lowercased(b.name))
    }
}

/// No item stands behind one that is listed after it.
pub open spec fn in_order(list: Seq<Entry>) -> bool {
    forall|i: int, j: int| 0 <= i < j < list.len() ==> !listed_before(list[j], list[i])
}

/// Where a newcomer goes in `list`: behind the last item that it is not
/// listed before.
pub open spec fn place_of(list: Seq<Entry>, newcomer: Entry) -> int
    decreases list.len(),
{
    if list.len() == 0 || !listed_before(newcomer, list.last()) {
        list.len() as int
    } else {
        place_of(list.drop_last(), newcomer)
    }
}

/// `list` with `newcomer` put in its place.
pub open spec fn inserted(list: Seq<Entry>, newcomer: Entry) -> Seq<Entry> {
    list.insert(place_of(list, newcomer), newcomer)
}

/// The items in listing order: each is put, in turn, among those before it.
pub open spec fn arranged(items: Seq<Entry>) -> Seq<Entry>
    decreases items.len(),
{
    if items.len() == 0 {
        Seq::empty()
    } else {
        inserted(arranged(items.drop_last()), items.last())
    }
}

/// No text stands before itself.
pub proof fn lemma_never_before_itself(a: Seq<char>)
    ensures
        !comes_before(a, a),
    decreases a.len(),
{
    if a.len() > 0 {
        lemma_never_before_itself(a.skip(1));
    }
}

/// Of two different texts one stands before the other.
pub proof fn lemma_one_comes_first(a: Seq<char>, b: Seq<char>)
    requires
        a != b,
    ensures
        comes_before(a, b) || comes_before(b, a),
    decreases a.len(),
{
    if a.len() == 0 || b.len() == 0 {
        assert(a.len() != b.len()) by {
            if a.len() == b.len() {
                assert(a =~= b);
            }
        }
    } else if a[0] == b[0] {
        assert(a.skip(1) != b.skip(1)) by {
            if a.skip(1) == b.skip(1) {
                assert(a =~= seq![a[0]] + a.skip(1));
                assert(b =~= seq![b[0]] + b.skip(1));
            }
        }
        lemma_one_comes_first(a.skip(1), b.skip(1));
    } else {
        assert((a[0] as int) != (b[0] as int));
    }
}

/// What stands before a text stands before everything behind that text.
pub proof fn lemma_before_is_transitive(a: Seq<char>, b: Seq<char>, c: Seq<char>)
    requires
        comes_before(a, b),
        comes_before(b, c),
    ensures
        comes_before(a, c),
    decreases a.len(),
{
    if a.len() > 0 && a[0] == b[0] && b[0] == c[0] {
        lemma_before_is_transitive(a.skip(1), b.skip(1), c.skip(1));
    }
}

/// If `c` is not before `b` and `b` is not before `a`, then `c` is not before
/// `a`.
pub proof fn lemma_not_before_is_transitive(a: Seq<char>, b: Seq<char>, c: Seq<char>)
    requires
        !comes_before(b, a),
        !comes_before(c, b),
    ensures
        !comes_before(c, a),
{
    if comes_before(c, a) {
        if a == b {
        } else if b == c {
        } else {
            lemma_one_comes_first(a, b);
            lemma_one_comes_first(b, c);
            lemma_before_is_transitive(c, a, b);
        }
    }
}

/// If `c` is not listed before `b` and `b` is not listed before `a`, then `c`
/// is not listed before `a`.
pub proof fn lemma_listing_order_is_transitive(a: Entry, b: Entry, c: Entry)
    requires
        !listed_before(b, a),
        !listed_before(c, b),
    ensures
        !listed_before(c, a),
{
    if a.is_dir == b.is_dir && b.is_dir == c.is_dir {
        lemma_not_before_is_transitive(lowercased(a.name), lowercased(b.name), lowercased(c.name));
    }
}

/// If `a` is listed before `b`, then `b` is not listed before `a`.
pub proof fn lemma_listing_order_is_one_way(a: Entry, b: Entry)
    requires
        listed_before(a, b),
    ensures
        !listed_before(b, a),
{
    if a.is_dir == b.is_dir {
        let x = lowercased(a.name);
        let y = lowercased(b.name);
        if comes_before(y, x) {
            lemma_before_is_transitive(x, y, x);
            lemma_never_before_itself(x);
        }
    }
}

/// The place lies within the list, the newcomer is listed before everything
/// from its place on, and not before what stands just in front of it.
pub proof fn lemma_place_of(list: Seq<Entry>, newcomer: Entry)
    ensures
        0 <= place_of(list, newcomer) <= list.len(),
        forall|i: int| place_of(list, newcomer) <= i < list.len() ==> listed_before(newcomer, list[i]),
        place_of(list, newcomer) > 0 ==> !listed_before(
            newcomer,
            list[place_of(list, newcomer) - 1],
        ),
    decreases list.len(),
{
    if list.len() == 0 || !listed_before(newcomer, list.last()) {
    } else {
        let rest = list.drop_last();
        lemma_place_of(rest, newcomer);
        assert forall|i: int| place_of(list, newcomer) <= i < list.len() implies listed_before(
            newcomer,
            list[i],
        ) by {
            if i < rest.len() {
                assert(list[i] == rest[i]);
            }
        }
        if place_of(list, newcomer) > 0 {
            assert(list[place_of(list, newcomer) - 1] == rest[place_of(rest, newcomer) - 1]);
        }
    }
}

/// Putting a newcomer in its place keeps a list in order.
pub proof fn lemma_inserted_in_order(list: Seq<Entry>, newcomer: Entry)
    requires
        in_order(list),
    ensures
        in_order(inserted(list, newcomer)),
{
    lemma_place_of(list, newcomer);
    let at = place_of(list, newcomer);
    let after = inserted(list, newcomer);
    assert forall|i: int, j: int| 0 <= i < j < after.len() implies !listed_before(
        after[j],
        after[i],
    ) by {
        if j < at {
            assert(after[i] == list[i] && after[j] == list[j]);
        } else if j == at {
            assert(after[i] == list[i]);
            if i < at - 1 {
                lemma_listing_order_is_transitive(list[i], list[at - 1], newcomer);
            }
        } else if i == at {
            assert(after[j] == list[j - 1]);
            lemma_listing_order_is_one_way(newcomer, list[j - 1]);
        } else if i < at {
            assert(after[i] == list[i] && after[j] == list[j - 1]);
        } else {
            assert(after[i] == list[i - 1] && after[j] == list[j - 1]);
        }
    }
}

/// An arranged listing is in order and holds the items it was given, each as
/// often as it was given.
pub proof fn lemma_arranged(items: Seq<Entry>)
    ensures
        in_order(arranged(items)),
        arranged(items).to_multiset() == items.to_multiset(),
        arranged(items).len() == items.len(),
    decreases items.len(),
{
    broadcast use vstd::seq_lib::to_multiset_insert, vstd::seq_lib::to_multiset_build;

    if items.len() == 0 {
        assert(arranged(items) == items);
    } else {
        let before = items.drop_last();
        lemma_arranged(before);
        lemma_inserted_in_order(arranged(before), items.last());
        lemma_place_of(arranged(before), items.last());
        assert(items == before.push(items.last()));
    }
}

/// Whether `a` stands before `b` in the dictionary.
pub fn stands_before(a: &Vec<char>, b: &Vec<char>) -> (yes: bool)
    ensures
        yes == comes_before(a@, b@),
{
    let mut i: usize = 0;
    assert(a@.skip(0) == a@ && b@.skip(0) == b@);
    while i < a.len() && i < b.len()
        invariant
            i <= a.len(),
            i <= b.len(),
            comes_before(a@, b@) == comes_before(a@.skip(i as int), b@.skip(i as int)),
        decreases a.len() - i,
    {
        assert(a@.skip(i as int)[0] == a@[i as int]);
        assert(b@.skip(i as int)[0] == b@[i as int]);
        if a[i] != b[i] {
            assert(comes_before(a@.skip(i as int), b@.skip(i as int)) == ((a@[i as int] as int)
                < (b@[i as int] as int)));
            return a[i] < b[i];
        }
        assert(a@.skip(i as int).skip(1) == a@.skip(i + 1));
        assert(b@.skip(i as int).skip(1) == b@.skip(i + 1));
        i = i + 1;
    }
    i < b.len()
}

/// Whether an item of the first kind and key is listed before one of the
/// second.
fn goes_before(is_dir: bool, key: &Vec<char>, other_is_dir: bool, other_key: &Vec<char>) -> (yes:
    bool)
    ensures
        yes == if is_dir != other_is_dir {
            is_dir
        } else {
            comes_before(key@, other_key@)
        },
{
    if is_dir != other_is_dir {
        is_dir
    } else {
        stands_before(key, other_key)
    }
}

/// The key by which an item is listed among those of its kind.
pub fn listing_key(item: &FileItem) -> (key: Vec<char>)
    ensures
        key@ == lowercased(item@.name),
{
    let lowered = to_lowercase(item.name.as_str());
    characters(lowered.as_str())
}

/// Arranges the items of a listing: directories first, then files, each kind
/// by lowercased name; items that the order does not tell apart stay as they
/// came.
pub fn sort_items(items: Vec<FileItem>) -> (sorted: Vec<FileItem>)
    ensures
        entries(sorted@) == arranged(entries(items@)),
        in_order(entries(sorted@)),
        entries(sorted@).to_multiset() == entries(items@).to_multiset(),
{
    let ghost all = entries(items@);
    let mut sorted: Vec<FileItem> = Vec::new();
    let mut keys: Vec<Vec<char>> = Vec::new();
    for item in it: items
        invariant
            entries(it.seq()) == all,
            entries(sorted@) == arranged(all.take(it.index() as int)),
            keys.len() == sorted.len(),
            forall|k: int|
                0 <= k < keys.len() ==> (#[trigger] keys@[k])@ == lowercased(sorted@[k]@.name),
    {
        proof {
            let i = it.index() as int;
            assert(all.take(i + 1).drop_last() == all.take(i));
            assert(all.take(i + 1).last() == item@);
        }
        let key = listing_key(&item);
        let ghost list = entries(sorted@);
        let mut at: usize = sorted.len();
        assert(list.take(at as int) == list);
        while at > 0 && goes_before(item.is_dir, &key, sorted[at - 1].is_dir, &keys[at - 1])
            invariant
                at <= sorted.len(),
                keys.len() == sorted.len(),
                list == entries(sorted@),
                key@ == lowercased(item@.name),
                forall|k: int|
                    0 <= k < keys.len() ==> (#[trigger] keys@[k])@ == lowercased(sorted@[k]@.name),
                place_of(list, item@) == place_of(list.take(at as int), item@),
            decreases at,
        {
            assert(list.take(at as int).drop_last() == list.take(at - 1));
            at = at - 1;
        }
        assert(place_of(list.take(at as int), item@) == at);
        let ghost entry = item@;
        sorted.insert(at, item);
        keys.insert(at, key);
        assert(entries(sorted@) == list.insert(at as int, entry));
    }
    proof {
        assert(all.take(all.len() as int) == all);
        lemma_arranged(all);
    }
    sorted
}

} // verus!
