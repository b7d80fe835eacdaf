//! The table of the store: keys in increasing order and, at the same
//! places, their entries, read as a mapping from key to entry.

use crate::file_types::{FileType, FileView, TextFile};
use crate::listing::{absorbed, absorbed_item, Listed};
use crate::order::{
    increasing, lemma_increasing_distinct, lemma_precedes_asymmetric, lemma_precedes_transitive,
    precedes, rank, Rank,
};
use crate::path::join_key;
use crate::text::{prefix_is, to_chars};
use vstd::prelude::*;

verus! {

/// The keys and, at the same positions, their entries.
pub(crate) struct Table {
    pub(crate) keys: Vec<String>,
    pub(crate) files: Vec<FileType>,
}

/// The characters of each text of a list.
pub(crate) open spec fn texts(list: Seq<String>) -> Seq<Seq<char>> {
    Seq::new(list.len(), |i: int| list[i]@)
}

/// The view of each entry of a list.
pub(crate) open spec fn views(list: Seq<FileType>) -> Seq<FileView> {
    Seq::new(list.len(), |i: int| list[i]@)
}

/// The texts of a list, as a set.
pub(crate) open spec fn text_set(list: Seq<String>) -> Set<Seq<char>> {
    Set::new(|p: Seq<char>| texts(list).contains(p))
}

/// The mapping that sends each key to the value at its position.
pub(crate) open spec fn mapping(keys: Seq<Seq<char>>, values: Seq<FileView>) -> Map<Seq<char>, FileView> {
    Map::new(|k: Seq<char>| keys.contains(k), |k: Seq<char>| values[keys.index_of(k)])
}

/// In a mapping by increasing keys, the key at `i` has the value at `i`.
pub(crate) proof fn lemma_mapping_at(keys: Seq<Seq<char>>, values: Seq<FileView>, i: int)
    requires
        increasing(keys),
        0 <= i < keys.len(),
    ensures
        mapping(keys, values).dom().contains(keys[i]),
        mapping(keys, values)[keys[i]] == values[i],
{
    lemma_increasing_distinct(keys);
    let j = keys.index_of(keys[i]);
    assert(keys[j] == keys[i]);
}

/// Putting a key in at `p`, between the keys that precede it and those that
/// follow it, keeps the keys increasing and adds the key to the mapping.
pub(crate) proof fn lemma_mapping_insert(
    keys: Seq<Seq<char>>,
    values: Seq<FileView>,
    p: int,
    key: Seq<char>,
    value: FileView,
)
    requires
        0 <= p <= keys.len(),
        keys.len() == values.len(),
        increasing(keys),
        forall|i: int| 0 <= i < p ==> precedes(#[trigger] keys[i], key),
        forall|i: int| p <= i < keys.len() ==> precedes(key, #[trigger] keys[i]),
    ensures
        increasing(keys.insert(p, key)),
        mapping(keys.insert(p, key), values.insert(p, value)) == mapping(keys, values).insert(
            key,
            value,
        ),
{
    let keys2 = keys.insert(p, key);
    let values2 = values.insert(p, value);
    assert forall|i: int, j: int| 0 <= i < j < keys2.len() implies precedes(
        #[trigger] keys2[i],
        #[trigger] keys2[j],
    ) by {
        let a = if i < p { i } else { i - 1 };
        let b = if j < p { j } else { j - 1 };
        if i != p && j != p {
            assert(keys2[i] == keys[a]);
            assert(keys2[j] == keys[b]);
        } else if i == p {
            assert(keys2[j] == keys[b]);
        } else {
            assert(keys2[i] == keys[a]);
        }
    }
    let target = mapping(keys, values).insert(key, value);
    assert forall|k: Seq<char>| #[trigger] keys2.contains(k) <==> (keys.contains(k) || k == key) by {
        if keys2.contains(k) {
            let j = keys2.index_of(k);
            if j < p {
                assert(keys[j] == k);
            } else if j > p {
                assert(keys[j - 1] == k);
            }
        }
        if keys.contains(k) {
            let j = keys.index_of(k);
            let j2 = if j < p { j } else { j + 1 };
            assert(keys2[j2] == k);
        }
        if k == key {
            assert(keys2[p] == k);
        }
    }
    assert forall|k: Seq<char>| #[trigger] target.dom().contains(k) implies mapping(keys2, values2)[k]
        == target[k] by {
        if k == key {
            assert(keys2[p] == k);
            lemma_mapping_at(keys2, values2, p);
        } else {
            let j = keys.index_of(k);
            lemma_mapping_at(keys, values, j);
            let j2 = if j < p { j } else { j + 1 };
            assert(keys2[j2] == k);
            lemma_mapping_at(keys2, values2, j2);
        }
    }
    assert(mapping(keys2, values2).dom() =~= target.dom());
    assert(mapping(keys2, values2) =~= target);
}

/// Taking the key at `p` out keeps the keys increasing and removes the key
/// from the mapping.
pub(crate) proof fn lemma_mapping_remove(keys: Seq<Seq<char>>, values: Seq<FileView>, p: int)
    requires
        0 <= p < keys.len(),
        keys.len() == values.len(),
        increasing(keys),
    ensures
        increasing(keys.remove(p)),
        mapping(keys.remove(p), values.remove(p)) == mapping(keys, values).remove(keys[p]),
{
    let keys2 = keys.remove(p);
    let values2 = values.remove(p);
    lemma_increasing_distinct(keys);
    assert forall|i: int, j: int| 0 <= i < j < keys2.len() implies precedes(
        #[trigger] keys2[i],
        #[trigger] keys2[j],
    ) by {
        let a = if i < p { i } else { i + 1 };
        let b = if j < p { j } else { j + 1 };
        assert(keys2[i] == keys[a]);
        assert(keys2[j] == keys[b]);
    }
    let target = mapping(keys, values).remove(keys[p]);
    assert forall|k: Seq<char>| #[trigger] keys2.contains(k) <==> (keys.contains(k) && k != keys[p]) by {
        if keys2.contains(k) {
            let j = keys2.index_of(k);
            let a = if j < p { j } else { j + 1 };
            assert(keys[a] == k);
        }
        if keys.contains(k) && k != keys[p] {
            let j = keys.index_of(k);
            let j2 = if j < p { j } else { j - 1 };
            assert(keys2[j2] == k);
        }
    }
    assert forall|k: Seq<char>| #[trigger] target.dom().contains(k) implies mapping(keys2, values2)[k]
        == target[k] by {
        let j = keys.index_of(k);
        lemma_mapping_at(keys, values, j);
        let j2 = if j < p { j } else { j - 1 };
        assert(keys2[j2] == k);
        lemma_mapping_at(keys2, values2, j2);
    }
    assert(mapping(keys2, values2).dom() =~= target.dom());
    assert(mapping(keys2, values2) =~= target);
}

/// Replacing the value at `p` replaces the value of the key at `p`.
pub(crate) proof fn lemma_mapping_update(keys: Seq<Seq<char>>, values: Seq<FileView>, p: int, value: FileView)
    requires
        0 <= p < keys.len(),
        keys.len() == values.len(),
        increasing(keys),
    ensures
        mapping(keys, values.update(p, value)) == mapping(keys, values).insert(keys[p], value),
{
    let values2 = values.update(p, value);
    let target = mapping(keys, values).insert(keys[p], value);
    assert forall|k: Seq<char>| #[trigger] target.dom().contains(k) implies mapping(keys, values2)[k]
        == target[k] by {
        if k == keys[p] {
            lemma_mapping_at(keys, values2, p);
        } else {
            let j = keys.index_of(k);
            lemma_mapping_at(keys, values, j);
            lemma_mapping_at(keys, values2, j);
        }
    }
    assert(mapping(keys, values2).dom() =~= target.dom());
    assert(mapping(keys, values2) =~= target);
}

impl Table {
    pub(crate) open spec fn wf(&self) -> bool {
        &&& self.keys.len() == self.files.len()
        &&& increasing(texts(self.keys@))
    }

    pub(crate) open spec fn entries(&self) -> Map<Seq<char>, FileView> {
        mapping(texts(self.keys@), views(self.files@))
    }

    /// Where `key` stands, or would stand, among the keys.
    pub(crate) fn locate(&self, key: &Vec<char>) -> (r: (usize, bool))
        requires
            self.wf(),
        ensures
            r.0 <= self.keys.len(),
            forall|i: int| 0 <= i < r.0 ==> precedes(#[trigger] texts(self.keys@)[i], key@),
            forall|i: int| r.0 + (if r.1 { 1int } else { 0int }) <= i < self.keys.len() ==> precedes(key@, #[trigger] texts(self.keys@)[i]),
            r.1 ==> r.0 < self.keys.len() && texts(self.keys@)[r.0 as int] == key@,
            r.1 == texts(self.keys@).contains(key@),
    {
        let ghost keys = texts(self.keys@);
        let mut i: usize = 0;
        while i < self.keys.len()
            invariant
                i <= self.keys.len(),
                keys == texts(self.keys@),
                increasing(keys),
                forall|j: int| 0 <= j < i ==> precedes(#[trigger] keys[j], key@),
            decreases self.keys.len() - i,
        {
            let here = to_chars(self.keys[i].as_str());
            assert(here@ == keys[i as int]);
            match rank(&here, key) {
                Rank::Before => {},
                Rank::Same => {
                    assert forall|j: int| i < j < keys.len() implies precedes(key@, #[trigger] keys[j]) by {
                        assert(precedes(keys[i as int], keys[j]));
                    }
                    return (i, true);
                },
                Rank::After => {
                    assert forall|j: int| i <= j < keys.len() implies precedes(key@, #[trigger] keys[j]) by {
                        if j > i {
                            lemma_precedes_transitive(key@, keys[i as int], keys[j]);
                        }
                    }
                    assert forall|j: int| 0 <= j < keys.len() implies keys[j] != key@ by {
                        if j < i {
                            lemma_precedes_asymmetric(keys[j], key@);
                        } else {
                            lemma_precedes_asymmetric(key@, keys[j]);
                        }
                    }
                    return (i, false);
                },
            }
            i += 1;
        }
        assert forall|j: int| 0 <= j < keys.len() implies keys[j] != key@ by {
            lemma_precedes_asymmetric(keys[j], key@);
        }
        (i, false)
    }

    /// Puts `file` under `key`, in place of what was there.
    pub(crate) fn put(&mut self, key: String, file: FileType)
        requires
            old(self).wf(),
        ensures
            final(self).wf(),
            final(self).entries() == old(self).entries().insert(key@, file@),
    {
        let chars = to_chars(key.as_str());
        let (p, found) = self.locate(&chars);
        let ghost keys = texts(self.keys@);
        let ghost values = views(self.files@);
        if found {
            proof {
                lemma_mapping_update(keys, values, p as int, file@);
            }
            self.files.set(p, file);
            assert(views(self.files@) =~= values.update(p as int, file@));
        } else {
            proof {
                lemma_mapping_insert(keys, values, p as int, key@, file@);
            }
            self.keys.insert(p, key);
            self.files.insert(p, file);
            assert(texts(self.keys@) =~= keys.insert(p as int, key@));
            assert(views(self.files@) =~= values.insert(p as int, file@));
        }
    }

    /// Takes out the entry under `key`, if there is one, and hands it back.
    pub(crate) fn take(&mut self, key: &str) -> (r: Option<FileType>)
        requires
            old(self).wf(),
        ensures
            final(self).wf(),
            final(self).entries() == old(self).entries().remove(key@),
            match r {
                Some(file) => old(self).entries().dom().contains(key@) && file@ == old(self).entries()[key@],
                None => !old(self).entries().dom().contains(key@),
            },
    {
        let chars = to_chars(key);
        let (p, found) = self.locate(&chars);
        let ghost keys = texts(self.keys@);
        let ghost values = views(self.files@);
        if found {
            proof {
                lemma_mapping_at(keys, values, p as int);
                lemma_mapping_remove(keys, values, p as int);
            }
            self.keys.remove(p);
            let file = self.files.remove(p);
            assert(texts(self.keys@) =~= keys.remove(p as int));
            assert(views(self.files@) =~= values.remove(p as int));
            Some(file)
        } else {
            assert(self.entries().remove(key@) =~= self.entries());
            None
        }
    }

    /// Takes in the items found in the folder whose key is `prefix`.
    pub(crate) fn absorb(&mut self, items: &Vec<Listed>, prefix: &str)
        requires
            old(self).wf(),
        ensures
            final(self).wf(),
            final(self).entries() == absorbed(
                old(self).entries(),
                items@,
                items@.len(),
                prefix@,
            ),
        decreases items@,
    {
        let ghost start = self.entries();
        let mut i: usize = 0;
        while i < items.len()
            invariant
                i <= items.len(),
                self.wf(),
                self.entries() == absorbed(start, items@, i as nat, prefix@),
            decreases items.len() - i,
        {
            let ghost before = self.entries();
            assert(absorbed(start, items@, (i + 1) as nat, prefix@) == absorbed_item(
                before,
                items@[i as int],
                prefix@,
            ));
            match &items[i] {
                Listed::File { name, path } => {
                    let key = join_key(prefix, name.as_str());
                    let file = FileType::Text(
                        TextFile { path: path.clone(), content: None, dirty: false },
                    );
                    self.put(key, file);
                },
                Listed::Folder { name, items: Some(inner) } => {
                    let key = join_key(prefix, name.as_str());
                    self.absorb(inner, key.as_str());
                },
                Listed::Folder { name, items: None } => {},
            }
            i += 1;
        }
    }
}

/// Whether `list` holds the text `chars[..n]`.
pub(crate) fn holds(list: &Vec<String>, chars: &Vec<char>, n: usize) -> (found: bool)
    requires
        n <= chars.len(),
    ensures
        found == text_set(list@).contains(chars@.take(n as int)),
{
    let mut i: usize = 0;
    while i < list.len()
        invariant
            i <= list.len(),
            n <= chars.len(),
            forall|j: int| 0 <= j < i ==> texts(list@)[j] != chars@.take(n as int),
        decreases list.len() - i,
    {
        let here = to_chars(list[i].as_str());
        if prefix_is(chars, n, &here) {
            assert(texts(list@)[i as int] == chars@.take(n as int));
            return true;
        }
        i += 1;
    }
    false
}

/// The texts of `list` but the text `chars`, in their order.
pub(crate) fn without(list: &Vec<String>, chars: &Vec<char>) -> (kept: Vec<String>)
    ensures
        text_set(kept@) == text_set(list@).remove(chars@),
{
    let ghost before = list@;
    let mut kept: Vec<String> = Vec::new();
    let mut i: usize = 0;
    while i < list.len()
        invariant
            i <= list.len(),
            list@ == before,
            forall|j: int|
                0 <= j < kept@.len() ==> (#[trigger] texts(kept@)[j]) != chars@ && texts(
                    before,
                ).contains(texts(kept@)[j]),
            forall|j: int|
                0 <= j < i && (#[trigger] texts(before)[j]) != chars@ ==> texts(kept@).contains(
                    texts(before)[j],
                ),
        decreases list.len() - i,
    {
        let here = to_chars(list[i].as_str());
        let ghost kept_before = kept@;
        assert(here@.take(here@.len() as int) == here@);
        if !prefix_is(&here, here.len(), chars) {
            kept.push(list[i].clone());
        }
        proof {
            assert forall|j: int| 0 <= j < kept@.len() implies (#[trigger] texts(kept@)[j])
                != chars@ && texts(before).contains(texts(kept@)[j]) by {
                if j < kept_before.len() {
                    assert(texts(kept@)[j] == texts(kept_before)[j]);
                } else {
                    assert(texts(before)[i as int] == texts(kept@)[j]);
                }
            }
            assert forall|j: int| 0 <= j < i + 1 && (#[trigger] texts(before)[j])
                != chars@ implies texts(kept@).contains(texts(before)[j]) by {
                if j < i {
                    let h = texts(kept_before).index_of(texts(before)[j]);
                    assert(texts(kept@)[h] == texts(before)[j]);
                } else {
                    assert(texts(kept@)[kept@.len() - 1] == texts(before)[j]);
                }
            }
        }
        i += 1;
    }
    proof {
        assert forall|p: Seq<char>| text_set(kept@).contains(p) <==> text_set(before).remove(
            chars@,
        ).contains(p) by {
            if texts(kept@).contains(p) {
                let j = texts(kept@).index_of(p);
                assert(texts(kept@)[j] == p);
            }
            if texts(before).contains(p) && p != chars@ {
                let j = texts(before).index_of(p);
                assert(texts(before)[j] == p);
            }
        }
        assert(text_set(kept@) =~= text_set(before).remove(chars@));
    }
    kept
}

/// `list` with the text `text` at its end.
pub(crate) fn with(list: Vec<String>, text: &str) -> (longer: Vec<String>)
    ensures
        text_set(longer@) == text_set(list@).insert(text@),
{
    let ghost before = list@;
    let mut list = list;
    list.push(String::from_str(text));
    proof {
        assert forall|p: Seq<char>| #[trigger]
            texts(list@).contains(p) <==> p == text@ || texts(before).contains(p) by {
            if texts(list@).contains(p) {
                let j = texts(list@).index_of(p);
                if j < before.len() {
                    assert(texts(before)[j] == p);
                }
            }
            if texts(before).contains(p) {
                let j = texts(before).index_of(p);
                assert(texts(list@)[j] == p);
            }
            if p == text@ {
                assert(texts(list@)[list@.len() - 1] == p);
            }
        }
        assert(text_set(list@) =~= text_set(before).insert(text@));
    }
    list
}

} // verus!
