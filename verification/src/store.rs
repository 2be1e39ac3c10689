//! The object store: texts addressed by their hash, each written once.

use vstd::prelude::*;
use crate::search::{first_match, lemma_first_match, lemma_first_match_is};

verus! {

/// One stored object: the hash that addresses it, and its text.
#[derive(Debug)]
pub struct StoredObject {
    pub hash: String,
    pub text: String,
}

/// The objects of a repository, in the order in which they were stored.
#[derive(Debug)]
pub struct ObjectStore {
    pub objects: Vec<StoredObject>,
}

/// The hashes of `objects`, in order.
pub open spec fn keys_of(objects: Seq<StoredObject>) -> Seq<Seq<char>> {
    objects.map_values(|o: StoredObject| o.hash@)
}

/// The index of the first object that `hash` addresses, or the number of
/// objects.
pub open spec fn index_of_key(objects: Seq<StoredObject>, hash: Seq<char>) -> int {
    first_match(keys_of(objects), |k: Seq<char>| k == hash)
}

/// The store as a map from hash to text. Of two objects under one hash the
/// first counts.
pub open spec fn store_map(objects: Seq<StoredObject>) -> Map<Seq<char>, Seq<char>> {
    Map::new(
        |h: Seq<char>| index_of_key(objects, h) < objects.len(),
        |h: Seq<char>| objects[index_of_key(objects, h)].text@,
    )
}

impl View for ObjectStore {
    type V = Map<Seq<char>, Seq<char>>;

    open spec fn view(&self) -> Map<Seq<char>, Seq<char>> {
        store_map(self.objects@)
    }
}

/// What one more object does to the map: nothing where its hash is taken,
/// one more entry otherwise.
pub(crate) proof fn lemma_store_push(objects: Seq<StoredObject>, o: StoredObject)
    ensures
        store_map(objects).contains_key(o.hash@) ==> store_map(objects.push(o)) == store_map(
            objects,
        ),
        !store_map(objects).contains_key(o.hash@) ==> store_map(objects.push(o)) == store_map(
            objects,
        ).insert(o.hash@, o.text@),
{
    let grown = objects.push(o);
    let before = store_map(objects);
    let after = store_map(grown);
    let target = if before.contains_key(o.hash@) {
        before
    } else {
        before.insert(o.hash@, o.text@)
    };
    assert(keys_of(grown) =~= keys_of(objects).push(o.hash@));
    assert forall|h: Seq<char>| #[trigger]
        after.contains_key(h) == target.contains_key(h) && (after.contains_key(h) ==> after[h]
            == target[h]) by {
        let p = |k: Seq<char>| k == h;
        lemma_first_match(keys_of(objects), p);
        let i = index_of_key(objects, h);
        if i < objects.len() {
            lemma_first_match_is(keys_of(grown), p, i);
        } else if h == o.hash@ {
            lemma_first_match_is(keys_of(grown), p, objects.len() as int);
        } else {
            lemma_first_match_is(keys_of(grown), p, grown.len() as int);
        }
    }
}

impl ObjectStore {
    /// A store without objects.
    pub fn new() -> (out: ObjectStore)
        ensures
            out@ == Map::<Seq<char>, Seq<char>>::empty(),
            out.objects@.len() == 0,
    {
        let out = ObjectStore { objects: Vec::new() };
        out
    }

    /// The index of the first object under `hash`, or the number of objects.
    pub fn position(&self, hash: &String) -> (i: usize)
        ensures
            i == index_of_key(self.objects@, hash@),
            i <= self.objects@.len(),
            i < self.objects@.len() <==> self@.contains_key(hash@),
            i < self.objects@.len() ==> self.objects@[i as int].text@ == self@[hash@],
    {
        let mut i: usize = 0;
        while i < self.objects.len() && !(self.objects[i].hash == *hash)
            invariant
                0 <= i <= self.objects@.len(),
                forall|j: int| 0 <= j < i ==> #[trigger] keys_of(self.objects@)[j] != hash@,
            decreases self.objects@.len() - i,
        {
            i += 1;
        }
        proof {
            lemma_first_match_is(keys_of(self.objects@), |k: Seq<char>| k == hash@, i as int);
        }
        i
    }

    /// Whether an object is stored under `hash`.
    pub fn contains(&self, hash: &String) -> (out: bool)
        ensures
            out == self@.contains_key(hash@),
    {
        self.position(hash) < self.objects.len()
    }

    /// The text stored under `hash`, where there is one.
    pub fn get(&self, hash: &String) -> (out: Option<&String>)
        ensures
            match out {
                Some(text) => self@.contains_key(hash@) && text@ == self@[hash@],
                None => !self@.contains_key(hash@),
            },
    {
        let i = self.position(hash);
        if i < self.objects.len() {
            Some(&self.objects[i].text)
        } else {
            None
        }
    }

    /// Stores `text` under `hash`, unless an object is stored there: then
    /// the store stays as it is, object for object.
    pub fn put(&mut self, hash: String, text: String)
        ensures
            old(self)@.contains_key(hash@) ==> final(self).objects@ == old(self).objects@,
            old(self)@.contains_key(hash@) ==> final(self)@ == old(self)@,
            !old(self)@.contains_key(hash@) ==> final(self)@ == old(self)@.insert(hash@, text@),
            !old(self)@.contains_key(hash@) ==> final(self).objects@.len() == old(self).objects@.len() + 1,
    {
        if !self.contains(&hash) {
            let o = StoredObject { hash, text };
            proof {
                lemma_store_push(self.objects@, o);
            }
            self.objects.push(o);
        }
    }
}

} // verus!
