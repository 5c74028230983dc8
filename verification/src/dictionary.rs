//! Dictionaries: lookup, insertion and removal by key.

use vstd::prelude::*;
use crate::error::Error;
use crate::object::{bytes_eq, Dictionary, Object, ObjectView};

verus! {

/// The position of the first entry under `key`, or the length where there is none.
pub open spec fn dict_find(d: Seq<(Seq<u8>, ObjectView)>, key: Seq<u8>) -> int
    decreases d.len(),
{
    if d.len() == 0 {
        0
    } else if d[0].0 == key {
        0
    } else {
        1 + dict_find(d.drop_first(), key)
    }
}

/// Whether some entry stands under `key`.
pub open spec fn dict_has(d: Seq<(Seq<u8>, ObjectView)>, key: Seq<u8>) -> bool {
    dict_find(d, key) < d.len()
}

/// The value of the first entry under `key`.
pub open spec fn dict_get(d: Seq<(Seq<u8>, ObjectView)>, key: Seq<u8>) -> Option<ObjectView> {
    if dict_has(d, key) {
        Some(d[dict_find(d, key)].1)
    } else {
        None
    }
}

/// The dictionary with `value` under `key`: in place of the first entry under
/// that key, or at the end where there was none.
pub open spec fn dict_set(d: Seq<(Seq<u8>, ObjectView)>, key: Seq<u8>, value: ObjectView) -> Seq<
    (Seq<u8>, ObjectView),
> {
    if dict_has(d, key) {
        d.update(dict_find(d, key), (key, value))
    } else {
        d.push((key, value))
    }
}

/// The dictionary without any entry under `key`, the others in their order.
pub open spec fn dict_without(d: Seq<(Seq<u8>, ObjectView)>, key: Seq<u8>) -> Seq<
    (Seq<u8>, ObjectView),
>
    decreases d.len(),
{
    if d.len() == 0 {
        d
    } else if d.last().0 == key {
        dict_without(d.drop_last(), key)
    } else {
        dict_without(d.drop_last(), key).push(d.last())
    }
}

/// `dict_find` is the least position that holds the key.
pub proof fn lemma_dict_find(d: Seq<(Seq<u8>, ObjectView)>, key: Seq<u8>, i: int)
    requires
        0 <= i <= d.len(),
        forall|k: int| 0 <= k < i ==> d[k].0 != key,
        i < d.len() ==> d[i].0 == key,
    ensures
        dict_find(d, key) == i,
    decreases d.len(),
{
    if d.len() > 0 && i > 0 {
        let rest = d.drop_first();
        assert forall|k: int| 0 <= k < i - 1 implies rest[k].0 != key by {
            assert(rest[k] == d[k + 1]);
        }
        lemma_dict_find(rest, key, i - 1);
    }
}

/// What `dict_find` returns: a position within the dictionary or its length,
/// with no entry under the key before it.
pub proof fn lemma_dict_find_bounds(d: Seq<(Seq<u8>, ObjectView)>, key: Seq<u8>)
    ensures
        0 <= dict_find(d, key) <= d.len(),
        forall|k: int| 0 <= k < dict_find(d, key) ==> d[k].0 != key,
        dict_find(d, key) < d.len() ==> d[dict_find(d, key)].0 == key,
    decreases d.len(),
{
    if d.len() > 0 && d[0].0 != key {
        let rest = d.drop_first();
        lemma_dict_find_bounds(rest, key);
        assert forall|k: int| 0 <= k < dict_find(d, key) implies d[k].0 != key by {
            if k > 0 {
                assert(rest[k - 1] == d[k]);
            }
        }
    }
}

/// Removing a key leaves no entry under it and keeps every other lookup.
pub proof fn lemma_dict_without(d: Seq<(Seq<u8>, ObjectView)>, key: Seq<u8>, other: Seq<u8>)
    ensures
        !dict_has(dict_without(d, key), key),
        other != key ==> dict_get(dict_without(d, key), other) == dict_get(d, other),
        dict_without(d, key).len() <= d.len(),
    decreases d.len(),
{
    let w = dict_without(d, key);
    lemma_dict_find_bounds(w, key);
    lemma_dict_find_bounds(w, other);
    lemma_dict_find_bounds(d, other);
    if d.len() > 0 {
        let front = d.drop_last();
        let wf = dict_without(front, key);
        lemma_dict_without(front, key, other);
        lemma_dict_find_bounds(wf, key);
        lemma_dict_find_bounds(wf, other);
        lemma_dict_find_bounds(front, other);
        if d.last().0 == key {
            assert(w == wf);
            if other != key {
                let i = dict_find(front, other);
                assert forall|k: int| 0 <= k < i implies d[k].0 != other by {
                    assert(front[k] == d[k]);
                }
                if i < front.len() {
                    assert(front[i] == d[i]);
                    lemma_dict_find(d, other, i);
                } else {
                    lemma_dict_find(d, other, d.len() as int);
                }
            }
        } else {
            assert(w == wf.push(d.last()));
            let j = dict_find(wf, key);
            assert(j == wf.len());
            assert forall|k: int| 0 <= k < w.len() implies w[k].0 != key by {
                if k < wf.len() {
                    assert(w[k] == wf[k]);
                }
            }
            lemma_dict_find(w, key, w.len() as int);
            if other != key {
                let i = dict_find(front, other);
                let iw = dict_find(wf, other);
                assert forall|k: int| 0 <= k < i implies d[k].0 != other by {
                    assert(front[k] == d[k]);
                }
                assert forall|k: int| 0 <= k < iw implies w[k].0 != other by {
                    assert(wf[k] == w[k]);
                }
                if i < front.len() {
                    assert(front[i] == d[i]);
                    lemma_dict_find(d, other, i);
                    assert(wf[iw] == w[iw]);
                    lemma_dict_find(w, other, iw);
                } else if d.last().0 == other {
                    lemma_dict_find(d, other, d.len() - 1);
                    lemma_dict_find(w, other, w.len() - 1);
                } else {
                    lemma_dict_find(d, other, d.len() as int);
                    lemma_dict_find(w, other, w.len() as int);
                }
            }
        }
    }
}

impl Dictionary {
    /// A dictionary without entries.
    pub fn new() -> (res: Dictionary)
        ensures
            res@ == Seq::<(Seq<u8>, ObjectView)>::empty(),
    {
        let res = Dictionary { entries: Vec::new() };
        assert(res@ =~= Seq::<(Seq<u8>, ObjectView)>::empty());
        res
    }

    /// The number of entries.
    pub fn len(&self) -> (res: usize)
        ensures
            res == self@.len(),
    {
        self.entries.len()
    }

    /// The position of the first entry under `key`, or the length where there is none.
    fn find(&self, key: &[u8]) -> (res: usize)
        ensures
            res == dict_find(self@, key@),
            res <= self.entries@.len(),
    {
        let mut i: usize = 0;
        while i < self.entries.len()
            invariant
                i <= self.entries@.len(),
                forall|k: int| 0 <= k < i ==> self@[k].0 != key@,
            decreases self.entries.len() - i,
        {
            if bytes_eq(self.entries[i].0.as_slice(), key) {
                proof {
                    lemma_dict_find(self@, key@, i as int);
                }
                return i;
            }
            i += 1;
        }
        proof {
            lemma_dict_find(self@, key@, i as int);
        }
        i
    }

    /// Whether some entry stands under `key`.
    pub fn has(&self, key: &[u8]) -> (res: bool)
        ensures
            res == dict_has(self@, key@),
    {
        self.find(key) < self.entries.len()
    }

    /// The first object under `key`; `DictKey` where there is none.
    pub fn get(&self, key: &[u8]) -> (res: Result<&Object, Error>)
        ensures
            match res {
                Ok(o) => dict_get(self@, key@) == Some(o@),
                Err(e) => e == Error::DictKey && dict_get(self@, key@) is None,
            },
    {
        let i = self.find(key);
        if i < self.entries.len() {
            Ok(&self.entries[i].1)
        } else {
            Err(Error::DictKey)
        }
    }

    /// Puts `value` under `key`, in place of the first entry under that key
    /// or at the end.
    pub fn set(&mut self, key: Vec<u8>, value: Object)
        ensures
            final(self)@ == dict_set(old(self)@, key@, value@),
    {
        let i = self.find(key.as_slice());
        if i < self.entries.len() {
            self.entries[i] = (key, value);
        } else {
            self.entries.push((key, value));
        }
        assert(self@ =~= dict_set(old(self)@, key@, value@));
    }

    /// Removes every entry under `key` and returns the first object that
    /// stood under it.
    pub fn remove(&mut self, key: &[u8]) -> (res: Option<Object>)
        ensures
            final(self)@ == dict_without(old(self)@, key@),
            match res {
                Some(o) => dict_get(old(self)@, key@) == Some(o@),
                None => dict_get(old(self)@, key@) is None,
            },
    {
        let ghost before = self@;
        let mut first: Option<Object> = None;
        let mut i: usize = 0;
        let ghost mut k: int = 0;
        while i < self.entries.len()
            invariant
                0 <= k <= before.len(),
                i <= self.entries@.len(),
                self@.len() == i + (before.len() - k),
                self@.subrange(0, i as int) == dict_without(before.subrange(0, k), key@),
                self@.subrange(i as int, self@.len() as int) == before.subrange(
                    k,
                    before.len() as int,
                ),
                match first {
                    Some(o) => dict_get(before, key@) == Some(o@) && dict_find(before, key@) < k,
                    None => forall|j: int| 0 <= j < k ==> before[j].0 != key@,
                },
            decreases self.entries.len() - i,
        {
            let ghost now = self@;
            proof {
                assert(now[i as int] == now.subrange(i as int, now.len() as int)[0]);
                assert(now[i as int] == before[k]);
                assert(before.subrange(0, k + 1).drop_last() =~= before.subrange(0, k));
                assert(before.subrange(0, k + 1).last() == before[k]);
            }
            if bytes_eq(self.entries[i].0.as_slice(), key) {
                let entry = self.entries.remove(i);
                proof {
                    assert(self@ =~= now.remove(i as int));
                    assert(self@.subrange(0, i as int) =~= now.subrange(0, i as int));
                    let tail = self@.subrange(i as int, self@.len() as int);
                    assert forall|j: int| 0 <= j < tail.len() implies #[trigger] tail[j]
                        == before[k + 1 + j] by {
                        assert(now.subrange(i as int, now.len() as int)[j + 1]
                            == before.subrange(k, before.len() as int)[j + 1]);
                    }
                    assert(self@.subrange(i as int, self@.len() as int) =~= before.subrange(
                        k + 1,
                        before.len() as int,
                    ));
                    if first is None {
                        lemma_dict_find(before, key@, k);
                    }
                }
                if first.is_none() {
                    first = Some(entry.1);
                }
                proof {
                    k = k + 1;
                }
            } else {
                proof {
                    assert(self@.subrange(0, i + 1) =~= self@.subrange(0, i as int).push(
                        now[i as int],
                    ));
                    let tail = self@.subrange(i + 1, self@.len() as int);
                    assert forall|j: int| 0 <= j < tail.len() implies #[trigger] tail[j]
                        == before[k + 1 + j] by {
                        assert(now.subrange(i as int, now.len() as int)[j + 1]
                            == before.subrange(k, before.len() as int)[j + 1]);
                    }
                    assert(self@.subrange(i + 1, self@.len() as int) =~= before.subrange(
                        k + 1,
                        before.len() as int,
                    ));
                    k = k + 1;
                }
                i += 1;
            }
        }
        proof {
            assert(self@.subrange(0, i as int) =~= self@);
            assert(before.subrange(0, k) =~= before);
            if first is None {
                lemma_dict_find(before, key@, before.len() as int);
            }
        }
        first
    }
}

} // verus!
