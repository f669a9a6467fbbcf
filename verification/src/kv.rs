use crate::codec::MessageView;
use vstd::prelude::*;

verus! {

/// The reply a lookup receives when the key is absent.
pub open spec fn spec_sentinel() -> Seq<char> {
    "key not found"@
}

/// The reply a lookup receives: the stored value, or the sentinel.
pub open spec fn spec_get_reply(m: Map<Seq<char>, Seq<char>>, k: Seq<char>) -> Seq<char> {
    if m.contains_key(k) {
        m[k]
    } else {
        spec_sentinel()
    }
}

/// Map denoted by an entry list, later entries winning.
pub open spec fn entries_map(s: Seq<(String, String)>) -> Map<Seq<char>, Seq<char>>
    decreases s.len(),
{
    if s.len() == 0 {
        Map::empty()
    } else {
        entries_map(s.drop_last()).insert(s.last().0@, s.last().1@)
    }
}

pub open spec fn entries_unique(s: Seq<(String, String)>) -> bool {
    forall|i: int, j: int| 0 <= i < j < s.len() ==> s[i].0@ != s[j].0@
}

proof fn lemma_entries_map_props(s: Seq<(String, String)>)
    requires
        entries_unique(s),
    ensures
        forall|i: int|
            0 <= i < s.len() ==> entries_map(s).contains_key(#[trigger] s[i].0@) && entries_map(
                s,
            )[s[i].0@] == s[i].1@,
        forall|k: Seq<char>|
            entries_map(s).contains_key(k) ==> exists|i: int| 0 <= i < s.len() && s[i].0@ == k,
    decreases s.len(),
{
    if s.len() > 0 {
        let dl = s.drop_last();
        lemma_entries_map_props(dl);
        assert forall|i: int|
            0 <= i < s.len() implies entries_map(s).contains_key(#[trigger] s[i].0@)
            && entries_map(s)[s[i].0@] == s[i].1@ by {
            if i < s.len() - 1 {
                assert(dl[i] == s[i]);
                assert(s[i].0@ != s.last().0@);
            }
        }
        assert forall|k: Seq<char>| entries_map(s).contains_key(k) implies exists|i: int|
            0 <= i < s.len() && s[i].0@ == k by {
            if k != s.last().0@ {
                assert(entries_map(dl).contains_key(k));
                let i = choose|i: int| 0 <= i < dl.len() && dl[i].0@ == k;
                assert(dl[i] == s[i]);
                assert(s[i].0@ == k);
            } else {
                assert(s[s.len() - 1].0@ == k);
            }
        }
    }
}

proof fn lemma_entries_map_update(s: Seq<(String, String)>, i: int, p: (String, String))
    requires
        entries_unique(s),
        0 <= i < s.len(),
        s[i].0@ == p.0@,
    ensures
        entries_unique(s.update(i, p)),
        entries_map(s.update(i, p)) == entries_map(s).insert(p.0@, p.1@),
    decreases s.len(),
{
    let u = s.update(i, p);
    assert forall|a: int, b: int| 0 <= a < b < u.len() implies u[a].0@ != u[b].0@ by {
        assert(s[a].0@ != s[b].0@);
    }
    if i == s.len() - 1 {
        assert(u.drop_last() =~= s.drop_last());
        assert(entries_map(u) =~= entries_map(s).insert(p.0@, p.1@));
    } else {
        let dl = s.drop_last();
        assert forall|a: int, b: int| 0 <= a < b < dl.len() implies dl[a].0@ != dl[b].0@ by {
            assert(s[a].0@ != s[b].0@);
        }
        lemma_entries_map_update(dl, i, p);
        assert(u.drop_last() =~= dl.update(i, p));
        assert(u.last() == s.last());
        assert(s.last().0@ != p.0@);
        assert(entries_map(u) =~= entries_map(s).insert(p.0@, p.1@));
    }
}

proof fn lemma_entries_map_remove(s: Seq<(String, String)>, i: int)
    requires
        entries_unique(s),
        0 <= i < s.len(),
    ensures
        entries_unique(s.remove(i)),
        entries_map(s.remove(i)) == entries_map(s).remove(s[i].0@),
    decreases s.len(),
{
    let u = s.remove(i);
    assert forall|a: int, b: int| 0 <= a < b < u.len() implies u[a].0@ != u[b].0@ by {
        let a0 = if a < i {
            a
        } else {
            a + 1
        };
        let b0 = if b < i {
            b
        } else {
            b + 1
        };
        assert(u[a] == s[a0] && u[b] == s[b0]);
        assert(s[a0].0@ != s[b0].0@);
    }
    let dl = s.drop_last();
    if i == s.len() - 1 {
        assert(u =~= dl);
        lemma_entries_map_props(dl);
        assert forall|a: int, b: int| 0 <= a < b < dl.len() implies dl[a].0@ != dl[b].0@ by {
            assert(s[a].0@ != s[b].0@);
        }
        assert(!entries_map(dl).contains_key(s[i].0@));
        assert(entries_map(u) =~= entries_map(s).remove(s[i].0@));
    } else {
        assert forall|a: int, b: int| 0 <= a < b < dl.len() implies dl[a].0@ != dl[b].0@ by {
            assert(s[a].0@ != s[b].0@);
        }
        lemma_entries_map_remove(dl, i);
        assert(u.drop_last() =~= dl.remove(i));
        assert(u.last() == s.last());
        assert(s.last().0@ != s[i].0@);
        assert(entries_map(u) =~= entries_map(s).remove(s[i].0@));
    }
}

/// The server's key-value store. The entry list keeps one entry per key, so
/// its map view is exact.
pub struct KVStore {
    entries: Vec<(String, String)>,
}

impl View for KVStore {
    type V = Map<Seq<char>, Seq<char>>;

    closed spec fn view(&self) -> Map<Seq<char>, Seq<char>> {
        entries_map(self.entries@)
    }
}

impl KVStore {
    /// Keys are pairwise distinct.
    pub closed spec fn wf(self) -> bool {
        entries_unique(self.entries@)
    }

    /// The empty store the server starts with.
    pub fn new() -> (r: Self)
        ensures
            r.wf(),
            r@ == Map::<Seq<char>, Seq<char>>::empty(),
    {
        KVStore { entries: Vec::new() }
    }

    /// Look a key up.
    pub fn get(&self, key: &String) -> (r: Option<String>)
        requires
            self.wf(),
        ensures
            match r {
                Some(v) => self@.contains_key(key@) && v@ == self@[key@],
                None => !self@.contains_key(key@),
            },
    {
        let n = self.entries.len();
        let mut i: usize = 0;
        while i < n
            invariant
                n == self.entries@.len(),
                i <= n,
                self.wf(),
                forall|j: int| 0 <= j < i ==> self.entries@[j].0@ != key@,
            decreases n - i,
        {
            if self.entries[i].0 == *key {
                proof {
                    lemma_entries_map_props(self.entries@);
                }
                return Some(self.entries[i].1.clone());
            }
            i = i + 1;
        }
        proof {
            lemma_entries_map_props(self.entries@);
        }
        None
    }

    /// Insert a key or overwrite its value.
    pub fn set(&mut self, key: String, value: String)
        requires
            old(self).wf(),
        ensures
            final(self).wf(),
            final(self)@ == old(self)@.insert(key@, value@),
    {
        let ghost key_v = key@;
        let n = self.entries.len();
        let mut i: usize = 0;
        while i < n
            invariant
                self == old(self),
                n == self.entries@.len(),
                i <= n,
                old(self).wf(),
                forall|j: int| 0 <= j < i ==> self.entries@[j].0@ != key_v,
                key@ == key_v,
            decreases n - i,
        {
            if self.entries[i].0 == key {
                proof {
                    lemma_entries_map_update(self.entries@, i as int, (key, value));
                }
                self.entries.set(i, (key, value));
                return ;
            }
            i = i + 1;
        }
        self.entries.push((key, value));
        proof {
            assert(self.entries@.drop_last() =~= old(self).entries@);
            assert forall|a: int, b: int|
                0 <= a < b < self.entries@.len() implies self.entries@[a].0@
                != self.entries@[b].0@ by {
            }
        }
    }

    /// Remove a key; removing an absent key changes nothing.
    pub fn delete(&mut self, key: &String)
        requires
            old(self).wf(),
        ensures
            final(self).wf(),
            final(self)@ == old(self)@.remove(key@),
    {
        let n = self.entries.len();
        let mut i: usize = 0;
        while i < n
            invariant
                self == old(self),
                n == self.entries@.len(),
                i <= n,
                old(self).wf(),
                forall|j: int| 0 <= j < i ==> self.entries@[j].0@ != key@,
            decreases n - i,
        {
            if self.entries[i].0 == *key {
                proof {
                    lemma_entries_map_remove(self.entries@, i as int);
                }
                self.entries.remove(i);
                return ;
            }
            i = i + 1;
        }
        proof {
            lemma_entries_map_props(self.entries@);
            assert(!self@.contains_key(key@));
            assert(self@ =~= self@.remove(key@));
        }
    }

    /// The server's reply to a lookup: the stored value, or the sentinel.
    pub fn lookup_reply(&self, key: &String) -> (r: String)
        requires
            self.wf(),
        ensures
            r@ == spec_get_reply(self@, key@),
    {
        match self.get(key) {
            Some(v) => v,
            None => "key not found".to_owned(),
        }
    }
}

/// Effect of one decoded request on the store: an insert or a removal
/// changes the map, a lookup or a reply leaves it untouched.
pub open spec fn apply_op(m: Map<Seq<char>, Seq<char>>, op: MessageView) -> Map<
    Seq<char>,
    Seq<char>,
> {
    match op {
        MessageView::Put { key, value } => m.insert(key, value),
        MessageView::Delete { key } => m.remove(key),
        MessageView::Get { key } => m,
        MessageView::Reply { value } => m,
    }
}

/// The store after a serialized history of requests.
pub open spec fn apply_ops(m: Map<Seq<char>, Seq<char>>, ops: Seq<MessageView>) -> Map<
    Seq<char>,
    Seq<char>,
>
    decreases ops.len(),
{
    if ops.len() == 0 {
        m
    } else {
        apply_op(apply_ops(m, ops.drop_last()), ops.last())
    }
}

/// Put then Get: a lookup right after an insert of the same key returns
/// exactly the inserted value, on every store.
pub proof fn lemma_put_then_get(m: Map<Seq<char>, Seq<char>>, k: Seq<char>, v: Seq<char>)
    ensures
        spec_get_reply(m.insert(k, v), k) == v,
{
}

/// Delete then Get: a lookup right after a removal of the same key returns
/// the sentinel, on every store.
pub proof fn lemma_delete_then_get(m: Map<Seq<char>, Seq<char>>, k: Seq<char>)
    ensures
        spec_get_reply(m.remove(k), k) == spec_sentinel(),
{
}

/// A lookup on the empty store returns the sentinel, for every key.
pub proof fn lemma_get_on_empty(k: Seq<char>)
    ensures
        spec_get_reply(Map::<Seq<char>, Seq<char>>::empty(), k) == spec_sentinel(),
{
}

/// Requests that run one after the other never mix their writes: after any
/// serialized history, a lookup observes the whole value of some single
/// insert in the history, or the initial value of the key, or the sentinel —
/// never part of one write and part of another.
pub proof fn lemma_serialized_history(
    m: Map<Seq<char>, Seq<char>>,
    ops: Seq<MessageView>,
    k: Seq<char>,
)
    ensures
        ({
            let r = spec_get_reply(apply_ops(m, ops), k);
            r == spec_sentinel() || (exists|i: int|
                0 <= i < ops.len() && ops[i] == (MessageView::Put { key: k, value: r })) || (
            m.contains_key(k) && m[k] == r)
        }),
    decreases ops.len(),
{
    if ops.len() > 0 {
        let dl = ops.drop_last();
        lemma_serialized_history(m, dl, k);
        let r0 = spec_get_reply(apply_ops(m, dl), k);
        let r = spec_get_reply(apply_ops(m, ops), k);
        match ops.last() {
            MessageView::Put { key, value } => {
                if key == k {
                    assert(ops[ops.len() - 1] == (MessageView::Put { key: k, value: r }));
                } else {
                    assert(r == r0);
                    if r0 != spec_sentinel() && !(m.contains_key(k) && m[k] == r0) {
                        let i = choose|i: int|
                            0 <= i < dl.len() && dl[i] == (MessageView::Put {
                                key: k,
                                value: r0,
                            });
                        assert(ops[i] == (MessageView::Put { key: k, value: r }));
                    }
                }
            },
            MessageView::Delete { key } => {
                if key == k {
                } else {
                    assert(r == r0);
                    if r0 != spec_sentinel() && !(m.contains_key(k) && m[k] == r0) {
                        let i = choose|i: int|
                            0 <= i < dl.len() && dl[i] == (MessageView::Put {
                                key: k,
                                value: r0,
                            });
                        assert(ops[i] == (MessageView::Put { key: k, value: r }));
                    }
                }
            },
            MessageView::Get { key } => {
                assert(r == r0);
                if r0 != spec_sentinel() && !(m.contains_key(k) && m[k] == r0) {
                    let i = choose|i: int|
                        0 <= i < dl.len() && dl[i] == (MessageView::Put { key: k, value: r0 });
                    assert(ops[i] == (MessageView::Put { key: k, value: r }));
                }
            },
            MessageView::Reply { value } => {
                assert(r == r0);
                if r0 != spec_sentinel() && !(m.contains_key(k) && m[k] == r0) {
                    let i = choose|i: int|
                        0 <= i < dl.len() && dl[i] == (MessageView::Put { key: k, value: r0 });
                    assert(ops[i] == (MessageView::Put { key: k, value: r }));
                }
            },
        }
    }
}

} // verus!
