//! The connection cache: a mapping from host name to an idle transport
//! stream, with at most one entry per host.  An entry is removed on
//! lookup, so a stream in flight has exactly one owner, and reinserted
//! only once its response has been fully drained.

use crate::chars::str_eq;
use vstd::prelude::*;

verus! {

/// The mapping that an entry list represents: later entries win.
pub open spec fn assoc_map<S>(entries: Seq<(String, S)>) -> Map<Seq<char>, S>
    decreases entries.len(),
{
    if entries.len() == 0 {
        Map::empty()
    } else {
        assoc_map(entries.drop_last()).insert(entries.last().0@, entries.last().1)
    }
}

/// No two entries name the same host.
pub open spec fn distinct_hosts<S>(entries: Seq<(String, S)>) -> bool {
    forall|i: int, j: int| 0 <= i < j < entries.len() ==> entries[i].0@ != entries[j].0@
}

/// A host stands in the represented mapping exactly when some entry
/// names it.
proof fn lemma_assoc_contains<S>(entries: Seq<(String, S)>, host: Seq<char>)
    ensures
        assoc_map(entries).contains_key(host) <==> exists|i: int|
            0 <= i < entries.len() && entries[i].0@ == host,
    decreases entries.len(),
{
    if entries.len() > 0 {
        lemma_assoc_contains(entries.drop_last(), host);
        if entries.last().0@ != host && assoc_map(entries).contains_key(host) {
            let i = choose|i: int| 0 <= i < entries.drop_last().len() && entries.drop_last()[i].0@
                == host;
            assert(entries[i].0@ == host);
        }
        if exists|i: int| 0 <= i < entries.len() && entries[i].0@ == host {
            let i = choose|i: int| 0 <= i < entries.len() && entries[i].0@ == host;
            if i < entries.len() - 1 {
                assert(entries.drop_last()[i].0@ == host);
            }
        }
    }
}

/// With distinct hosts, the entry for a host gives its mapped stream.
proof fn lemma_assoc_index<S>(entries: Seq<(String, S)>, i: int)
    requires
        distinct_hosts(entries),
        0 <= i < entries.len(),
    ensures
        assoc_map(entries).contains_key(entries[i].0@),
        assoc_map(entries)[entries[i].0@] == entries[i].1,
    decreases entries.len(),
{
    if i == entries.len() - 1 {
    } else {
        assert(entries.drop_last()[i] == entries[i]);
        lemma_assoc_index(entries.drop_last(), i);
        assert(entries.last().0@ != entries[i].0@);
    }
}

/// With distinct hosts, removing the entry at `i` removes exactly its
/// host from the represented mapping.
proof fn lemma_assoc_remove<S>(entries: Seq<(String, S)>, i: int)
    requires
        distinct_hosts(entries),
        0 <= i < entries.len(),
    ensures
        assoc_map(entries.remove(i)) == assoc_map(entries).remove(entries[i].0@),
    decreases entries.len(),
{
    let host = entries[i].0@;
    if i == entries.len() - 1 {
        assert(entries.remove(i) =~= entries.drop_last());
        lemma_assoc_contains(entries.drop_last(), host);
        assert forall|j: int| 0 <= j < entries.drop_last().len() implies entries.drop_last()[j].0@
            != host by {
            assert(entries[j].0@ != host);
        }
        assert(!assoc_map(entries.drop_last()).contains_key(host));
        assert(assoc_map(entries.drop_last()) =~= assoc_map(entries).remove(host));
    } else {
        let e = entries.remove(i);
        assert(e.drop_last() =~= entries.drop_last().remove(i));
        assert(e.last() == entries.last());
        assert forall|a: int, b: int|
            0 <= a < b < entries.drop_last().len() implies entries.drop_last()[a].0@
            != entries.drop_last()[b].0@ by {
            assert(entries[a].0@ != entries[b].0@);
        }
        lemma_assoc_remove(entries.drop_last(), i);
        assert(entries.drop_last()[i] == entries[i]);
        assert(entries.last().0@ != host);
        assert(assoc_map(e) =~= assoc_map(entries).remove(host));
    }
}

/// With distinct hosts, the represented mapping has one key per entry.
proof fn lemma_assoc_len<S>(entries: Seq<(String, S)>)
    requires
        distinct_hosts(entries),
    ensures
        assoc_map(entries).dom().finite(),
        assoc_map(entries).len() == entries.len(),
    decreases entries.len(),
{
    if entries.len() > 0 {
        assert forall|a: int, b: int|
            0 <= a < b < entries.drop_last().len() implies entries.drop_last()[a].0@
            != entries.drop_last()[b].0@ by {
            assert(entries[a].0@ != entries[b].0@);
        }
        lemma_assoc_len(entries.drop_last());
        lemma_assoc_contains(entries.drop_last(), entries.last().0@);
        assert forall|j: int| 0 <= j < entries.drop_last().len() implies entries.drop_last()[j].0@
            != entries.last().0@ by {
            assert(entries[j].0@ != entries.last().0@);
        }
        assert(!assoc_map(entries.drop_last()).contains_key(entries.last().0@));
    }
}

/// A host-keyed store of reusable transport streams.  Its view is the
/// mapping from host name to the stream held for it.
pub struct ConnectionCache<S> {
    entries: Vec<(String, S)>,
}

impl<S> View for ConnectionCache<S> {
    type V = Map<Seq<char>, S>;

    closed spec fn view(&self) -> Map<Seq<char>, S> {
        assoc_map(self.entries@)
    }
}

impl<S> ConnectionCache<S> {
    /// The cache's internal invariant: no two entries name the same
    /// host.  Constructors establish it and every method preserves it.
    pub closed spec fn wf(&self) -> bool {
        distinct_hosts(self.entries@)
    }

    /// An empty cache.
    pub fn new() -> (cache: Self)
        ensures
            cache.wf(),
            cache@ == Map::<Seq<char>, S>::empty(),
    {
        let entries: Vec<(String, S)> = Vec::new();
        proof {
            assert(assoc_map(entries@) =~= Map::<Seq<char>, S>::empty());
        }
        ConnectionCache { entries }
    }

    /// The position of the entry for `host`, if one is present.
    fn find(&self, host: &str) -> (r: Option<usize>)
        ensures
            match r {
                Some(i) => i < self.entries@.len() && self.entries@[i as int].0@ == host@,
                None => forall|i: int|
                    0 <= i < self.entries@.len() ==> self.entries@[i].0@ != host@,
            },
    {
        let mut i: usize = 0;
        while i < self.entries.len()
            invariant
                i <= self.entries@.len(),
                forall|k: int| 0 <= k < i ==> self.entries@[k].0@ != host@,
            decreases self.entries.len() - i,
        {
            if str_eq(self.entries[i].0.as_str(), host) {
                return Some(i);
            }
            i = i + 1;
        }
        None
    }

    /// Removes and returns the cached stream for `host`, if one is
    /// present; the entry leaves the cache, so the stream has a single
    /// owner while it is in use.
    pub fn acquire(&mut self, host: &str) -> (r: Option<S>)
        requires
            old(self).wf(),
        ensures
            final(self).wf(),
            old(self)@.contains_key(host@) ==> r is Some && r->Some_0 == old(self)@[host@]
                && final(self)@ == old(self)@.remove(host@),
            !old(self)@.contains_key(host@) ==> r is None && final(self)@ == old(self)@,
            !final(self)@.contains_key(host@),
    {
        proof {
            lemma_assoc_contains(self.entries@, host@);
        }
        match self.find(host) {
            Some(i) => {
                proof {
                    lemma_assoc_index(self.entries@, i as int);
                    lemma_assoc_remove(self.entries@, i as int);
                }
                let ghost prev = self.entries@;
                let (_, s) = self.entries.remove(i);
                proof {
                    assert forall|a: int, b: int|
                        0 <= a < b < self.entries@.len() implies self.entries@[a].0@
                        != self.entries@[b].0@ by {
                        assert(self.entries@[a] == if a < i { prev[a] } else { prev[a + 1] });
                        assert(self.entries@[b] == if b < i { prev[b] } else { prev[b + 1] });
                    }
                    lemma_assoc_contains(self.entries@, host@);
                    assert forall|k: int| 0 <= k < self.entries@.len() implies self.entries@[k].0@
                        != host@ by {
                        if k < i {
                            assert(self.entries@[k] == prev[k]);
                        } else {
                            assert(self.entries@[k] == prev[k + 1]);
                        }
                    }
                }
                Some(s)
            },
            None => {
                proof {
                    lemma_assoc_contains(self.entries@, host@);
                }
                None
            },
        }
    }

    /// Inserts the stream as the cached entry for `host`, replacing any
    /// stale entry for the same host.
    pub fn release(&mut self, host: String, stream: S)
        requires
            old(self).wf(),
        ensures
            final(self).wf(),
            final(self)@ == old(self)@.insert(host@, stream),
    {
        let _ = self.acquire(host.as_str());
        proof {
            lemma_assoc_contains(self.entries@, host@);
        }
        let ghost mid = self.entries@;
        self.entries.push((host, stream));
        proof {
            assert(forall|k: int| 0 <= k < mid.len() ==> mid[k].0@ != host@);
            assert forall|a: int, b: int|
                0 <= a < b < self.entries@.len() implies self.entries@[a].0@
                != self.entries@[b].0@ by {
                if b < mid.len() {
                    assert(self.entries@[a] == mid[a] && self.entries@[b] == mid[b]);
                } else {
                    assert(self.entries@[a] == mid[a]);
                    assert(self.entries@[b].0@ == host@);
                }
            }
            assert(self.entries@.drop_last() =~= mid);
            assert(self@ =~= old(self)@.insert(host@, stream));
        }
    }

    /// Whether an idle stream is cached for `host`.
    pub fn contains_host(&self, host: &str) -> (r: bool)
        ensures
            r == self@.contains_key(host@),
    {
        proof {
            lemma_assoc_contains(self.entries@, host@);
        }
        match self.find(host) {
            Some(i) => {
                proof {
                    assert(exists|k: int|
                        0 <= k < self.entries@.len() && self.entries@[k].0@ == host@);
                }
                true
            },
            None => false,
        }
    }

    /// The number of hosts with a cached stream.
    pub fn len(&self) -> (r: usize)
        requires
            self.wf(),
        ensures
            r == self@.len(),
    {
        proof {
            lemma_assoc_len(self.entries@);
        }
        self.entries.len()
    }
}

/// Law: after a stream is released for a host, acquiring that host
/// returns exactly that stream; and because acquisition removes the
/// entry, a second acquisition without an intervening release finds
/// nothing and must construct a new connection.  The maps are the cache
/// views that `release` and `acquire` promise.
pub proof fn lemma_release_then_acquire<S>(m: Map<Seq<char>, S>, host: Seq<char>, stream: S)
    ensures
        m.insert(host, stream).contains_key(host),
        m.insert(host, stream)[host] == stream,
        !m.insert(host, stream).remove(host).contains_key(host),
{
}

} // verus!
