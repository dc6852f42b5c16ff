use crate::errors::PolyfillError;
use crate::table::{
    has_key, keyed, keys_distinct, lemma_keyed_at, lemma_keyed_push, lemma_keyed_size,
    lemma_keyed_update, place,
};
use crate::text::{copy_names, names, same_text};
use vstd::prelude::*;

verus! {

/// What the cache knows of one host.
pub struct DnsRecord {
    /// The addresses the host resolved to, as text.
    pub addresses: Seq<Seq<char>>,
    /// When it was resolved, in milliseconds.
    pub resolved_at: u64,
    /// How long the resolution stands, in milliseconds.
    pub ttl_ms: u64,
}

impl DnsRecord {
    /// The record still stands at `now`: less than its time to live has
    /// passed since the host was resolved.
    pub open spec fn is_fresh(self, now: u64) -> bool {
        now < self.resolved_at || now - self.resolved_at < self.ttl_ms
    }
}

#[derive(Debug)]
struct DnsEntry {
    host: String,
    addresses: Vec<String>,
    resolved_at: u64,
    ttl_ms: u64,
}

spec fn entry_key() -> spec_fn(DnsEntry) -> Seq<char> {
    |e: DnsEntry| e.host@
}

spec fn entry_record() -> spec_fn(DnsEntry) -> DnsRecord {
    |e: DnsEntry|
        DnsRecord { addresses: names(e.addresses@), resolved_at: e.resolved_at, ttl_ms: e.ttl_ms }
}

/// Resolved addresses by hostname, each with a time to live. A record past
/// its time is not used and not removed either: it stays until the host is
/// resolved again, which the caller does when a lookup finds nothing.
#[derive(Debug)]
pub struct DnsCache {
    entries: Vec<DnsEntry>,
    ttl_ms: u64,
}

impl View for DnsCache {
    type V = Map<Seq<char>, DnsRecord>;

    closed spec fn view(&self) -> Map<Seq<char>, DnsRecord> {
        keyed(self.entries@, entry_key(), entry_record())
    }
}

impl DnsCache {
    /// The time to live that new records get.
    pub closed spec fn ttl(&self) -> u64 {
        self.ttl_ms
    }

    /// The cache's invariant: one record for each host.
    pub closed spec fn wf(&self) -> bool {
        keys_distinct(self.entries@, entry_key())
    }

    /// An empty cache whose records stand for `ttl_ms` milliseconds, or the
    /// configuration fault where that is nought.
    pub fn new(ttl_ms: u64) -> (r: Result<DnsCache, PolyfillError>)
        ensures
            r is Ok <==> ttl_ms > 0,
            r is Ok ==> r->Ok_0.wf() && r->Ok_0.ttl() == ttl_ms && r->Ok_0@ == Map::<
                Seq<char>,
                DnsRecord,
            >::empty(),
            r is Err ==> r->Err_0 == PolyfillError::Configuration,
    {
        if ttl_ms == 0 {
            return Err(PolyfillError::Configuration);
        }
        let cache = DnsCache { entries: Vec::new(), ttl_ms };
        assert(cache@ =~= Map::<Seq<char>, DnsRecord>::empty());
        Ok(cache)
    }

    fn find(&self, host: &str) -> (r: Option<usize>)
        requires
            self.wf(),
        ensures
            r is Some <==> self@.contains_key(host@),
            r is Some ==> r->Some_0 < self.entries@.len() && self.entries@[r->Some_0 as int].host@
                == host@,
    {
        let n: usize = self.entries.len();
        let mut i: usize = 0;
        while i < n
            invariant
                i <= n,
                n == self.entries@.len(),
                forall|j: int| 0 <= j < i ==> (#[trigger] self.entries@[j]).host@ != host@,
            decreases n - i,
        {
            if same_text(self.entries[i].host.as_str(), host) {
                assert(has_key(self.entries@, entry_key(), host@)) by {
                    assert(entry_key()(self.entries@[i as int]) == host@);
                }
                return Some(i);
            }
            i += 1;
        }
        proof {
            if has_key(self.entries@, entry_key(), host@) {
                let p = place(self.entries@, entry_key(), host@);
                assert(self.entries@[p].host@ != host@);
            }
        }
        None
    }

    /// The addresses of a host, where the cache has a record of it that
    /// still stands at `now`. Nothing otherwise: the host is then to be
    /// resolved and the result stored.
    pub fn lookup(&self, host: &str, now: u64) -> (r: Option<Vec<String>>)
        requires
            self.wf(),
        ensures
            r is Some <==> self@.contains_key(host@) && self@[host@].is_fresh(now),
            r is Some ==> names(r->Some_0@) == self@[host@].addresses,
    {
        match self.find(host) {
            None => None,
            Some(i) => {
                proof {
                    lemma_keyed_at(self.entries@, entry_key(), entry_record(), i as int);
                }
                let entry: &DnsEntry = &self.entries[i];
                if now < entry.resolved_at || now - entry.resolved_at < entry.ttl_ms {
                    Some(copy_names(&entry.addresses))
                } else {
                    None
                }
            },
        }
    }

    /// Stores what a host resolved to at `now`, in place of what the cache
    /// had for it. No other record changes.
    pub fn insert(&mut self, host: &str, addresses: Vec<String>, now: u64)
        requires
            old(self).wf(),
        ensures
            final(self).wf(),
            final(self).ttl() == old(self).ttl(),
            final(self)@ == old(self)@.insert(
                host@,
                DnsRecord { addresses: names(addresses@), resolved_at: now, ttl_ms: old(self).ttl() },
            ),
    {
        let entry = DnsEntry {
            host: host.to_owned(),
            addresses,
            resolved_at: now,
            ttl_ms: self.ttl_ms,
        };
        match self.find(host) {
            Some(i) => {
                proof {
                    lemma_keyed_update(self.entries@, entry_key(), entry_record(), i as int, entry);
                }
                self.entries[i] = entry;
            },
            None => {
                proof {
                    lemma_keyed_push(self.entries@, entry_key(), entry_record(), entry);
                }
                self.entries.push(entry);
            },
        }
    }

    /// The number of hosts that have a record, fresh or not.
    pub fn len(&self) -> (r: usize)
        requires
            self.wf(),
        ensures
            r == self@.dom().len(),
            self@.dom().finite(),
    {
        proof {
            lemma_keyed_size(self.entries@, entry_key(), entry_record());
        }
        self.entries.len()
    }
}

} // verus!
