//! The crawlers that a server runs, each under a numeric id.
use vstd::prelude::*;
use std::collections::HashMap;
use crate::crawler::{visited_keys, CoordinatorEvent, Crawler, CrawlerView, Discovery};
use crate::errors::BfError;
use crate::link::Link;
use vstd::std_specs::iter::IteratorSpec;

verus! {

broadcast use vstd::std_specs::hash::group_hash_axioms;

/// Crawlers by id.
pub struct Flock {
    crawlers: HashMap<u32, Crawler>,
}

impl View for Flock {
    type V = Map<u32, CrawlerView>;

    closed spec fn view(&self) -> Map<u32, CrawlerView> {
        self.crawlers@.map_values(|c: Crawler| c@)
    }
}

impl Flock {
    /// Every registered crawler is well formed.
    #[verifier::type_invariant]
    pub open spec fn inv(self) -> bool {
        forall|id: u32| #[trigger] self@.contains_key(id) ==> self@[id].wf()
    }

    /// A flock without crawlers.
    pub fn new() -> (r: Flock)
        ensures
            r@ == Map::<u32, CrawlerView>::empty(),
    {
        let r = Flock { crawlers: HashMap::new() };
        assert(r@ =~= Map::<u32, CrawlerView>::empty());
        r
    }

    /// Registers `crawler` under `id`, in place of any crawler registered
    /// there before.
    pub fn register(&mut self, id: u32, crawler: Crawler)
        requires
            crawler@.wf(),
        ensures
            final(self)@ == old(self)@.insert(id, crawler@),
    {
        proof {
            use_type_invariant(&*self);
        }
        let ghost v = crawler@;
        let mut crawlers = HashMap::new();
        std::mem::swap(&mut crawlers, &mut self.crawlers);
        crawlers.insert(id, crawler);
        assert(crawlers@.map_values(|c: Crawler| c@) =~= old(self)@.insert(id, v));
        assert forall|k: u32| #[trigger] crawlers@.contains_key(k) implies crawlers@[k]@.wf() by {
            assert(crawlers@.map_values(|c: Crawler| c@)[k] == crawlers@[k]@);
            if k != id {
                assert(old(self)@.contains_key(k));
            }
        }
        self.crawlers = crawlers;
        assert(self@ =~= old(self)@.insert(id, v));
    }

    /// The crawler registered under `id`.
    pub fn get(&self, id: u32) -> (r: Option<&Crawler>)
        ensures
            r is None <==> !self@.contains_key(id),
            r matches Some(c) ==> c@ == self@[id],
    {
        self.crawlers.get(&id)
    }

    /// Number of pages recorded by the crawler registered under `id`, or
    /// the error that no crawler is registered there.
    pub fn num_visited(&self, id: u32) -> (r: Result<usize, BfError>)
        ensures
            self@.contains_key(id) ==> (r matches Ok(n) && n == self@[id].visited.len()),
            !self@.contains_key(id) ==> (r matches Err(BfError::DomainNotRegistered(i)) && i == id),
    {
        match self.crawlers.get(&id) {
            Some(c) => Ok(c.visited_len()),
            None => Err(BfError::DomainNotRegistered(id)),
        }
    }

    /// The pages recorded by the crawler registered under `id`, or the error
    /// that no crawler is registered there.
    pub fn visited(&self, id: u32) -> (r: Result<Vec<String>, BfError>)
        ensures
            self@.contains_key(id) ==> (r matches Ok(v) && v@.map_values(|s: String| s@)
                == visited_keys(self@[id].visited) && v@.map_values(|s: String| s@).no_duplicates()),
            !self@.contains_key(id) ==> (r matches Err(BfError::DomainNotRegistered(i)) && i == id),
    {
        proof {
            use_type_invariant(self);
        }
        match self.crawlers.get(&id) {
            Some(c) => Ok(c.visited_strings()),
            None => Err(BfError::DomainNotRegistered(id)),
        }
    }

    /// Hands `url`, found at `depth`, to the crawler registered under `id`
    /// (see [`Crawler::on_discovered`]); `None`, with nothing changed, where
    /// no crawler is registered there.
    pub fn on_discovered(&mut self, id: u32, depth: usize, url: &Link) -> (r: Option<Discovery>)
        ensures
            !old(self)@.contains_key(id) ==> r is None && final(self)@ == old(self)@,
            old(self)@.contains_key(id) ==> r == Some(
                old(self)@[id].discovery(depth as int, url@),
            ) && final(self)@ == old(self)@.insert(
                id,
                old(self)@[id].after_discovery(depth as int, url@),
            ),
    {
        proof {
            use_type_invariant(&*self);
        }
        let mut crawlers = HashMap::new();
        std::mem::swap(&mut crawlers, &mut self.crawlers);
        let ghost before = crawlers@;
        assert(before.map_values(|c: Crawler| c@) =~= old(self)@);
        match crawlers.remove(&id) {
            Some(mut c) => {
                let d = c.on_discovered(depth, url);
                let ghost v = c@;
                crawlers.insert(id, c);
                assert(crawlers@.map_values(|c: Crawler| c@) =~= old(self)@.insert(id, v));
                assert forall|k: u32| #[trigger] crawlers@.contains_key(k) implies crawlers@[k]@.wf() by {
                    assert(crawlers@.map_values(|c: Crawler| c@)[k] == crawlers@[k]@);
                    assert(old(self)@.contains_key(k));
                }
                self.crawlers = crawlers;
                assert(self@ =~= old(self)@.insert(id, v));
                Some(d)
            },
            None => {
                assert(crawlers@.map_values(|c: Crawler| c@) =~= old(self)@);
                assert forall|k: u32| #[trigger] crawlers@.contains_key(k) implies crawlers@[k]@.wf() by {
                    assert(crawlers@.map_values(|c: Crawler| c@)[k] == crawlers@[k]@);
                    assert(old(self)@.contains_key(k));
                }
                self.crawlers = crawlers;
                assert(self@ =~= old(self)@);
                None
            },
        }
    }

    /// Hands to the crawler registered under `id` that its coordinator found
    /// no link waiting (see [`Crawler::on_idle`]); `None`, with nothing
    /// changed, where no crawler is registered there.
    pub fn on_idle(&mut self, id: u32, jobs_waiting: usize, links_waiting: usize, idle_workers: usize) -> (r:
        Option<bool>)
        ensures
            !old(self)@.contains_key(id) ==> r is None && final(self)@ == old(self)@,
            old(self)@.contains_key(id) ==> r == Some(
                jobs_waiting == 0 && links_waiting == 0 && idle_workers
                    == old(self)@[id].num_fetchers,
            ) && final(self)@ == old(self)@.insert(
                id,
                old(self)@[id].step(
                    CoordinatorEvent::Idle {
                        jobs_waiting: jobs_waiting as nat,
                        links_waiting: links_waiting as nat,
                        idle_workers: idle_workers as nat,
                    },
                ),
            ),
    {
        proof {
            use_type_invariant(&*self);
        }
        let mut crawlers = HashMap::new();
        std::mem::swap(&mut crawlers, &mut self.crawlers);
        let ghost before = crawlers@;
        assert(before.map_values(|c: Crawler| c@) =~= old(self)@);
        match crawlers.remove(&id) {
            Some(mut c) => {
                let done = c.on_idle(jobs_waiting, links_waiting, idle_workers);
                let ghost v = c@;
                crawlers.insert(id, c);
                assert(crawlers@.map_values(|c: Crawler| c@) =~= old(self)@.insert(id, v));
                assert forall|k: u32| #[trigger] crawlers@.contains_key(k) implies crawlers@[k]@.wf() by {
                    assert(crawlers@.map_values(|c: Crawler| c@)[k] == crawlers@[k]@);
                    assert(old(self)@.contains_key(k));
                }
                self.crawlers = crawlers;
                assert(self@ =~= old(self)@.insert(id, v));
                Some(done)
            },
            None => {
                assert(crawlers@.map_values(|c: Crawler| c@) =~= old(self)@);
                assert forall|k: u32| #[trigger] crawlers@.contains_key(k) implies crawlers@[k]@.wf() by {
                    assert(crawlers@.map_values(|c: Crawler| c@)[k] == crawlers@[k]@);
                    assert(old(self)@.contains_key(k));
                }
                self.crawlers = crawlers;
                assert(self@ =~= old(self)@);
                None
            },
        }
    }

    /// Hands to the crawler registered under `id` that a page could not be
    /// handed to its workers (see [`Crawler::on_dispatch_failed`]); `None`,
    /// with nothing changed, where no crawler is registered there.
    pub fn on_dispatch_failed(&mut self, id: u32) -> (r: Option<()>)
        ensures
            !old(self)@.contains_key(id) ==> r is None && final(self)@ == old(self)@,
            old(self)@.contains_key(id) ==> r is Some && final(self)@ == old(self)@.insert(
                id,
                old(self)@[id].step(CoordinatorEvent::DispatchFailed),
            ),
    {
        proof {
            use_type_invariant(&*self);
        }
        let mut crawlers = HashMap::new();
        std::mem::swap(&mut crawlers, &mut self.crawlers);
        let ghost before = crawlers@;
        assert(before.map_values(|c: Crawler| c@) =~= old(self)@);
        match crawlers.remove(&id) {
            Some(mut c) => {
                c.on_dispatch_failed();
                let ghost v = c@;
                crawlers.insert(id, c);
                assert(crawlers@.map_values(|c: Crawler| c@) =~= old(self)@.insert(id, v));
                assert forall|k: u32| #[trigger] crawlers@.contains_key(k) implies crawlers@[k]@.wf() by {
                    assert(crawlers@.map_values(|c: Crawler| c@)[k] == crawlers@[k]@);
                    assert(old(self)@.contains_key(k));
                }
                self.crawlers = crawlers;
                assert(self@ =~= old(self)@.insert(id, v));
                Some(())
            },
            None => {
                assert(crawlers@.map_values(|c: Crawler| c@) =~= old(self)@);
                assert forall|k: u32| #[trigger] crawlers@.contains_key(k) implies crawlers@[k]@.wf() by {
                    assert(crawlers@.map_values(|c: Crawler| c@)[k] == crawlers@[k]@);
                    assert(old(self)@.contains_key(k));
                }
                self.crawlers = crawlers;
                assert(self@ =~= old(self)@);
                None
            },
        }
    }

    /// The ids of the registered crawlers, each once, in no particular order.
    pub fn ids(&self) -> (r: Vec<u32>)
        ensures
            r@.no_duplicates(),
            r@.to_set() == self@.dom(),
    {
        let mut out: Vec<u32> = Vec::new();
        let ghost keys = vstd::std_specs::hash::spec_keys_iter(&self.crawlers).remaining();
        for id in it: self.crawlers.keys()
            invariant
                it.seq() == keys,
                out@ == it.seq().take(it.index() as int).map_values(|k: &u32| *k),
        {
            proof {
                assert(it.seq().take(it.index() + 1).drop_last() =~= it.seq().take(it.index() as int));
            }
            out.push(*id);
        }
        proof {
            assert(self@.dom() =~= self.crawlers@.dom());
            assert(out@ =~= keys.unref());
        }
        out
    }

    /// The domain of each registered crawler, by id: each registered id
    /// once, in no particular order.
    pub fn domains(&self) -> (r: Vec<(u32, String)>)
        ensures
            r@.map_values(|p: (u32, String)| p.0).no_duplicates(),
            r@.map_values(|p: (u32, String)| p.0).to_set() == self@.dom(),
            forall|i: int|
                0 <= i < r@.len() ==> self@.contains_key(#[trigger] r@[i].0) && r@[i].1@ == self@[r@[i].0].domain,
    {
        let ids = self.ids();
        let mut out: Vec<(u32, String)> = Vec::new();
        let n = ids.len();
        for i in 0..n
            invariant
                n == ids@.len(),
                ids@.to_set() == self@.dom(),
                out@.len() == i,
                forall|j: int| 0 <= j < i ==> #[trigger] out@[j].0 == ids@[j],
                forall|j: int|
                    0 <= j < i ==> self@.contains_key(#[trigger] out@[j].0) && out@[j].1@
                        == self@[out@[j].0].domain,
        {
            let id = ids[i];
            assert(ids@.to_set().contains(ids@[i as int]));
            match self.crawlers.get(&id) {
                Some(c) => {
                    out.push((id, c.domain_name().clone()));
                },
                None => {
                    assert(false);
                },
            }
        }
        assert(out@.map_values(|p: (u32, String)| p.0) =~= ids@);
        out
    }
}

} // verus!
