//! The pending queue: a bounded, deduplicating, order-preserving buffer of
//! validated deep links, filled by the activation path and drained atomically
//! once a user-interface listener is ready.

use vstd::prelude::*;
use crate::links::{contains_string, distinct_seqs, is_valid_external_link, valid_link};

verus! {

/// Most links the queue holds at once; beyond this the oldest entries are
/// evicted.
pub const MAX_PENDING_EXTERNAL_LINKS: usize = 100;

/// Payload shape for delivering pending links to a user-interface listener:
/// a single field carrying the ordered link strings.
#[derive(Clone)]
pub struct ExternalOpenUrlEventPayload {
    pub urls: Vec<String>,
}

/// Well-formed queue contents: within the capacity bound, only valid links,
/// and no duplicates.
pub open spec fn wf_links(q: Seq<Seq<char>>) -> bool {
    &&& q.len() <= MAX_PENDING_EXTERNAL_LINKS
    &&& forall|i: int| 0 <= i < q.len() ==> valid_link(#[trigger] q[i])
    &&& distinct_seqs(q)
}

/// One url folded into the queue contents: dropped if invalid or already
/// present, otherwise appended, with the oldest entries evicted so that at
/// most `MAX_PENDING_EXTERNAL_LINKS` remain.
pub open spec fn enqueue_one_spec(q: Seq<Seq<char>>, url: Seq<char>) -> Seq<Seq<char>> {
    if !valid_link(url) {
        q
    } else if q.contains(url) {
        q
    } else {
        let grown = q.push(url);
        if grown.len() > MAX_PENDING_EXTERNAL_LINKS {
            grown.subrange(grown.len() - MAX_PENDING_EXTERNAL_LINKS, grown.len() as int)
        } else {
            grown
        }
    }
}

/// A whole url sequence folded into the queue contents, in order.
pub open spec fn enqueue_all_spec(q: Seq<Seq<char>>, urls: Seq<Seq<char>>) -> Seq<Seq<char>>
    decreases urls.len(),
{
    if urls.len() == 0 {
        q
    } else {
        enqueue_all_spec(enqueue_one_spec(q, urls.first()), urls.drop_first())
    }
}

/// Folding one more url at the back equals folding the rest first.
pub proof fn lemma_enqueue_all_push(q: Seq<Seq<char>>, urls: Seq<Seq<char>>, u: Seq<char>)
    ensures
        enqueue_all_spec(q, urls.push(u)) == enqueue_one_spec(enqueue_all_spec(q, urls), u),
    decreases urls.len(),
{
    if urls.len() == 0 {
        let pushed = urls.push(u);
        assert(pushed.drop_first() =~= urls);
        assert(pushed.first() == u);
        assert(enqueue_all_spec(q, pushed) == enqueue_all_spec(
            enqueue_one_spec(q, u),
            pushed.drop_first(),
        ));
        assert(enqueue_all_spec(enqueue_one_spec(q, u), urls) == enqueue_one_spec(q, u));
    } else {
        assert(urls.push(u).first() == urls.first());
        assert(urls.push(u).drop_first() =~= urls.drop_first().push(u));
        lemma_enqueue_all_push(enqueue_one_spec(q, urls.first()), urls.drop_first(), u);
    }
}

/// Enqueueing one url preserves well-formedness.
pub proof fn lemma_enqueue_one_wf(q: Seq<Seq<char>>, url: Seq<char>)
    requires
        wf_links(q),
    ensures
        wf_links(enqueue_one_spec(q, url)),
{
    if valid_link(url) && !q.contains(url) {
        let grown = q.push(url);
        assert(forall|i: int| 0 <= i < q.len() ==> q[i] != url);
        if grown.len() > MAX_PENDING_EXTERNAL_LINKS {
            let kept = grown.subrange(
                grown.len() - MAX_PENDING_EXTERNAL_LINKS,
                grown.len() as int,
            );
            assert(forall|i: int|
                0 <= i < kept.len() ==> kept[i] == grown[i + grown.len()
                    - MAX_PENDING_EXTERNAL_LINKS]);
        }
    }
}

/// Enqueueing any url sequence preserves well-formedness.
pub proof fn lemma_enqueue_all_wf(q: Seq<Seq<char>>, urls: Seq<Seq<char>>)
    requires
        wf_links(q),
    ensures
        wf_links(enqueue_all_spec(q, urls)),
    decreases urls.len(),
{
    if urls.len() > 0 {
        lemma_enqueue_one_wf(q, urls.first());
        lemma_enqueue_all_wf(enqueue_one_spec(q, urls.first()), urls.drop_first());
    }
}

/// Enqueueing never shrinks a queue within its capacity bound, nor grows it
/// beyond: eviction only trims the excess above the bound.
pub proof fn lemma_enqueue_one_size(q: Seq<Seq<char>>, url: Seq<char>)
    requires
        q.len() <= MAX_PENDING_EXTERNAL_LINKS,
    ensures
        enqueue_one_spec(q, url).len() >= q.len(),
        enqueue_one_spec(q, url).len() <= MAX_PENDING_EXTERNAL_LINKS,
{
}

/// Enqueueing a link already present leaves the queue unchanged.
pub proof fn lemma_enqueue_present_noop(q: Seq<Seq<char>>, url: Seq<char>)
    requires
        q.contains(url),
    ensures
        enqueue_one_spec(q, url) == q,
{
}

/// Round trip: a valid link is among the queue contents right after it is
/// enqueued, so a following drain returns it verbatim (unless a later
/// overflow evicts it first).
pub proof fn lemma_enqueue_round_trip(q: Seq<Seq<char>>, url: Seq<char>)
    requires
        valid_link(url),
    ensures
        enqueue_one_spec(q, url).contains(url),
{
    if !q.contains(url) {
        let out = enqueue_one_spec(q, url);
        assert(out[out.len() - 1] == url);
    }
}

/// Overflow: at capacity, a novel valid link evicts exactly the oldest entry
/// and enters at the back; relative order of the rest is kept.
pub proof fn lemma_enqueue_overflow(q: Seq<Seq<char>>, url: Seq<char>)
    requires
        valid_link(url),
        !q.contains(url),
        q.len() == MAX_PENDING_EXTERNAL_LINKS,
    ensures
        enqueue_one_spec(q, url) == q.drop_first().push(url),
{
    assert(enqueue_one_spec(q, url) =~= q.drop_first().push(url));
}

/// Bounded, deduplicating, order-preserving buffer of validated deep links.
pub struct PendingQueue {
    links: Vec<String>,
}

impl View for PendingQueue {
    type V = Seq<Seq<char>>;

    closed spec fn view(&self) -> Seq<Seq<char>> {
        self.links.deep_view()
    }
}

impl PendingQueue {
    /// Well-formed queue: contents within bound, valid, without duplicates.
    pub open spec fn wf(self) -> bool {
        wf_links(self@)
    }

    /// Creates the queue empty.
    pub fn new() -> (q: PendingQueue)
        ensures
            q@ == Seq::<Seq<char>>::empty(),
            q.wf(),
    {
        let q = PendingQueue { links: Vec::new() };
        proof {
            assert(q@ =~= Seq::<Seq<char>>::empty());
        }
        q
    }

    /// Number of links currently pending.
    pub fn len(&self) -> (n: usize)
        ensures
            n == self@.len(),
    {
        self.links.len()
    }

    /// Folds `urls`, in order, into the queue: each url is re-validated,
    /// deduplicated against the current contents, appended, and the oldest
    /// entries are evicted when the capacity bound is exceeded.
    pub fn enqueue_external_links(&mut self, urls: Vec<String>)
        ensures
            final(self)@ == enqueue_all_spec(old(self)@, urls.deep_view()),
            old(self).wf() ==> final(self).wf(),
    {
        let n = urls.len();
        proof {
            assert(urls.deep_view().take(0) =~= Seq::<Seq<char>>::empty());
        }
        let mut k: usize = 0;
        while k < n
            invariant
                k <= n,
                n == urls@.len(),
                self.links.deep_view() == enqueue_all_spec(
                    old(self)@,
                    urls.deep_view().take(k as int),
                ),
            decreases n - k,
        {
            let ghost cur = self.links.deep_view();
            let url = &urls[k];
            if is_valid_external_link(url.as_str()) {
                if !contains_string(&self.links, url) {
                    let ghost pre = self.links.deep_view();
                    while self.links.len() >= MAX_PENDING_EXTERNAL_LINKS
                        invariant
                            self.links@.len() <= pre.len(),
                            self.links@.len() >= pre.len() || self.links@.len()
                                >= MAX_PENDING_EXTERNAL_LINKS - 1,
                            self.links.deep_view() == pre.subrange(
                                pre.len() - self.links@.len(),
                                pre.len() as int,
                            ),
                        decreases self.links.len(),
                    {
                        let ghost before = self.links.deep_view();
                        self.links.remove(0);
                        proof {
                            assert(self.links.deep_view() =~= before.drop_first());
                            assert(self.links.deep_view() =~= pre.subrange(
                                pre.len() - self.links@.len(),
                                pre.len() as int,
                            ));
                        }
                    }
                    let ghost trimmed = self.links.deep_view();
                    self.links.push(url.clone());
                    proof {
                        assert(self.links.deep_view() =~= trimmed.push(url@));
                        let grown = cur.push(url@);
                        if grown.len() > MAX_PENDING_EXTERNAL_LINKS {
                            assert(self.links.deep_view() =~= grown.subrange(
                                grown.len() - MAX_PENDING_EXTERNAL_LINKS,
                                grown.len() as int,
                            ));
                        } else {
                            assert(trimmed =~= cur);
                        }
                        assert(self.links.deep_view() == enqueue_one_spec(cur, url@));
                    }
                }
            }
            proof {
                let dv = urls.deep_view();
                assert(dv.take(k + 1) =~= dv.take(k as int).push(dv[k as int]));
                assert(dv[k as int] == url@);
                lemma_enqueue_all_push(old(self)@, dv.take(k as int), dv[k as int]);
                assert(self.links.deep_view() == enqueue_one_spec(cur, url@) || (
                    self.links.deep_view() == cur && enqueue_one_spec(cur, url@) == cur));
            }
            k = k + 1;
        }
        proof {
            assert(urls.deep_view().take(n as int) =~= urls.deep_view());
            if old(self).wf() {
                lemma_enqueue_all_wf(old(self)@, urls.deep_view());
            }
        }
    }

    /// Atomically removes and returns all pending links, in insertion order;
    /// afterwards the queue is empty.
    pub fn take_pending_external_links(&mut self) -> (drained: Vec<String>)
        ensures
            drained.deep_view() == old(self)@,
            final(self)@ == Seq::<Seq<char>>::empty(),
            final(self).wf(),
    {
        let mut out: Vec<String> = Vec::new();
        core::mem::swap(&mut out, &mut self.links);
        proof {
            assert(self.links.deep_view() =~= Seq::<Seq<char>>::empty());
        }
        out
    }
}

} // verus!
