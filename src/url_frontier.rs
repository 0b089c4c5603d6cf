//! The URL frontier tells the crawler which URL to fetch next and drops
//! URLs it has already seen.

use vstd::prelude::*;
use vstd::hash_map::StringHashMap;

use crate::crawler::{outlinks_view, duplicate_inlinks, inlinks_view, lemma_inlinks_view_push, Inlink, InlinkView, Outlink, OutlinkView, UrlItem};
use crate::url_util::{is_http_s, serialize, spec_is_http_s, spec_without_fragment, UrlView, WebUrl};

verus! {

broadcast use vstd::hash_map::group_hash_map_axioms;

/// The frontier as a value: the inlinks of every URL seen (keyed by the
/// URL's text), the stack of URLs not yet handed out, and the texts of the
/// URLs handed out so far.
pub ghost struct FrontierView {
    pub known: Map<Seq<char>, Seq<InlinkView>>,
    pub pending: Seq<UrlView>,
    pub emitted: Set<Seq<char>>,
}

/// What `put_outlink` does: a URL enters with its fragment cleared, and only
/// with scheme http or https. An unknown URL is pushed with its inlink; a
/// known one gets the inlink appended and is not pushed again.
pub open spec fn spec_put(v: FrontierView, o: OutlinkView) -> FrontierView {
    let u = spec_without_fragment(o.url);
    let k = serialize(u);
    if !spec_is_http_s(u) {
        v
    } else if v.known.contains_key(k) {
        FrontierView { known: v.known.insert(k, v.known[k].push(o.inlink)), ..v }
    } else {
        FrontierView {
            known: v.known.insert(k, seq![o.inlink]),
            pending: v.pending.push(u),
            ..v
        }
    }
}

/// What `put_outlinks` does: `spec_put` for each outlink in order.
pub open spec fn spec_put_all(v: FrontierView, os: Seq<OutlinkView>) -> FrontierView
    decreases os.len(),
{
    if os.len() == 0 {
        v
    } else {
        spec_put(spec_put_all(v, os.drop_last()), os.last())
    }
}

/// What `get_item` does: the URL pushed last leaves the stack, with its
/// inlinks, and is recorded as handed out; it stays known.
pub open spec fn spec_get(v: FrontierView) -> (FrontierView, Option<(UrlView, Seq<InlinkView>)>) {
    if v.pending.len() == 0 {
        (v, None)
    } else {
        let u = v.pending.last();
        (
            FrontierView { pending: v.pending.drop_last(), emitted: v.emitted.insert(serialize(u)), ..v },
            Some((u, v.known[serialize(u)])),
        )
    }
}

/// What holds of every reachable frontier: each waiting URL is known, has no
/// fragment, is http(s), waits once, and was not handed out before.
pub open spec fn frontier_inv(v: FrontierView) -> bool {
    &&& forall|j: int|
        0 <= j < v.pending.len() ==> {
            &&& v.known.contains_key(serialize(#[trigger] v.pending[j]))
            &&& !v.emitted.contains(serialize(v.pending[j]))
            &&& v.pending[j] == spec_without_fragment(v.pending[j])
            &&& spec_is_http_s(v.pending[j])
        }
    &&& forall|j1: int, j2: int|
        0 <= j1 < j2 < v.pending.len() ==> serialize(#[trigger] v.pending[j1]) != serialize(
            #[trigger] v.pending[j2],
        )
    &&& forall|e: Seq<char>| #[trigger] v.emitted.contains(e) ==> v.known.contains_key(e)
}

/// One call on the frontier: `put_outlink` or `get_item`.
pub ghost enum FrontierOp {
    Put(OutlinkView),
    Get,
}

/// The frontier after a sequence of calls, and the texts of the URLs that
/// `get_item` handed out along the way, in order.
pub open spec fn run_ops(v: FrontierView, ops: Seq<FrontierOp>) -> (FrontierView, Seq<Seq<char>>)
    decreases ops.len(),
{
    if ops.len() == 0 {
        (v, Seq::empty())
    } else {
        let (v1, out1) = match ops[0] {
            FrontierOp::Put(o) => (spec_put(v, o), Seq::<Seq<char>>::empty()),
            FrontierOp::Get => {
                let (v1, item) = spec_get(v);
                match item {
                    Some((u, _)) => (v1, seq![serialize(u)]),
                    None => (v1, Seq::<Seq<char>>::empty()),
                }
            },
        };
        let (v2, out2) = run_ops(v1, ops.drop_first());
        (v2, out1 + out2)
    }
}

pub proof fn lemma_put_keeps_inv(v: FrontierView, o: OutlinkView)
    requires
        frontier_inv(v),
    ensures
        frontier_inv(spec_put(v, o)),
        spec_put(v, o).emitted == v.emitted,
{
    let v1 = spec_put(v, o);
    let u = spec_without_fragment(o.url);
    if spec_is_http_s(u) && !v.known.contains_key(serialize(u)) {
        assert forall|j: int| 0 <= j < v1.pending.len() - 1 implies v1.pending[j] == v.pending[j] by {}
        assert(v1.pending[v1.pending.len() - 1] == u);
    }
}

pub proof fn lemma_get_keeps_inv(v: FrontierView)
    requires
        frontier_inv(v),
    ensures
        frontier_inv(spec_get(v).0),
        match spec_get(v).1 {
            Some((u, _)) => !v.emitted.contains(serialize(u)) && spec_get(v).0.emitted == v.emitted.insert(serialize(u)),
            None => spec_get(v).0.emitted == v.emitted,
        },
{
    if v.pending.len() > 0 {
        let v1 = spec_get(v).0;
        let last = v.pending.len() - 1;
        assert(v.pending.last() == v.pending[last]);
        assert forall|j: int| 0 <= j < v1.pending.len() implies !v1.emitted.contains(
            serialize(#[trigger] v1.pending[j]),
        ) by {
            assert(v1.pending[j] == v.pending[j]);
            assert(serialize(v.pending[j]) != serialize(v.pending[last]));
        }
    }
}

/// No URL is handed out twice: over any sequence of calls from a reachable
/// frontier, the URLs that `get_item` returns are pairwise distinct and
/// none of them had been handed out before.
pub proof fn law_no_url_handed_out_twice(v: FrontierView, ops: Seq<FrontierOp>)
    requires
        frontier_inv(v),
    ensures
        run_ops(v, ops).1.no_duplicates(),
        forall|i: int| 0 <= i < run_ops(v, ops).1.len() ==> !v.emitted.contains(#[trigger] run_ops(v, ops).1[i]),
        frontier_inv(run_ops(v, ops).0),
        v.emitted.subset_of(run_ops(v, ops).0.emitted),
        forall|i: int| 0 <= i < run_ops(v, ops).1.len() ==> run_ops(v, ops).0.emitted.contains(#[trigger] run_ops(v, ops).1[i]),
    decreases ops.len(),
{
    if ops.len() > 0 {
        let v1 = match ops[0] {
            FrontierOp::Put(o) => spec_put(v, o),
            FrontierOp::Get => spec_get(v).0,
        };
        match ops[0] {
            FrontierOp::Put(o) => lemma_put_keeps_inv(v, o),
            FrontierOp::Get => lemma_get_keeps_inv(v),
        }
        law_no_url_handed_out_twice(v1, ops.drop_first());
        let out = run_ops(v, ops).1;
        let rest = run_ops(v1, ops.drop_first()).1;
        match ops[0] {
            FrontierOp::Put(o) => {
                assert(out =~= rest);
            },
            FrontierOp::Get => {
                match spec_get(v).1 {
                    Some((u, _)) => {
                        assert(out =~= seq![serialize(u)] + rest);
                        assert forall|i: int| 0 <= i < rest.len() implies rest[i] != serialize(u) by {
                            assert(v1.emitted.contains(serialize(u)));
                        }
                        assert forall|i: int, j: int| 0 <= i < out.len() && 0 <= j < out.len() && i != j implies out[i] != out[j] by {
                            if i > 0 && j > 0 {
                                assert(out[i] == rest[i - 1]);
                                assert(out[j] == rest[j - 1]);
                            } else if i == 0 {
                                assert(out[j] == rest[j - 1]);
                            } else {
                                assert(out[i] == rest[i - 1]);
                            }
                        }
                    },
                    None => {
                        assert(out =~= rest);
                    },
                }
            },
        }
    }
}

/// Putting the same URL twice: the second call leaves the set of known URLs,
/// the queue and the handed-out set as the first call left them, and appends
/// its inlink to those of the URL.
pub proof fn law_put_twice(v: FrontierView, url: UrlView, first: InlinkView, second: InlinkView)
    ensures
        ({
            let v1 = spec_put(v, OutlinkView { url, inlink: first });
            let v2 = spec_put(v1, OutlinkView { url, inlink: second });
            let k = serialize(spec_without_fragment(url));
            &&& v2.known.dom() == v1.known.dom()
            &&& v2.pending == v1.pending
            &&& v2.emitted == v1.emitted
            &&& spec_is_http_s(url) ==> v1.known.contains_key(k) && v2.known[k] == v1.known[k].push(second)
        }),
{
    let v1 = spec_put(v, OutlinkView { url, inlink: first });
    let v2 = spec_put(v1, OutlinkView { url, inlink: second });
    let k = serialize(spec_without_fragment(url));
    if spec_is_http_s(spec_without_fragment(url)) {
        assert(v1.known.contains_key(k));
        assert(v2.known.dom() =~= v1.known.dom());
    }
}

spec fn key_at(urls: Seq<WebUrl>, i: int) -> Seq<char> {
    serialize(urls[i]@)
}

pub struct UrlFrontier {
    index: StringHashMap<usize>,
    urls: Vec<WebUrl>,
    inlinks: Vec<Vec<Inlink>>,
    pending: Vec<usize>,
    emitted: Ghost<Set<Seq<char>>>,
}

impl View for UrlFrontier {
    type V = FrontierView;

    closed spec fn view(&self) -> FrontierView {
        FrontierView {
            known: Map::new(
                |k: Seq<char>| self.index@.contains_key(k),
                |k: Seq<char>| inlinks_view(self.inlinks@[self.index@[k] as int]@),
            ),
            pending: Seq::new(self.pending@.len(), |j: int| self.urls@[self.pending@[j] as int]@),
            emitted: self.emitted@,
        }
    }
}

impl UrlFrontier {
    /// The frontier's internal invariant.
    pub closed spec fn wf(&self) -> bool {
        &&& self.urls@.len() == self.inlinks@.len()
        &&& forall|k: Seq<char>|
            #[trigger] self.index@.contains_key(k) ==> self.index@[k] < self.urls@.len()
                && key_at(self.urls@, self.index@[k] as int) == k
        &&& forall|i: int|
            0 <= i < self.urls@.len() ==> self.index@.contains_key(#[trigger] key_at(self.urls@, i))
                && self.index@[key_at(self.urls@, i)] == i
        &&& forall|i: int|
            0 <= i < self.urls@.len() ==> (#[trigger] self.urls@[i])@ == spec_without_fragment(
                self.urls@[i]@,
            ) && spec_is_http_s(self.urls@[i]@)
        &&& forall|e: Seq<char>| #[trigger] self.emitted@.contains(e) ==> self.index@.contains_key(e)
        &&& forall|j: int|
            0 <= j < self.pending@.len() ==> #[trigger] self.pending@[j] < self.urls@.len()
                && !self.emitted@.contains(key_at(self.urls@, self.pending@[j] as int))
        &&& forall|j1: int, j2: int|
            0 <= j1 < j2 < self.pending@.len() ==> #[trigger] self.pending@[j1]
                != #[trigger] self.pending@[j2]
    }

    /// An empty frontier.
    pub fn new() -> (r: UrlFrontier)
        ensures
            r.wf(),
            r@.known == Map::<Seq<char>, Seq<InlinkView>>::empty(),
            r@.pending == Seq::<UrlView>::empty(),
            r@.emitted == Set::<Seq<char>>::empty(),
    {
        let r = UrlFrontier {
            index: StringHashMap::new(),
            urls: Vec::new(),
            inlinks: Vec::new(),
            pending: Vec::new(),
            emitted: Ghost(Set::empty()),
        };
        assert(r@.known =~= Map::<Seq<char>, Seq<InlinkView>>::empty());
        assert(r@.pending =~= Seq::<UrlView>::empty());
        r
    }

    proof fn lemma_key_injective(&self, a: int, b: int)
        requires
            self.wf(),
            0 <= a < self.urls@.len(),
            0 <= b < self.urls@.len(),
            key_at(self.urls@, a) == key_at(self.urls@, b),
        ensures
            a == b,
    {
        assert(self.index@[key_at(self.urls@, a)] == a);
        assert(self.index@[key_at(self.urls@, b)] == b);
    }

    proof fn lemma_view_inv(&self)
        requires
            self.wf(),
        ensures
            frontier_inv(self@),
    {
        let v = self@;
        assert forall|j: int| 0 <= j < v.pending.len() implies {
            &&& v.known.contains_key(serialize(#[trigger] v.pending[j]))
            &&& !v.emitted.contains(serialize(v.pending[j]))
            &&& v.pending[j] == spec_without_fragment(v.pending[j])
            &&& spec_is_http_s(v.pending[j])
        } by {
            let i = self.pending@[j] as int;
            assert(self.urls@[i]@ == spec_without_fragment(self.urls@[i]@));
            assert(self.index@.contains_key(key_at(self.urls@, i)));
        }
        assert forall|j1: int, j2: int| 0 <= j1 < j2 < v.pending.len() implies serialize(
            #[trigger] v.pending[j1],
        ) != serialize(#[trigger] v.pending[j2]) by {
            let i1 = self.pending@[j1] as int;
            let i2 = self.pending@[j2] as int;
            assert(self.pending@[j1] != self.pending@[j2]);
            assert(self.index@[key_at(self.urls@, i1)] == i1);
            assert(self.index@[key_at(self.urls@, i2)] == i2);
        }
        assert forall|e: Seq<char>| #[trigger] v.emitted.contains(e) implies v.known.contains_key(e) by {
            assert(self.emitted@.contains(e));
        }
    }

    /// Adds a discovered URL. Its fragment is cleared first; a URL whose
    /// scheme is not http or https is ignored. A URL seen before only has
    /// the inlink appended to its inlinks and is not queued again.
    pub fn put_outlink(&mut self, o: Outlink)
        requires
            old(self).wf(),
        ensures
            final(self).wf(),
            final(self)@ == spec_put(old(self)@, o@),
            frontier_inv(final(self)@),
    {
        let ghost ov = o@;
        let url = o.url.without_fragment();
        if !is_http_s(&url) {
            proof {
                self.lemma_view_inv();
            }
            return;
        }
        let key = url.as_string();
        let ghost k = key@;
        let ghost old_self = *self;
        match self.index.get(key.as_str()) {
            Some(i) => {
                let i = *i;
                let ghost before = self.inlinks@[i as int]@;
                let ghost inl = o.i;
                self.inlinks[i].push(o.i);
                proof {
                    assert(self.inlinks@[i as int]@ == before.push(inl));
                    lemma_inlinks_view_push(before, inl);
                    assert(self.urls@ == old_self.urls@);
                    assert(self.inlinks@.len() == old_self.inlinks@.len());
                    assert(self.index@ == old_self.index@);
                    assert(self.pending@ == old_self.pending@);
                    assert(self.emitted@ == old_self.emitted@);
                    assert(self.wf());
                    assert(key_at(self.urls@, i as int) == k);
                    assert forall|k2: Seq<char>| #[trigger]
                        self.index@.contains_key(k2) && k2 != k implies self.index@[k2] != i by {}
                    assert(self@.known =~= old_self@.known.insert(k, old_self@.known[k].push(ov.inlink)));
                    assert(self@.pending =~= old_self@.pending);
                }
            },
            None => {
                let i = self.urls.len();
                self.index.insert(key, i);
                self.urls.push(url);
                let ghost ov_i = o.i;
                self.inlinks.push(vec![o.i]);
                self.pending.push(i);
                proof {
                    assert(key_at(self.urls@, i as int) == k);
                    assert(!old_self.emitted@.contains(k));
                    assert forall|m: int| 0 <= m < old_self.urls@.len() implies self.urls@[m]
                        == old_self.urls@[m] && self.inlinks@[m] == old_self.inlinks@[m] by {}
                    assert forall|k2: Seq<char>| #[trigger]
                        self.index@.contains_key(k2) implies self.index@[k2] < self.urls@.len()
                        && key_at(self.urls@, self.index@[k2] as int) == k2 by {
                        if k2 != k {
                            assert(old_self.index@.contains_key(k2));
                        }
                    }
                    assert forall|ii: int| 0 <= ii < self.urls@.len() implies self.index@.contains_key(
                        #[trigger] key_at(self.urls@, ii),
                    ) && self.index@[key_at(self.urls@, ii)] == ii by {
                        if ii < old_self.urls@.len() {
                            assert(old_self.index@.contains_key(key_at(old_self.urls@, ii)));
                        }
                    }
                    assert forall|ii: int| 0 <= ii < self.urls@.len() implies (
                    #[trigger] self.urls@[ii])@ == spec_without_fragment(self.urls@[ii]@)
                        && spec_is_http_s(self.urls@[ii]@) by {
                        if ii < old_self.urls@.len() {
                            assert(old_self.urls@[ii]@ == spec_without_fragment(old_self.urls@[ii]@));
                        }
                    }
                    assert forall|j: int| 0 <= j < self.pending@.len() implies #[trigger] self.pending@[j]
                        < self.urls@.len() && !self.emitted@.contains(key_at(self.urls@, self.pending@[j] as int)) by {
                        if j < old_self.pending@.len() {
                            assert(old_self.pending@[j] == self.pending@[j]);
                        }
                    }
                    assert forall|j1: int, j2: int| 0 <= j1 < j2 < self.pending@.len() implies #[trigger] self.pending@[j1]
                        != #[trigger] self.pending@[j2] by {
                        assert(old_self.pending@[j1] < old_self.urls@.len());
                        if j2 < old_self.pending@.len() {
                            assert(old_self.pending@[j2] < old_self.urls@.len());
                        }
                    }
                    assert(self.wf());
                    assert(inlinks_view(seq![ov_i]) =~= seq![ov.inlink]);
                    assert forall|ii: int| 0 <= ii < old_self.urls@.len() implies key_at(self.urls@, ii)
                        == key_at(old_self.urls@, ii) by {}
                    assert(self.inlinks@[i as int]@ =~= seq![ov_i]);
                    assert forall|k2: Seq<char>| self@.known.contains_key(k2) implies self@.known[k2]
                        == old_self@.known.insert(k, seq![ov.inlink])[k2] by {
                        if k2 != k {
                            assert(old_self.index@.contains_key(k2));
                        }
                    }
                    assert(self@.known =~= old_self@.known.insert(k, seq![ov.inlink]));
                    assert(self@.pending =~= old_self@.pending.push(spec_without_fragment(ov.url)));
                }
            },
        }
        proof {
            self.lemma_view_inv();
        }
    }

    /// Adds each outlink in turn. `_source` is the page they were found on.
    pub fn put_outlinks(&mut self, _source: &WebUrl, outlinks: Vec<Outlink>)
        requires
            old(self).wf(),
        ensures
            final(self).wf(),
            final(self)@ == spec_put_all(old(self)@, outlinks_view(outlinks@)),
            frontier_inv(final(self)@),
    {
        let ghost v0 = self@;
        let ghost ov = outlinks_view(outlinks@);
        proof {
            self.lemma_view_inv();
            assert(ov.subrange(0, 0) =~= Seq::<OutlinkView>::empty());
        }
        let mut k: usize = 0;
        while k < outlinks.len()
            invariant
                self.wf(),
                k <= outlinks@.len(),
                ov == outlinks_view(outlinks@),
                self@ == spec_put_all(v0, ov.subrange(0, k as int)),
                frontier_inv(self@),
            decreases outlinks@.len() - k,
        {
            let o = outlinks[k].duplicate();
            proof {
                assert(ov.subrange(0, k + 1).drop_last() =~= ov.subrange(0, k as int));
                assert(ov.subrange(0, k + 1).last() == o@);
            }
            self.put_outlink(o);
            k = k + 1;
        }
        assert(ov.subrange(0, k as int) =~= ov);
    }

    /// Hands out the URL queued last with all its inlinks, or `None` when no
    /// URL waits. The URL stays known and is recorded as handed out, so it is
    /// never handed out again.
    pub fn get_item(&mut self) -> (r: Option<UrlItem>)
        requires
            old(self).wf(),
        ensures
            final(self).wf(),
            final(self)@ == spec_get(old(self)@).0,
            match (r, spec_get(old(self)@).1) {
                (None, None) => true,
                (Some(item), Some((u, links))) => item.url@ == u && inlinks_view(item.i@) == links,
                _ => false,
            },
            frontier_inv(final(self)@),
    {
        proof {
            self.lemma_view_inv();
        }
        let ghost old_self = *self;
        match self.pending.pop() {
            None => {
                assert(self@.pending =~= old_self@.pending);
                None
            },
            Some(i) => {
                proof {
                    assert(old_self.pending@[old_self.pending@.len() - 1] == i);
                    assert forall|j: int| 0 <= j < self.pending@.len() implies key_at(old_self.urls@, 
                        #[trigger] self.pending@[j] as int,
                    ) != key_at(old_self.urls@, i as int) by {
                        assert(old_self.pending@[j] == self.pending@[j]);
                        if key_at(old_self.urls@, self.pending@[j] as int) == key_at(old_self.urls@, i as int) {
                            old_self.lemma_key_injective(self.pending@[j] as int, i as int);
                        }
                    }
                }
                let url = self.urls[i].duplicate();
                let links = duplicate_inlinks(&self.inlinks[i]);
                proof {
                    self.emitted@ = self.emitted@.insert(key_at(self.urls@, i as int));
                    assert(self.urls@ == old_self.urls@);
                    assert(self.index@ == old_self.index@);
                    assert(self.inlinks@ == old_self.inlinks@);
                    assert(old_self.index@.contains_key(key_at(old_self.urls@, i as int)));
                    assert forall|e: Seq<char>| #[trigger] self.emitted@.contains(e) implies self.index@.contains_key(e) by {
                        if e != key_at(self.urls@, i as int) {
                            assert(old_self.emitted@.contains(e));
                        }
                    }
                    assert forall|j: int| 0 <= j < self.pending@.len() implies #[trigger] self.pending@[j]
                        < self.urls@.len() && !self.emitted@.contains(key_at(self.urls@, self.pending@[j] as int)) by {
                        assert(old_self.pending@[j] == self.pending@[j]);
                    }
                    assert forall|j1: int, j2: int| 0 <= j1 < j2 < self.pending@.len() implies #[trigger] self.pending@[j1]
                        != #[trigger] self.pending@[j2] by {
                        assert(old_self.pending@[j1] == self.pending@[j1]);
                        assert(old_self.pending@[j2] == self.pending@[j2]);
                    }
                    assert(self.wf());
                    assert(old_self.pending@[old_self.pending@.len() - 1] == i);
                    assert(self@.pending =~= old_self@.pending.drop_last());
                    assert(self@.known =~= old_self@.known);
                }
                proof {
                    self.lemma_view_inv();
                }
                Some(UrlItem { url, i: links })
            },
        }
    }
}

} // verus!
