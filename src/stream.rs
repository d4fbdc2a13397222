use std::collections::HashMap;
use vstd::prelude::*;

use crate::params::DISCARD_ANI;

verus! {

broadcast use vstd::std_specs::hash::group_hash_axioms;

/// When the schedule flushes: after the completion that brings the
/// counter to a multiple of `every`.
pub open spec fn flush_due(counter: nat, every: nat) -> bool {
    counter % every == 0
}

/// `first_write` of a schedule after `n` completed units.
pub open spec fn first_write_after(every: nat, n: nat) -> bool
    decreases n,
{
    if n == 0 {
        true
    } else if flush_due(n, every) {
        false
    } else {
        first_write_after(every, (n - 1) as nat)
    }
}

/// The append flags of the intermediate flushes made over `n` completed
/// units, in order: a flush appends unless it is the first write.
pub open spec fn intermediate_flags(every: nat, n: nat) -> Seq<bool>
    decreases n,
{
    if n == 0 {
        Seq::empty()
    } else {
        let prev = intermediate_flags(every, (n - 1) as nat);
        if flush_due(n, every) {
            prev.push(!first_write_after(every, (n - 1) as nat))
        } else {
            prev
        }
    }
}

/// The append flags of every flush of a run of `n` units: the intermediate
/// ones, then the final one.
pub open spec fn run_flags(every: nat, n: nat) -> Seq<bool> {
    intermediate_flags(every, n).push(!first_write_after(every, n))
}

/// Decides, as outer units complete, when accumulated results are flushed
/// and whether a flush overwrites the output or appends to it.
pub struct FlushSchedule {
    counter: usize,
    first_write: bool,
    every: usize,
}

impl FlushSchedule {
    /// Units completed so far.
    pub closed spec fn completed(&self) -> nat {
        self.counter as nat
    }

    /// Units between two intermediate flushes.
    pub closed spec fn period(&self) -> nat {
        self.every as nat
    }

    /// No write has happened yet.
    pub closed spec fn is_first_write(&self) -> bool {
        self.first_write
    }

    pub closed spec fn wf(&self) -> bool {
        &&& self.every > 0
        &&& self.first_write == first_write_after(self.every as nat, self.counter as nat)
    }

    /// A schedule with nothing completed that flushes every `every` units.
    pub fn new(every: usize) -> (r: FlushSchedule)
        requires
            every > 0,
        ensures
            r.wf(),
            r.completed() == 0,
            r.period() == every,
            r.is_first_write(),
    {
        FlushSchedule { counter: 0, first_write: true, every }
    }

    /// Units completed so far.
    pub fn count(&self) -> (r: usize)
        ensures
            r == self.completed(),
    {
        self.counter
    }

    /// Records one completed unit. Returns `Some(append)` when a flush is
    /// due now, where `append` is false exactly for the first write.
    pub fn complete_unit(&mut self) -> (r: Option<bool>)
        requires
            old(self).wf(),
            old(self).completed() < usize::MAX,
        ensures
            final(self).wf(),
            final(self).period() == old(self).period(),
            final(self).completed() == old(self).completed() + 1,
            r == if flush_due(final(self).completed(), old(self).period()) {
                Some(!old(self).is_first_write())
            } else {
                None::<bool>
            },
            final(self).is_first_write() == (old(self).is_first_write() && r.is_none()),
            r == if flush_due(final(self).completed(), old(self).period()) {
                Some(!first_write_after(old(self).period(), old(self).completed()))
            } else {
                None::<bool>
            },
    {
        self.counter = self.counter + 1;
        if self.counter % self.every == 0 {
            let append = !self.first_write;
            self.first_write = false;
            Some(append)
        } else {
            None
        }
    }

    /// Whether the final flush appends: true iff an intermediate flush
    /// has already written.
    pub fn final_append(&self) -> (r: bool)
        requires
            self.wf(),
        ensures
            r == !self.is_first_write(),
            r == !first_write_after(self.period(), self.completed()),
    {
        !self.first_write
    }
}

proof fn lemma_flags_shape(every: nat, n: nat)
    requires
        every > 0,
    ensures
        first_write_after(every, n) == (intermediate_flags(every, n).len() == 0),
        intermediate_flags(every, n).len() > 0 ==> !intermediate_flags(every, n)[0],
        forall|t: int| 0 < t < intermediate_flags(every, n).len() ==> #[trigger] intermediate_flags(every, n)[t],
    decreases n,
{
    if n > 0 {
        lemma_flags_shape(every, (n - 1) as nat);
    }
}

/// Over a run of any number of units, exactly one flush overwrites the
/// output, the first one (the final flush when no intermediate flush
/// happened); every other flush appends.
pub proof fn lemma_single_overwrite(every: nat, n: nat)
    requires
        every > 0,
    ensures
        !run_flags(every, n)[0],
        forall|t: int| 0 < t < run_flags(every, n).len() ==> #[trigger] run_flags(every, n)[t],
{
    lemma_flags_shape(every, n);
    let f = intermediate_flags(every, n);
    assert forall|t: int| 0 < t < run_flags(every, n).len() implies #[trigger] run_flags(every, n)[t] by {
        if t < f.len() {
            assert(run_flags(every, n)[t] == f[t]);
        }
    }
}

/// A result with its identity on the fixed-point scale.
#[derive(Clone, Debug)]
pub struct Scored<T> {
    pub ani: u64,
    pub item: T,
}

/// Every result of `s` is above the discard threshold.
pub open spec fn all_kept<T>(s: Seq<Scored<T>>) -> bool {
    forall|t: int| 0 <= t < s.len() ==> (#[trigger] s[t]).ani > DISCARD_ANI
}

/// Accumulates the results of the pairwise driver between flushes,
/// keeping only those above the discard threshold.
pub struct ResultBuffer<T> {
    items: Vec<Scored<T>>,
}

impl<T> View for ResultBuffer<T> {
    type V = Seq<Scored<T>>;

    closed spec fn view(&self) -> Seq<Scored<T>> {
        self.items@
    }
}

impl<T> ResultBuffer<T> {
    #[verifier::type_invariant]
    spec fn inv(&self) -> bool {
        all_kept(self.items@)
    }

    /// An empty buffer.
    pub fn new() -> (r: ResultBuffer<T>)
        ensures
            r@ == Seq::<Scored<T>>::empty(),
    {
        ResultBuffer { items: Vec::new() }
    }

    /// Keeps `item` iff its identity `ani` is above the discard threshold;
    /// returns whether it was kept.
    pub fn offer(&mut self, ani: u64, item: T) -> (kept: bool)
        ensures
            kept == (ani > DISCARD_ANI),
            kept ==> final(self)@ == old(self)@.push(Scored { ani, item }),
            !kept ==> final(self)@ == old(self)@,
    {
        proof {
            use_type_invariant(&*self);
        }
        if ani > DISCARD_ANI {
            let mut items: Vec<Scored<T>> = Vec::new();
            std::mem::swap(&mut items, &mut self.items);
            items.push(Scored { ani, item });
            assert(all_kept(items@)) by {
                assert forall|t: int| 0 <= t < items@.len() implies (#[trigger] items@[t]).ani > DISCARD_ANI by {
                    if t < old(self).items@.len() {
                        assert(items@[t] == old(self).items@[t]);
                    }
                }
            }
            *self = ResultBuffer { items };
            true
        } else {
            false
        }
    }

    /// Number of results held.
    pub fn len(&self) -> (r: usize)
        ensures
            r == self@.len(),
    {
        self.items.len()
    }

    /// Hands out every result held, in order, leaving the buffer empty.
    pub fn drain(&mut self) -> (r: Vec<Scored<T>>)
        ensures
            r@ == old(self)@,
            all_kept(r@),
            final(self)@ == Seq::<Scored<T>>::empty(),
    {
        proof {
            use_type_invariant(&*self);
        }
        let mut out: Vec<Scored<T>> = Vec::new();
        std::mem::swap(&mut out, &mut self.items);
        out
    }
}

/// The pairs `(i, j)` held in a two-level map, with their results.
pub open spec fn pairs_of<T>(rows: Map<usize, HashMap<usize, Scored<T>>>) -> Map<(usize, usize), Scored<T>> {
    Map::new(
        |p: (usize, usize)| rows.contains_key(p.0) && rows[p.0]@.contains_key(p.1),
        |p: (usize, usize)| rows[p.0]@[p.1],
    )
}

/// Every pair of `m` lies above the diagonal and has its result above the
/// discard threshold.
pub open spec fn upper_kept<T>(m: Map<(usize, usize), Scored<T>>) -> bool {
    forall|p: (usize, usize)| #[trigger] m.contains_key(p) ==> p.0 < p.1 && m[p].ani > DISCARD_ANI
}

/// Accumulates the results of the all-versus-all driver: row `i` maps
/// column `j` to the result of the pair, for `j > i` only.
pub struct TriangleMap<T> {
    rows: HashMap<usize, HashMap<usize, Scored<T>>>,
}

impl<T> View for TriangleMap<T> {
    type V = Map<(usize, usize), Scored<T>>;

    closed spec fn view(&self) -> Map<(usize, usize), Scored<T>> {
        pairs_of(self.rows@)
    }
}

impl<T> TriangleMap<T> {
    #[verifier::type_invariant]
    spec fn inv(&self) -> bool {
        upper_kept(pairs_of(self.rows@))
    }

    /// An empty map.
    pub fn new() -> (r: TriangleMap<T>)
        ensures
            r@ == Map::<(usize, usize), Scored<T>>::empty(),
    {
        let r = TriangleMap { rows: HashMap::new() };
        assert(r@ =~= Map::<(usize, usize), Scored<T>>::empty());
        r
    }

    /// Records the result of pair `(i, j)` iff `j > i` and its identity is
    /// above the discard threshold; returns whether it was recorded.
    pub fn offer(&mut self, i: usize, j: usize, ani: u64, item: T) -> (kept: bool)
        ensures
            kept == (i < j && ani > DISCARD_ANI),
            kept ==> final(self)@ == old(self)@.insert((i, j), Scored { ani, item }),
            !kept ==> final(self)@ == old(self)@,
    {
        proof {
            use_type_invariant(&*self);
        }
        if i < j && ani > DISCARD_ANI {
            let ghost before = self.rows@;
            let mut rows: HashMap<usize, HashMap<usize, Scored<T>>> = HashMap::new();
            std::mem::swap(&mut rows, &mut self.rows);
            let mut row = match rows.remove(&i) {
                Some(r) => r,
                None => HashMap::new(),
            };
            row.insert(j, Scored { ani, item });
            rows.insert(i, row);
            let ghost want = pairs_of(before).insert((i, j), Scored { ani, item });
            assert(pairs_of(rows@) =~= want) by {
                assert forall|p: (usize, usize)| #[trigger] pairs_of(rows@).contains_key(p) == want.contains_key(p) by {
                    if p.0 != i {
                        assert(rows@[p.0] == before[p.0]);
                    }
                }
                assert forall|p: (usize, usize)| #[trigger] want.contains_key(p) implies pairs_of(rows@)[p] == want[p] by {
                    if p.0 != i {
                        assert(rows@[p.0] == before[p.0]);
                    }
                }
            }
            *self = TriangleMap { rows };
            true
        } else {
            false
        }
    }

    /// Hands out every row held, leaving the map empty. Every pair handed
    /// out lies above the diagonal with its result above the threshold.
    pub fn drain(&mut self) -> (r: HashMap<usize, HashMap<usize, Scored<T>>>)
        ensures
            pairs_of(r@) == old(self)@,
            upper_kept(pairs_of(r@)),
            final(self)@ == Map::<(usize, usize), Scored<T>>::empty(),
    {
        proof {
            use_type_invariant(&*self);
        }
        let mut out: HashMap<usize, HashMap<usize, Scored<T>>> = HashMap::new();
        std::mem::swap(&mut out, &mut self.rows);
        assert(self@ =~= Map::<(usize, usize), Scored<T>>::empty());
        out
    }
}

/// The accumulator of a pairwise run: results of the current epoch and
/// the flush schedule. At each due flush the whole epoch is handed out as
/// one batch.
pub struct DistRun<T> {
    results: ResultBuffer<T>,
    schedule: FlushSchedule,
}

impl<T> DistRun<T> {
    /// Results held for the current epoch.
    pub closed spec fn pending(&self) -> Seq<Scored<T>> {
        self.results@
    }

    /// The flush schedule of the run.
    pub closed spec fn schedule(&self) -> FlushSchedule {
        self.schedule
    }

    /// A run with nothing done, flushing every `every` completed queries.
    pub fn new(every: usize) -> (r: DistRun<T>)
        requires
            every > 0,
        ensures
            r.pending() == Seq::<Scored<T>>::empty(),
            r.schedule().wf(),
            r.schedule().completed() == 0,
            r.schedule().period() == every,
            r.schedule().is_first_write(),
    {
        DistRun { results: ResultBuffer::new(), schedule: FlushSchedule::new(every) }
    }

    /// Offers the result of one pair; kept iff `ani` is above the discard
    /// threshold.
    pub fn offer(&mut self, ani: u64, item: T) -> (kept: bool)
        ensures
            kept == (ani > DISCARD_ANI),
            kept ==> final(self).pending() == old(self).pending().push(Scored { ani, item }),
            !kept ==> final(self).pending() == old(self).pending(),
            final(self).schedule() == old(self).schedule(),
    {
        self.results.offer(ani, item)
    }

    /// Number of completed querys.
    pub fn completed_count(&self) -> (r: usize)
        ensures
            r == self.schedule().completed(),
    {
        self.schedule.count()
    }

    /// Records that one query is done. When a flush is due, returns the
    /// epoch's results and whether they are appended to the output.
    pub fn complete_query(&mut self) -> (r: Option<(Vec<Scored<T>>, bool)>)
        requires
            old(self).schedule().wf(),
            old(self).schedule().completed() < usize::MAX,
        ensures
            final(self).schedule().wf(),
            final(self).schedule().period() == old(self).schedule().period(),
            final(self).schedule().completed() == old(self).schedule().completed() + 1,
            r is Some <==> flush_due(final(self).schedule().completed(), old(self).schedule().period()),
            r is Some ==> r->Some_0.0@ == old(self).pending() && all_kept(r->Some_0.0@)
                && r->Some_0.1 == !old(self).schedule().is_first_write()
                && final(self).pending() == Seq::<Scored<T>>::empty()
                && !final(self).schedule().is_first_write(),
            r is None ==> final(self).pending() == old(self).pending()
                && final(self).schedule().is_first_write() == old(self).schedule().is_first_write(),
    {
        match self.schedule.complete_unit() {
            Some(append) => Some((self.results.drain(), append)),
            None => None,
        }
    }

    /// The final flush: the remaining results, and whether they are
    /// appended (iff an intermediate flush already wrote).
    pub fn finish(&mut self) -> (r: (Vec<Scored<T>>, bool))
        requires
            old(self).schedule().wf(),
        ensures
            r.0@ == old(self).pending(),
            all_kept(r.0@),
            r.1 == !old(self).schedule().is_first_write(),
            final(self).pending() == Seq::<Scored<T>>::empty(),
    {
        let append = self.schedule.final_append();
        (self.results.drain(), append)
    }
}

/// The accumulator of an all-versus-all run: the pairs of the current epoch
/// and the flush schedule.
pub struct TriangleRun<T> {
    pairs: TriangleMap<T>,
    schedule: FlushSchedule,
}

impl<T> TriangleRun<T> {
    /// Pairs held for the current epoch.
    pub closed spec fn pending(&self) -> Map<(usize, usize), Scored<T>> {
        self.pairs@
    }

    /// The flush schedule of the run.
    pub closed spec fn schedule(&self) -> FlushSchedule {
        self.schedule
    }

    /// A run with nothing done, flushing every `every` completed rows.
    pub fn new(every: usize) -> (r: TriangleRun<T>)
        requires
            every > 0,
        ensures
            r.pending() == Map::<(usize, usize), Scored<T>>::empty(),
            r.schedule().wf(),
            r.schedule().completed() == 0,
            r.schedule().period() == every,
            r.schedule().is_first_write(),
    {
        TriangleRun { pairs: TriangleMap::new(), schedule: FlushSchedule::new(every) }
    }

    /// Offers the result of pair `(i, j)`; kept iff `i < j` and `ani` is
    /// above the discard threshold.
    pub fn offer(&mut self, i: usize, j: usize, ani: u64, item: T) -> (kept: bool)
        ensures
            kept == (i < j && ani > DISCARD_ANI),
            kept ==> final(self).pending() == old(self).pending().insert((i, j), Scored { ani, item }),
            !kept ==> final(self).pending() == old(self).pending(),
            final(self).schedule() == old(self).schedule(),
    {
        self.pairs.offer(i, j, ani, item)
    }

    /// Number of completed rows.
    pub fn completed_count(&self) -> (r: usize)
        ensures
            r == self.schedule().completed(),
    {
        self.schedule.count()
    }

    /// Records that one row is done. When a flush is due, returns the
    /// epoch's pairs and whether they are appended to the output.
    pub fn complete_row(&mut self) -> (r: Option<(HashMap<usize, HashMap<usize, Scored<T>>>, bool)>)
        requires
            old(self).schedule().wf(),
            old(self).schedule().completed() < usize::MAX,
        ensures
            final(self).schedule().wf(),
            final(self).schedule().period() == old(self).schedule().period(),
            final(self).schedule().completed() == old(self).schedule().completed() + 1,
            r is Some <==> flush_due(final(self).schedule().completed(), old(self).schedule().period()),
            r is Some ==> pairs_of(r->Some_0.0@) == old(self).pending() && upper_kept(pairs_of(r->Some_0.0@))
                && r->Some_0.1 == !old(self).schedule().is_first_write()
                && final(self).pending() == Map::<(usize, usize), Scored<T>>::empty()
                && !final(self).schedule().is_first_write(),
            r is None ==> final(self).pending() == old(self).pending()
                && final(self).schedule().is_first_write() == old(self).schedule().is_first_write(),
    {
        match self.schedule.complete_unit() {
            Some(append) => Some((self.pairs.drain(), append)),
            None => None,
        }
    }

    /// The final flush: the remaining pairs, and whether they are appended
    /// (iff an intermediate flush already wrote).
    pub fn finish(&mut self) -> (r: (HashMap<usize, HashMap<usize, Scored<T>>>, bool))
        requires
            old(self).schedule().wf(),
        ensures
            pairs_of(r.0@) == old(self).pending(),
            upper_kept(pairs_of(r.0@)),
            r.1 == !old(self).schedule().is_first_write(),
            final(self).pending() == Map::<(usize, usize), Scored<T>>::empty(),
    {
        let append = self.schedule.final_append();
        (self.pairs.drain(), append)
    }
}

} // verus!
