use vstd::prelude::*;
use std::collections::HashMap;
use std::collections::VecDeque;

verus! {

broadcast use vstd::std_specs::hash::group_hash_axioms;

/// The abstract state of a [`Reassembler`]: analyses that finished out of
/// order and wait for their predecessors, and the gap-free ordered queue of
/// analyses `first, first + 1, ...`.
pub ghost struct ReassemblyView<T> {
    pub pending: Map<usize, T>,
    pub first: nat,
    pub ordered: Seq<T>,
}

impl<T> ReassemblyView<T> {
    /// The index that the ordered queue expects next.
    pub open spec fn next(self) -> nat {
        self.first + self.ordered.len()
    }

    /// Whether an analysis with this index can still be taken in.
    pub open spec fn accepts(self, index: usize) -> bool {
        &&& index >= self.next()
        &&& index < usize::MAX
        &&& !self.pending.contains_key(index)
    }

    /// The state after an analysis for `index` is handed in.
    pub open spec fn inserted(self, index: usize, item: T) -> ReassemblyView<T> {
        if self.accepts(index) {
            ReassemblyView { pending: self.pending.insert(index, item), ..self }
        } else {
            self
        }
    }

    /// Whether the `count` indices from `next()` on are all pending and the
    /// one after them is not.
    pub open spec fn is_run_length(self, count: nat) -> bool {
        &&& forall|j: nat| j < count ==> self.pending.contains_key(#[trigger] ((self.next() + j) as usize))
        &&& self.next() + count <= usize::MAX
        &&& !self.pending.contains_key((self.next() + count) as usize)
    }

    /// The state after the first `count` expected analyses move from the
    /// pending ones to the end of the ordered queue.
    pub open spec fn moved(self, count: nat) -> ReassemblyView<T> {
        ReassemblyView {
            pending: self.pending.remove_keys(
                Set::new(|k: usize| self.next() <= k < self.next() + count),
            ),
            first: self.first,
            ordered: self.ordered + Seq::new(count, |j: int| self.pending[(self.next() + j) as usize]),
        }
    }

    /// `after` is this state once every analysis that continues the ordered
    /// queue without a gap has moved into it.
    pub open spec fn drains_to(self, after: ReassemblyView<T>) -> bool {
        &&& after.ordered.len() >= self.ordered.len()
        &&& self.is_run_length((after.ordered.len() - self.ordered.len()) as nat)
        &&& after == self.moved((after.ordered.len() - self.ordered.len()) as nat)
    }

    /// The state after the `count` oldest analyses of the ordered queue are
    /// discarded, each once its window has been averaged.
    pub open spec fn slid(self, count: nat) -> ReassemblyView<T> {
        ReassemblyView {
            pending: self.pending,
            first: self.first + count,
            ordered: self.ordered.subrange(count as int, self.ordered.len() as int),
        }
    }

    /// `after` is this state once it has been drained, and then some windows
    /// of `window_size` analyses averaged, each discarding the oldest analysis
    /// while a full window was queued.
    pub open spec fn averages_to(self, after: ReassemblyView<T>, window_size: nat) -> bool {
        let drained = (after.next() - self.next()) as nat;
        let slides = (after.first - self.first) as nat;
        let full = self.moved(drained);
        &&& after.next() >= self.next()
        &&& after.first >= self.first
        &&& self.is_run_length(drained)
        &&& slides <= full.ordered.len()
        &&& (slides == 0 || full.ordered.len() + 1 >= window_size + slides)
        &&& after == full.slid(slides)
    }

    /// No analysis handed in yet.
    pub open spec fn is_empty_start(self) -> bool {
        &&& self.pending == Map::<usize, T>::empty()
        &&& self.first == 0
        &&& self.ordered.len() == 0
    }
}

/// Re-serializes analyses that finish out of order. Finished analyses are
/// handed in by index; `drain` moves every one that continues the ordered
/// queue without a gap into it. Once the queue holds a full window of
/// analyses, the window centered on its midpoint can be averaged, after which
/// the oldest analysis is discarded.
pub struct Reassembler<T> {
    pending: HashMap<usize, T>,
    ordered: VecDeque<T>,
    first: usize,
    window_size: usize,
}

impl<T> Reassembler<T> {
    pub closed spec fn view(&self) -> ReassemblyView<T> {
        ReassemblyView { pending: self.pending@, first: self.first as nat, ordered: self.ordered@ }
    }

    pub closed spec fn spec_window_size(&self) -> nat {
        self.window_size as nat
    }

    pub closed spec fn wf(&self) -> bool {
        &&& self.first + self.ordered@.len() <= usize::MAX
        &&& forall|k: usize| #[trigger]
            self.pending@.contains_key(k) ==> k >= self.first + self.ordered@.len() && k
                < usize::MAX
    }

    /// An empty reassembler whose averaging windows span `window_size` analyses.
    pub fn new(window_size: usize) -> (r: Self)
        requires
            window_size >= 1,
        ensures
            r.wf(),
            r.view().is_empty_start(),
            r.spec_window_size() == window_size,
    {
        Reassembler { pending: HashMap::new(), ordered: VecDeque::new(), first: 0, window_size }
    }

    /// The index that the ordered queue expects next.
    pub fn next_index(&self) -> (r: usize)
        requires
            self.wf(),
        ensures
            r == self.view().next(),
    {
        self.first + self.ordered.len()
    }

    /// Hands in the finished analysis for `index`. An index that was already
    /// handed in, or that the ordered queue has passed, is refused and its
    /// analysis handed back.
    pub fn insert(&mut self, index: usize, item: T) -> (r: Result<(), T>)
        requires
            old(self).wf(),
        ensures
            final(self).wf(),
            final(self).spec_window_size() == old(self).spec_window_size(),
            final(self).view() == old(self).view().inserted(index, item),
            r is Ok <==> old(self).view().accepts(index),
            r matches Err(back) ==> back == item,
    {
        let next = self.first + self.ordered.len();
        if index < next || index == usize::MAX || self.pending.contains_key(&index) {
            return Err(item);
        }
        self.pending.insert(index, item);
        Ok(())
    }

    /// Moves every pending analysis that continues the ordered queue without a
    /// gap to its end, in index order. Returns how many moved.
    pub fn drain(&mut self) -> (moved: usize)
        requires
            old(self).wf(),
        ensures
            final(self).wf(),
            final(self).spec_window_size() == old(self).spec_window_size(),
            old(self).view().drains_to(final(self).view()),
            moved == final(self).view().ordered.len() - old(self).view().ordered.len(),
    {
        let ghost start = self.view();
        let mut moved: usize = 0;
        assert(start.moved(0).pending =~= start.pending);
        assert(start.moved(0).ordered =~= start.ordered);
        loop
            invariant
                self.wf(),
                self.window_size == old(self).window_size,
                self.first == start.first,
                self.ordered@.len() == start.ordered.len() + moved,
                start.next() + moved <= usize::MAX,
                forall|j: nat| j < moved ==> start.pending.contains_key(#[trigger] ((start.next() + j) as usize)),
                self.view() == start.moved(moved as nat),
            ensures
                !start.pending.contains_key((start.next() + moved) as usize),
            decreases self.pending@.dom().len(),
        {
            let next = self.first + self.ordered.len();
            let ghost before = self.pending@;
            let removed = self.pending.remove(&next);
            match removed {
                Some(item) => {
                    assert(self.pending@ == before.remove(next));
                    assert(start.pending.contains_key(next));
                    self.ordered.push_back(item);
                    moved = moved + 1;
                    proof {
                        let m = moved as nat;
                        assert(self.pending@ =~= start.moved(m).pending);
                        assert(self.ordered@ =~= start.moved(m).ordered);
                    }
                },
                None => {
                    assert(self.pending@ == before.remove(next));
                    assert(before.remove(next) =~= before);
                    assert(!start.pending.contains_key(next)) by {
                        let removed_keys = Set::new(
                            |k: usize| start.next() <= k < start.next() + moved,
                        );
                        assert(!removed_keys.contains(next));
                    }
                    break;
                },
            }
        }
        assert(start.is_run_length(moved as nat));
        assert(self.view().ordered.len() - start.ordered.len() == moved);
        moved
    }

    /// How many analyses the ordered queue holds.
    pub fn ordered_len(&self) -> (r: usize)
        ensures
            r == self.view().ordered.len(),
    {
        self.ordered.len()
    }

    /// Whether the ordered queue holds a full averaging window.
    pub fn window_ready(&self) -> (r: bool)
        ensures
            r == (self.view().ordered.len() >= self.spec_window_size()),
    {
        self.ordered.len() >= self.window_size
    }

    /// The analysis at position `i` of the ordered queue, which is the one for
    /// index `first + i`.
    pub fn entry(&self, i: usize) -> (r: &T)
        requires
            i < self.view().ordered.len(),
        ensures
            *r == self.view().ordered[i as int],
    {
        &self.ordered[i]
    }

    /// The index that the averaging window is tagged with: that of the
    /// analysis at its temporal midpoint.
    pub fn window_center(&self) -> (r: usize)
        requires
            self.wf(),
            self.view().ordered.len() >= self.spec_window_size(),
        ensures
            r == self.view().first + self.spec_window_size() / 2,
    {
        self.first + self.window_size / 2
    }

    /// Discards the oldest analysis once its window has been averaged, which
    /// slides the averaging window forward by one.
    pub fn slide(&mut self) -> (r: T)
        requires
            old(self).wf(),
            old(self).view().ordered.len() >= old(self).spec_window_size(),
            old(self).spec_window_size() >= 1,
        ensures
            final(self).wf(),
            final(self).spec_window_size() == old(self).spec_window_size(),
            r == old(self).view().ordered[0],
            final(self).view() == old(self).view().slid(1),
    {
        let item = self.ordered.pop_front().unwrap();
        self.first = self.first + 1;
        assert(self.ordered@ =~= old(self).ordered@.subrange(1, old(self).ordered@.len() as int));
        item
    }
}

/// The indices handed in during the first `j` steps.
pub open spec fn handed_in(order: Seq<usize>, j: int) -> Set<usize> {
    order.subrange(0, j).to_set()
}

/// Whatever the order in which the analyses `0 .. n` finish, and whichever
/// of the attempts to reassemble and average in between are skipped, a final
/// pass leaves every analysis drained in index order and averages every full
/// window exactly once: the windows averaged are those centered on
/// `window_size / 2, window_size / 2 + 1, ..., n - window_size + window_size / 2`,
/// in that order (each slide averages the window centered on
/// `first + window_size / 2` and then raises `first` by one), so there are
/// `n - window_size + 1` of them; the ordered queue keeps the last
/// `window_size - 1` analyses. With fewer analyses than a window, none is
/// averaged and all stay queued in order.
///
/// `order[j]` is the index handed in at step `j`, `items[i]` the analysis for
/// index `i`, and `states[j + 1]` the state after step `j`: the hand-in,
/// followed or not by a pass of draining and averaging. `states[n + 1]`
/// follows from `states[n]` by a final pass that averages while a full window
/// is queued.
pub proof fn lemma_reassembly_in_order<T>(
    n: nat,
    window_size: nat,
    order: Seq<usize>,
    items: Seq<T>,
    states: Seq<ReassemblyView<T>>,
)
    requires
        n < usize::MAX,
        window_size >= 1,
        order.len() == n,
        items.len() == n,
        states.len() == n + 2,
        order.no_duplicates(),
        forall|j: int| 0 <= j < n ==> #[trigger] order[j] < n,
        states[0].is_empty_start(),
        forall|j: int|
            0 <= j < n ==> {
                let handed = #[trigger] states[j].inserted(order[j], items[order[j] as int]);
                states[j + 1] == handed || handed.averages_to(states[j + 1], window_size)
            },
        states[n as int].averages_to(states[n as int + 1], window_size),
        states[n as int + 1].ordered.len() < window_size,
    ensures
        states[n as int + 1].pending == Map::<usize, T>::empty(),
        states[n as int + 1].next() == n,
        states[n as int + 1].ordered == items.subrange(states[n as int + 1].first as int, n as int),
        n >= window_size ==> states[n as int + 1].first == n - window_size + 1,
        n < window_size ==> states[n as int + 1].first == 0 && states[n as int + 1].ordered == items,
{
    assert forall|j: int| 0 <= j <= n implies reassembly_step_invariant(
        order,
        items,
        window_size,
        #[trigger] states[j],
        j,
    ) by {
        lemma_reassembly_prefix(n, window_size, order, items, states, j);
    }
    let s = states[n as int];
    let after = states[n as int + 1];
    lemma_invariant_after_pass(n, window_size, order, items, s, after, n as int);
    let h = handed_in(order, n as int);
    assert(h =~= Set::new(|k: usize| k < n)) by {
        assert(order.subrange(0, n as int) =~= order);
        assert forall|k: usize| k < n implies order.to_set().contains(k) by {
            lemma_permutation_covers(n, order, k);
        }
    }
    let drained = (after.next() - s.next()) as nat;
    assert(!s.pending.contains_key((s.next() + drained) as usize));
    if after.next() < n {
        let k = after.next() as usize;
        assert(h.contains(k));
        assert(after.pending.contains_key(k));
    }
    assert(after.pending =~= Map::<usize, T>::empty());
    assert(after.ordered =~= items.subrange(after.first as int, n as int));
    if after.first == 0 {
        assert(after.ordered =~= items);
    }
}

/// What holds after each step: the ordered queue holds analyses
/// `first .. next` in order, the pending ones are exactly those handed in
/// beyond it, and once a window has been averaged the queue holds at least
/// all but one analysis of a window.
pub open spec fn reassembly_step_invariant<T>(
    order: Seq<usize>,
    items: Seq<T>,
    window_size: nat,
    s: ReassemblyView<T>,
    j: int,
) -> bool {
    &&& s.next() <= items.len()
    &&& forall|i: int| 0 <= i < s.ordered.len() ==> s.ordered[i] == items[s.first + i]
    &&& forall|k: usize| k < s.next() ==> handed_in(order, j).contains(k)
    &&& forall|k: usize|
        #[trigger] s.pending.contains_key(k) <==> (handed_in(order, j).contains(k) && k >= s.next())
    &&& forall|k: usize| #[trigger] s.pending.contains_key(k) ==> s.pending[k] == items[k as int]
    &&& (s.first == 0 || s.ordered.len() + 1 >= window_size)
}

proof fn lemma_invariant_after_pass<T>(
    n: nat,
    window_size: nat,
    order: Seq<usize>,
    items: Seq<T>,
    handed: ReassemblyView<T>,
    s: ReassemblyView<T>,
    j: int,
)
    requires
        order.len() == n,
        items.len() == n,
        0 <= j <= n,
        forall|m: int| 0 <= m < n ==> #[trigger] order[m] < n,
        reassembly_step_invariant(order, items, window_size, handed, j),
        handed.averages_to(s, window_size),
    ensures
        reassembly_step_invariant(order, items, window_size, s, j),
{
    let h = handed_in(order, j);
    let c = (s.next() - handed.next()) as nat;
    let m = (s.first - handed.first) as nat;
    let d = handed.moved(c);
    assert forall|i: int| 0 <= i < d.ordered.len() implies d.ordered[i] == items[d.first + i] by {
        if i >= handed.ordered.len() {
            let jj = (i - handed.ordered.len()) as nat;
            assert(handed.pending.contains_key((handed.next() + jj) as usize));
        }
    }
    assert forall|i: int| 0 <= i < s.ordered.len() implies s.ordered[i] == items[s.first + i] by {
        assert(s.ordered[i] == d.ordered[m + i]);
    }
    assert forall|k: usize| k < s.next() implies h.contains(k) by {
        if k >= handed.next() {
            let jj = (k - handed.next()) as nat;
            assert(handed.pending.contains_key((handed.next() + jj) as usize));
        }
    }
    assert forall|k: usize| #[trigger] s.pending.contains_key(k) <==> (h.contains(k) && k >= s.next()) by {
        if h.contains(k) && k >= handed.next() && k < s.next() {
            let jj = (k - handed.next()) as nat;
            assert(handed.pending.contains_key((handed.next() + jj) as usize));
        }
    }
    assert forall|k: usize| #[trigger] s.pending.contains_key(k) implies s.pending[k] == items[k as int] by {
        assert(handed.pending.contains_key(k));
    }
    if s.next() > items.len() {
        let k = n as usize;
        assert(h.contains(k));
        let all = order.subrange(0, j);
        let w = choose|w: int| 0 <= w < all.len() && #[trigger] all[w] == k;
        assert(order[w] == k);
    }
}

proof fn lemma_permutation_covers(n: nat, order: Seq<usize>, k: usize)
    requires
        order.len() == n,
        order.no_duplicates(),
        forall|j: int| 0 <= j < n ==> #[trigger] order[j] < n,
        k < n,
        n <= usize::MAX,
    ensures
        order.to_set().contains(k),
{
    let s = order.to_set();
    let full = Set::new(|x: usize| x < n);
    assert(s.subset_of(full));
    order.unique_seq_to_set();
    assert(s.len() == n);
    lemma_usize_range_len(n);
    if !s.contains(k) {
        assert(s.subset_of(full.remove(k)));
        vstd::set_lib::lemma_len_subset(s, full.remove(k));
    }
}

proof fn lemma_usize_range_len(n: nat)
    requires
        n <= usize::MAX,
    ensures
        Set::new(|x: usize| x < n).finite(),
        Set::new(|x: usize| x < n).len() == n,
    decreases n,
{
    let full = Set::new(|x: usize| x < n);
    if n == 0 {
        assert(full =~= Set::empty());
    } else {
        lemma_usize_range_len((n - 1) as nat);
        let smaller = Set::new(|x: usize| x < n - 1);
        assert(full =~= smaller.insert((n - 1) as usize));
    }
}

proof fn lemma_reassembly_prefix<T>(
    n: nat,
    window_size: nat,
    order: Seq<usize>,
    items: Seq<T>,
    states: Seq<ReassemblyView<T>>,
    j: int,
)
    requires
        n < usize::MAX,
        order.len() == n,
        items.len() == n,
        states.len() == n + 2,
        order.no_duplicates(),
        forall|j: int| 0 <= j < n ==> #[trigger] order[j] < n,
        states[0].is_empty_start(),
        forall|j: int|
            0 <= j < n ==> {
                let handed = #[trigger] states[j].inserted(order[j], items[order[j] as int]);
                states[j + 1] == handed || handed.averages_to(states[j + 1], window_size)
            },
        0 <= j <= n,
    ensures
        reassembly_step_invariant(order, items, window_size, states[j], j),
    decreases j,
{
    if j == 0 {
        assert(handed_in(order, 0) =~= Set::empty());
        assert(reassembly_step_invariant(order, items, window_size, states[j], j));
    } else {
        lemma_reassembly_prefix(n, window_size, order, items, states, j - 1);
        let prev = states[j - 1];
        let idx = order[j - 1];
        let handed = prev.inserted(idx, items[idx as int]);
        let h_prev = handed_in(order, j - 1);
        let h = handed_in(order, j);
        assert(order.subrange(0, j) =~= order.subrange(0, j - 1).push(idx));
        assert forall|k: usize| h.contains(k) <==> h_prev.insert(idx).contains(k) by {
            let pre = order.subrange(0, j - 1);
            let all = order.subrange(0, j);
            if h.contains(k) {
                let m = choose|m: int| 0 <= m < all.len() && #[trigger] all[m] == k;
                if m < j - 1 {
                    assert(pre[m] == k);
                }
            }
            if h_prev.contains(k) {
                let m = choose|m: int| 0 <= m < pre.len() && #[trigger] pre[m] == k;
                assert(all[m] == k);
            }
            if k == idx {
                assert(all[j - 1] == k);
            }
        }
        assert(h =~= h_prev.insert(idx));
        assert(!h_prev.contains(idx)) by {
            if h_prev.contains(idx) {
                let m = choose|m: int| 0 <= m < j - 1 && #[trigger] order.subrange(0, j - 1)[m] == idx;
                assert(order[m] == order[j - 1]);
            }
        }
        assert(prev.accepts(idx));
        assert(reassembly_step_invariant(order, items, window_size, handed, j));
        let s = states[j];
        if s != handed {
            lemma_invariant_after_pass(n, window_size, order, items, handed, s, j);
        }
    }
}


} // verus!
