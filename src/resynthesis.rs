use vstd::prelude::*;
use crate::reassembly::{Reassembler, ReassemblyView};

verus! {

/// The center index of the first averaged window, with windows of
/// `window_size` samples.
pub open spec fn first_center(window_size: nat) -> nat {
    window_size / 2
}

/// The center index of the last averaged window: averaging needs a full
/// window of analyses, so the last one is centered `window_size / 2` after
/// the analysis at `len - window_size`.
pub open spec fn last_center(len: nat, window_size: nat) -> int {
    len - window_size + window_size / 2
}

/// Whether the window centered on `center` writes sample `s`: every window
/// writes its own center, the first also the half before it, the last also
/// the half after it.
pub open spec fn emits(len: nat, window_size: nat, center: int, s: int) -> bool {
    ||| s == center
    ||| (center == first_center(window_size) && 0 <= s < center)
    ||| (center == last_center(len, window_size) && center < s < len)
}

/// The first sample that the window centered on `center` writes.
pub open spec fn emission_start(window_size: nat, center: int) -> int {
    if center == first_center(window_size) {
        0
    } else {
        center
    }
}

/// One past the last sample that the window centered on `center` writes.
pub open spec fn emission_end(len: nat, window_size: nat, center: int) -> int {
    if center == last_center(len, window_size) {
        len as int
    } else {
        center + 1
    }
}

/// How many samples the windows centered from the first one up to `center`
/// write together.
pub open spec fn samples_written_through(len: nat, window_size: nat, center: int) -> int
    decreases center - first_center(window_size),
{
    if center < first_center(window_size) {
        0
    } else if center == first_center(window_size) {
        emission_end(len, window_size, center) - emission_start(window_size, center)
    } else {
        samples_written_through(len, window_size, center - 1) + emission_end(len, window_size, center)
            - emission_start(window_size, center)
    }
}

/// The averaged windows of an input of at least one window write, all
/// together, exactly as many samples as the input holds.
pub proof fn lemma_samples_written_total(len: nat, window_size: nat)
    requires
        window_size >= 1,
        len >= window_size,
    ensures
        samples_written_through(len, window_size, last_center(len, window_size)) == len,
{
    lemma_samples_written_through(len, window_size, last_center(len, window_size));
}

proof fn lemma_samples_written_through(len: nat, window_size: nat, center: int)
    requires
        window_size >= 1,
        len >= window_size,
        first_center(window_size) <= center <= last_center(len, window_size),
    ensures
        samples_written_through(len, window_size, center) == emission_end(len, window_size, center),
    decreases center - first_center(window_size),
{
    if center > first_center(window_size) {
        lemma_samples_written_through(len, window_size, center - 1);
    }
}

/// The one window that writes sample `s`.
pub open spec fn emitter(len: nat, window_size: nat, s: int) -> int {
    if s < first_center(window_size) {
        first_center(window_size) as int
    } else if s > last_center(len, window_size) {
        last_center(len, window_size)
    } else {
        s
    }
}

/// The run of samples that one resynthesized window writes: the samples
/// `first_sample .. first_sample + count`, read from the window starting at
/// `first_position`.
#[derive(Clone, Copy, Debug, PartialEq, Eq, Structural)]
pub struct Emission {
    pub first_sample: usize,
    pub first_position: usize,
    pub count: usize,
}

/// Which samples the window centered on `center` writes, and from where in
/// the window. Position `p` of that window holds sample `center - window_size / 2 + p`.
pub fn emission(center: usize, len: usize, window_size: usize) -> (r: Emission)
    requires
        window_size >= 1,
        len >= window_size,
        first_center(window_size as nat) <= center <= last_center(len as nat, window_size as nat),
    ensures
        r.count >= 1,
        r.first_position + r.count <= window_size,
        r.first_sample + r.count <= len,
        r.first_position == r.first_sample - center + window_size / 2,
        r.first_sample == emission_start(window_size as nat, center as int),
        r.first_sample + r.count == emission_end(len as nat, window_size as nat, center as int),
        forall|s: int|
            #![trigger emits(len as nat, window_size as nat, center as int, s)]
            0 <= s < len ==> (emits(len as nat, window_size as nat, center as int, s) <==> (
            r.first_sample <= s < r.first_sample + r.count)),
{
    let midpoint = window_size / 2;
    let last = len - window_size + midpoint;
    let first_sample = if center == midpoint { 0 } else { center };
    let end = if center == last { len } else { center + 1 };
    Emission { first_sample, first_position: first_sample + midpoint - center, count: end - first_sample }
}

/// Every sample of an input of at least one window is written by exactly one
/// averaged window, so the samples written number exactly the input's length:
/// none is missed and none is written twice.
pub proof fn lemma_each_sample_written_once(len: nat, window_size: nat, s: int)
    requires
        window_size >= 1,
        len >= window_size,
        0 <= s < len,
    ensures
        first_center(window_size) <= emitter(len, window_size, s) <= last_center(len, window_size),
        emits(len, window_size, emitter(len, window_size, s), s),
        forall|c: int|
            first_center(window_size) <= c <= last_center(len, window_size) && #[trigger] emits(
                len,
                window_size,
                c,
                s,
            ) ==> c == emitter(len, window_size, s),
{
}

/// The output file and the offset in it of sample `index`, with at most
/// `max_samples_in_file` samples to a file.
pub fn output_location(index: usize, max_samples_in_file: usize) -> (r: (usize, usize))
    requires
        max_samples_in_file > 0,
    ensures
        r.0 == index / max_samples_in_file,
        r.1 == index % max_samples_in_file,
{
    (index / max_samples_in_file, index % max_samples_in_file)
}

/// How many output files hold `total` samples.
pub open spec fn file_count(total: nat, cap: nat) -> nat {
    if total == 0 { 0 } else { ((total - 1) as nat / cap) + 1 }
}

/// How many samples file `i` holds.
pub open spec fn file_length(total: nat, cap: nat, i: nat) -> nat {
    if total >= (i + 1) * cap { cap } else { (total - i * cap) as nat }
}

/// The number of samples in each output file when `total` samples are split
/// into files of at most `max_samples_in_file` samples.
pub fn output_file_lengths(total: usize, max_samples_in_file: usize) -> (r: Vec<usize>)
    requires
        max_samples_in_file > 0,
    ensures
        r@.len() == file_count(total as nat, max_samples_in_file as nat),
        forall|i: int|
            0 <= i < r@.len() ==> r@[i] == file_length(
                total as nat,
                max_samples_in_file as nat,
                i as nat,
            ),
{
    let mut r: Vec<usize> = Vec::new();
    let mut remaining: usize = total;
    assert(0 * max_samples_in_file == 0) by (nonlinear_arith);
    while remaining > 0
        invariant
            max_samples_in_file > 0,
            remaining <= total,
            remaining > 0 ==> total - remaining == r@.len() * max_samples_in_file,
            remaining > 0 ==> r@.len() < file_count(total as nat, max_samples_in_file as nat),
            remaining == 0 ==> r@.len() == file_count(total as nat, max_samples_in_file as nat),
            forall|i: int|
                0 <= i < r@.len() ==> r@[i] == file_length(
                    total as nat,
                    max_samples_in_file as nat,
                    i as nat,
                ),
        decreases remaining,
    {
        let n = if remaining > max_samples_in_file { max_samples_in_file } else { remaining };
        proof {
            let k = r@.len();
            lemma_file_count_step(total as nat, max_samples_in_file as nat, k, remaining as nat);
        }
        r.push(n);
        remaining = remaining - n;
        assert(remaining > 0 ==> total - remaining == r@.len() * max_samples_in_file) by (nonlinear_arith)
            requires
                remaining > 0 ==> n == max_samples_in_file,
                total - (remaining + n) == (r@.len() - 1) * max_samples_in_file;
    }
    r
}

/// Every sample index below the total lands in an existing file, at an offset
/// within that file's length.
pub proof fn lemma_location_within_files(total: nat, cap: nat, index: nat)
    requires
        cap > 0,
        index < total,
    ensures
        index / cap < file_count(total, cap),
        index % cap < file_length(total, cap, index / cap),
{
    let f = index / cap;
    let o = index % cap;
    assert(index == f * cap + o && o < cap) by (nonlinear_arith)
        requires f == index / cap, o == index % cap, cap > 0;
    assert((f + 1) * cap == f * cap + cap) by (nonlinear_arith);
    let q = ((total - 1) as nat) / cap;
    assert(f <= q) by (nonlinear_arith)
        requires q == ((total - 1) as nat) / cap, f == index / cap, index <= total - 1, cap > 0;
    if total < (f + 1) * cap {
        assert(f * cap <= index);
    }
}

/// Splitting two and a half files' worth of samples gives three files: two
/// full ones and one holding half a file.
pub proof fn lemma_two_and_a_half_files(cap: nat)
    requires
        cap > 0,
        cap % 2 == 0,
    ensures
        file_count(2 * cap + cap / 2, cap) == 3,
        file_length(2 * cap + cap / 2, cap, 0) == cap,
        file_length(2 * cap + cap / 2, cap, 1) == cap,
        file_length(2 * cap + cap / 2, cap, 2) == cap / 2,
{
    let total = 2 * cap + cap / 2;
    assert(((total - 1) as nat) / cap == 2) by (nonlinear_arith)
        requires total == 2 * cap + cap / 2, cap > 0, cap % 2 == 0;
    assert((0 + 1) * cap == cap && (1 + 1) * cap == 2 * cap && (2 + 1) * cap == 3 * cap
        && 2 * cap == cap * 2) by (nonlinear_arith);
    assert(cap / 2 < cap);
}

proof fn lemma_file_count_step(total: nat, cap: nat, k: nat, remaining: nat)
    requires
        cap > 0,
        remaining > 0,
        total - remaining == k * cap,
        remaining <= total,
    ensures
        k < file_count(total, cap),
        file_length(total, cap, k) == if remaining > cap { cap } else { remaining },
        remaining > cap ==> k + 1 < file_count(total, cap),
        remaining <= cap ==> k + 1 == file_count(total, cap),
{
    assert((k + 1) * cap == k * cap + cap) by (nonlinear_arith);
    let q = ((total - 1) as nat) / cap;
    assert(total - 1 == k * cap + (remaining - 1));
    if remaining > cap {
        assert(total - 1 >= (k + 1) * cap);
        assert(q >= k + 1) by (nonlinear_arith)
            requires q == ((total - 1) as nat) / cap, total - 1 >= (k + 1) * cap, cap > 0;
    } else {
        assert(q == k) by (nonlinear_arith)
            requires q == ((total - 1) as nat) / cap, total - 1 == k * cap + (remaining - 1),
                remaining - 1 < cap, cap > 0, remaining >= 1;
    }
}

} // verus!

verus! {

/// Bookkeeping of the writer: which averaged window is written next, how
/// many samples have been written, and where each sample goes.
///
/// Windows are written in the order of their centers, each writing the run
/// of samples that [`emission`] gives; once the last is written every input
/// sample has been written exactly once.
pub struct WritePlan {
    len_samples: usize,
    window_size: usize,
    max_samples_in_file: usize,
    next_center: usize,
    total_samples_written: usize,
}

impl WritePlan {
    pub closed spec fn spec_len_samples(&self) -> nat {
        self.len_samples as nat
    }

    pub closed spec fn spec_window_size(&self) -> nat {
        self.window_size as nat
    }

    pub closed spec fn spec_max_samples_in_file(&self) -> nat {
        self.max_samples_in_file as nat
    }

    /// The center of the window that is written next.
    pub closed spec fn spec_next_center(&self) -> nat {
        self.next_center as nat
    }

    pub closed spec fn spec_total_samples_written(&self) -> nat {
        self.total_samples_written as nat
    }

    pub closed spec fn wf(&self) -> bool {
        &&& self.window_size >= 1
        &&& self.max_samples_in_file > 0
        &&& first_center(self.window_size as nat) <= self.next_center
        &&& self.len_samples >= self.window_size ==> {
            &&& self.next_center <= last_center(self.len_samples as nat, self.window_size as nat) + 1
            &&& self.total_samples_written == samples_written_through(
                self.len_samples as nat,
                self.window_size as nat,
                self.next_center - 1,
            )
        }
        &&& self.len_samples < self.window_size ==> self.total_samples_written == 0
    }

    /// A plan for an input of `len_samples` samples, analysed in windows of
    /// `window_size` samples, written to files of at most
    /// `max_samples_in_file` samples.
    pub fn new(len_samples: usize, window_size: usize, max_samples_in_file: usize) -> (r: Self)
        requires
            window_size >= 1,
            max_samples_in_file > 0,
        ensures
            r.wf(),
            r.spec_len_samples() == len_samples,
            r.spec_window_size() == window_size,
            r.spec_max_samples_in_file() == max_samples_in_file,
            r.spec_next_center() == first_center(window_size as nat),
            r.spec_total_samples_written() == 0,
    {
        WritePlan {
            len_samples,
            window_size,
            max_samples_in_file,
            next_center: window_size / 2,
            total_samples_written: 0,
        }
    }

    /// How many samples have been written so far.
    pub fn get_total_samples_written(&self) -> (r: usize)
        ensures
            r == self.spec_total_samples_written(),
    {
        self.total_samples_written
    }

    /// The samples that the window centered on `center` writes, when it is
    /// the one due; `None`, with nothing changed, for any other window.
    pub fn write_window(&mut self, center: usize) -> (r: Option<Emission>)
        requires
            old(self).wf(),
        ensures
            final(self).wf(),
            final(self).spec_len_samples() == old(self).spec_len_samples(),
            final(self).spec_window_size() == old(self).spec_window_size(),
            final(self).spec_max_samples_in_file() == old(self).spec_max_samples_in_file(),
            r is Some <==> (old(self).spec_len_samples() >= old(self).spec_window_size() && center
                == old(self).spec_next_center() && center <= last_center(
                old(self).spec_len_samples(),
                old(self).spec_window_size(),
            )),
            r is None ==> *final(self) == *old(self),
            r matches Some(e) ==> {
                &&& final(self).spec_next_center() == center + 1
                &&& e.first_sample == emission_start(old(self).spec_window_size(), center as int)
                &&& e.first_sample + e.count == emission_end(
                    old(self).spec_len_samples(),
                    old(self).spec_window_size(),
                    center as int,
                )
                &&& e.first_position == e.first_sample - center + old(self).spec_window_size() / 2
                &&& final(self).spec_total_samples_written() == old(self).spec_total_samples_written()
                    + e.count
            },
    {
        if self.len_samples < self.window_size || center != self.next_center || center
            > self.len_samples - self.window_size + self.window_size / 2 {
            return None;
        }
        let e = emission(center, self.len_samples, self.window_size);
        proof {
            lemma_samples_written_through(
                self.len_samples as nat,
                self.window_size as nat,
                center as int,
            );
        }
        self.total_samples_written = self.total_samples_written + e.count;
        self.next_center = center + 1;
        Some(e)
    }

    /// Whether every window has been written; then every sample of the input
    /// has been written once.
    pub fn is_complete(&self) -> (r: bool)
        requires
            self.wf(),
        ensures
            r <==> (self.spec_len_samples() < self.spec_window_size() || self.spec_next_center()
                > last_center(self.spec_len_samples(), self.spec_window_size())),
            r && self.spec_len_samples() >= self.spec_window_size() ==> self.spec_total_samples_written()
                == self.spec_len_samples(),
    {
        if self.len_samples < self.window_size {
            return true;
        }
        let done = self.next_center > self.len_samples - self.window_size + self.window_size / 2;
        proof {
            if done {
                lemma_samples_written_total(self.len_samples as nat, self.window_size as nat);
            }
        }
        done
    }

    /// The output file and the offset in it of sample `index`.
    pub fn locate(&self, index: usize) -> (r: (usize, usize))
        requires
            self.wf(),
        ensures
            r.0 == index as nat / self.spec_max_samples_in_file(),
            r.1 == index as nat % self.spec_max_samples_in_file(),
    {
        output_location(index, self.max_samples_in_file)
    }
}

} // verus!

verus! {

/// Steered windows finish out of order; this puts them back in the order of
/// their centers and hands each out with the run of samples it writes.
pub struct OrderedWriter<T> {
    windows: Reassembler<T>,
    plan: WritePlan,
}

impl<T> OrderedWriter<T> {
    /// The windows that wait, keyed by `center - window_size / 2`.
    pub closed spec fn windows(&self) -> ReassemblyView<T> {
        self.windows.view()
    }

    /// The writer's bookkeeping.
    pub closed spec fn plan(&self) -> WritePlan {
        self.plan
    }

    /// Whether a window centered on `center` is one of the averaged windows
    /// of the input.
    pub open spec fn spec_is_window(&self, center: int) -> bool {
        let len = self.plan().spec_len_samples();
        let ws = self.plan().spec_window_size();
        &&& len >= ws
        &&& first_center(ws) <= center <= last_center(len, ws)
    }

    pub closed spec fn wf(&self) -> bool {
        let len = self.plan.spec_len_samples();
        let ws = self.plan.spec_window_size();
        let half = ws / 2;
        &&& self.windows.wf()
        &&& self.plan.wf()
        &&& self.windows.spec_window_size() == 1
        &&& len >= ws ==> {
            &&& self.plan.spec_next_center() == self.windows.view().first + half
            &&& self.windows.view().next() + half <= last_center(len, ws) + 1
            &&& forall|k: usize| #[trigger]
                self.windows.view().pending.contains_key(k) ==> k + half <= last_center(len, ws)
        }
        &&& len < ws ==> self.windows.view().is_empty_start()
    }

    /// A writer for an input of `len_samples` samples, analysed in windows of
    /// `window_size` samples, written to files of at most
    /// `max_samples_in_file` samples.
    pub fn new(len_samples: usize, window_size: usize, max_samples_in_file: usize) -> (r: Self)
        requires
            window_size >= 1,
            max_samples_in_file > 0,
        ensures
            r.wf(),
            r.windows().is_empty_start(),
            r.plan().spec_len_samples() == len_samples,
            r.plan().spec_window_size() == window_size,
            r.plan().spec_max_samples_in_file() == max_samples_in_file,
            r.plan().spec_total_samples_written() == 0,
    {
        OrderedWriter {
            windows: Reassembler::new(1),
            plan: WritePlan::new(len_samples, window_size, max_samples_in_file),
        }
    }

    /// Hands in the steered window centered on `center`. A center that is
    /// not one of the input's averaged windows, or that was already handed
    /// in, is refused and the window handed back.
    pub fn submit(&mut self, center: usize, item: T) -> (r: Result<(), T>)
        requires
            old(self).wf(),
        ensures
            final(self).wf(),
            final(self).plan() == old(self).plan(),
            r is Ok <==> (old(self).spec_is_window(center as int) && old(self).windows().accepts(
                (center - old(self).plan().spec_window_size() / 2) as usize,
            )),
            r is Ok ==> old(self).windows().inserted(
                (center - old(self).plan().spec_window_size() / 2) as usize,
                item,
            ).drains_to(final(self).windows()),
            r matches Err(back) ==> back == item && final(self).windows() == old(self).windows(),
    {
        let len = self.plan.len_samples;
        let ws = self.plan.window_size;
        if len < ws || center < ws / 2 || center > len - ws + ws / 2 {
            return Err(item);
        }
        let key = center - ws / 2;
        match self.windows.insert(key, item) {
            Err(back) => Err(back),
            Ok(()) => {
                let ghost handed = self.windows.view();
                let moved = self.windows.drain();
                proof {
                    let half = (ws / 2) as nat;
                    let last = last_center(len as nat, ws as nat);
                    if moved > 0 {
                        let j = (moved - 1) as nat;
                        assert(handed.pending.contains_key((handed.next() + j) as usize));
                    }
                    assert forall|k: usize| #[trigger]
                        self.windows.view().pending.contains_key(k) implies k + half <= last by {
                        assert(handed.pending.contains_key(k));
                    }
                }
                Ok(())
            },
        }
    }

    /// The next window in order of centers, if it has been handed in, with
    /// the run of samples it writes; the plan counts them as written.
    pub fn next_ready(&mut self) -> (r: Option<(usize, T, Emission)>)
        requires
            old(self).wf(),
        ensures
            final(self).wf(),
            r is Some <==> old(self).windows().ordered.len() > 0,
            r is None ==> *final(self) == *old(self),
            r matches Some((center, item, e)) ==> {
                let ws = old(self).plan().spec_window_size();
                let len = old(self).plan().spec_len_samples();
                &&& center == old(self).windows().first + ws / 2
                &&& item == old(self).windows().ordered[0]
                &&& e.first_sample == emission_start(ws, center as int)
                &&& e.first_sample + e.count == emission_end(len, ws, center as int)
                &&& e.first_position == e.first_sample - center + ws / 2
                &&& final(self).plan().spec_total_samples_written()
                    == old(self).plan().spec_total_samples_written() + e.count
                &&& final(self).plan().spec_len_samples() == len
                &&& final(self).plan().spec_window_size() == ws
                &&& final(self).plan().spec_max_samples_in_file()
                    == old(self).plan().spec_max_samples_in_file()
                &&& final(self).windows() == old(self).windows().slid(1)
            },
    {
        if !self.windows.window_ready() {
            return None;
        }
        let center = self.windows.next_index() - self.windows.ordered_len() + self.plan.window_size
            / 2;
        let item = self.windows.slide();
        let e = self.plan.write_window(center).unwrap();
        Some((center, item, e))
    }

    /// How many samples the windows handed out so far write.
    pub fn get_total_samples_written(&self) -> (r: usize)
        ensures
            r == self.plan().spec_total_samples_written(),
    {
        self.plan.get_total_samples_written()
    }

    /// Whether every window has been handed out; then every sample of an
    /// input of at least one window has been written once.
    pub fn is_complete(&self) -> (r: bool)
        requires
            self.wf(),
        ensures
            r <==> (self.plan().spec_len_samples() < self.plan().spec_window_size()
                || self.plan().spec_next_center() > last_center(
                self.plan().spec_len_samples(),
                self.plan().spec_window_size(),
            )),
            r && self.plan().spec_len_samples() >= self.plan().spec_window_size() ==> self.plan().spec_total_samples_written()
                == self.plan().spec_len_samples(),
    {
        self.plan.is_complete()
    }

    /// The output file and the offset in it of sample `index`.
    pub fn locate(&self, index: usize) -> (r: (usize, usize))
        requires
            self.wf(),
        ensures
            r.0 == index as nat / self.plan().spec_max_samples_in_file(),
            r.1 == index as nat % self.plan().spec_max_samples_in_file(),
    {
        self.plan.locate(index)
    }
}

} // verus!
