use vstd::prelude::*;
use std::collections::VecDeque;

verus! {

/// Sample `i` of a channel whose first samples are `input`, with silence
/// before its start and after its end.
pub open spec fn padded<T>(input: Seq<T>, silence: T, i: int) -> T {
    if 0 <= i < input.len() {
        input[i]
    } else {
        silence
    }
}

/// The window of `window_size` samples centered on sample `center`: position
/// `p` holds sample `center - window_size / 2 + p`.
pub open spec fn window_at<T>(input: Seq<T>, silence: T, window_size: nat, center: int) -> Seq<T> {
    Seq::new(window_size, |p: int| padded(input, silence, center - window_size / 2 + p))
}

/// A silent input gives only silent windows: when every input sample is the
/// silence value, so is every sample of every window handed out.
pub proof fn lemma_silent_input_silent_windows<T>(input: Seq<T>, silence: T, window_size: nat, center: int)
    requires
        forall|i: int| 0 <= i < input.len() ==> #[trigger] input[i] == silence,
    ensures
        window_at(input, silence, window_size, center) == Seq::new(window_size, |p: int| silence),
{
    assert(window_at(input, silence, window_size, center) =~= Seq::new(window_size, |p: int| silence));
}

/// A sliding pair of per-channel buffers that hands out one overlapping window
/// per input sample, each centered on that sample, advancing one sample at a time.
///
/// The buffers are fed by the caller: `sample_to_read` names the input sample
/// that must be pushed next, and silence is filled in past the end of the input.
pub struct WindowSource<T> {
    left: VecDeque<T>,
    right: VecDeque<T>,
    silence: T,
    window_size: usize,
    len_samples: usize,
    /// Center of the next window handed out.
    next_center: usize,
    /// Index of the next sample (real or silent) appended to the buffers,
    /// counted from the start of the input.
    next_fed: usize,
    /// The input samples pushed so far.
    input_left: Ghost<Seq<T>>,
    input_right: Ghost<Seq<T>>,
}

impl<T: Copy> WindowSource<T> {
    pub closed spec fn spec_window_size(&self) -> nat {
        self.window_size as nat
    }

    pub closed spec fn spec_len_samples(&self) -> nat {
        self.len_samples as nat
    }

    pub closed spec fn spec_next_center(&self) -> nat {
        self.next_center as nat
    }

    pub closed spec fn spec_silence(&self) -> T {
        self.silence
    }

    /// The left samples pushed so far.
    pub closed spec fn spec_input_left(&self) -> Seq<T> {
        self.input_left@
    }

    /// The right samples pushed so far.
    pub closed spec fn spec_input_right(&self) -> Seq<T> {
        self.input_right@
    }

    /// The first index that the buffers hold.
    pub closed spec fn buffer_start(&self) -> int {
        self.next_center - self.window_size / 2
    }

    /// Whether the caller must push an input sample before the next window:
    /// the next window reaches an input sample that has not been pushed yet.
    pub open spec fn spec_needs_input(&self) -> bool {
        let pushed = self.spec_input_left().len();
        &&& self.spec_next_center() < self.spec_len_samples()
        &&& pushed < self.spec_len_samples()
        &&& pushed < self.spec_next_center() - self.spec_window_size() / 2 + self.spec_window_size()
    }

    pub closed spec fn wf(&self) -> bool {
        let start = self.buffer_start();
        &&& self.window_size >= 1
        &&& self.len_samples + self.window_size <= usize::MAX
        &&& self.next_center <= self.len_samples
        &&& start <= self.next_fed <= start + self.window_size
        &&& self.left@.len() == self.next_fed - start
        &&& self.right@.len() == self.next_fed - start
        &&& self.input_left@.len() == if self.next_fed < self.len_samples {
            self.next_fed as nat
        } else {
            self.len_samples as nat
        }
        &&& self.input_right@.len() == self.input_left@.len()
        &&& forall|p: int|
            0 <= p < self.left@.len() ==> #[trigger] self.left@[p] == padded(
                self.input_left@,
                self.silence,
                start + p,
            )
        &&& forall|p: int|
            0 <= p < self.right@.len() ==> #[trigger] self.right@[p] == padded(
                self.input_right@,
                self.silence,
                start + p,
            )
    }

    /// A source for an input of `len_samples` samples per channel. The buffers
    /// start with half a window of silence, so that the first window is
    /// centered on the first sample.
    pub fn new(window_size: usize, len_samples: usize, silence: T) -> (r: Self)
        requires
            window_size >= 1,
            len_samples + window_size <= usize::MAX,
        ensures
            r.wf(),
            r.spec_window_size() == window_size,
            r.spec_len_samples() == len_samples,
            r.spec_next_center() == 0,
            r.spec_silence() == silence,
            r.spec_input_left() == Seq::<T>::empty(),
            r.spec_input_right() == Seq::<T>::empty(),
    {
        let mut left: VecDeque<T> = VecDeque::new();
        let mut right: VecDeque<T> = VecDeque::new();
        let half = window_size / 2;
        let mut i: usize = 0;
        while i < half
            invariant
                i <= half,
                left@.len() == i,
                right@.len() == i,
                forall|p: int| 0 <= p < i ==> #[trigger] left@[p] == silence,
                forall|p: int| 0 <= p < i ==> #[trigger] right@[p] == silence,
            decreases half - i,
        {
            left.push_back(silence);
            right.push_back(silence);
            i = i + 1;
        }
        WindowSource {
            left,
            right,
            silence,
            window_size,
            len_samples,
            next_center: 0,
            next_fed: 0,
            input_left: Ghost(Seq::empty()),
            input_right: Ghost(Seq::empty()),
        }
    }

    /// The number of samples per channel of the input.
    pub fn len_samples(&self) -> (r: usize)
        ensures
            r == self.spec_len_samples(),
    {
        self.len_samples
    }

    /// The index of the input sample that must be pushed before the next
    /// window can be handed out, if any.
    pub fn sample_to_read(&self) -> (r: Option<usize>)
        requires
            self.wf(),
        ensures
            r is Some <==> self.spec_needs_input(),
            r is Some ==> r->0 == self.spec_input_left().len(),
    {
        if self.next_center < self.len_samples && self.next_fed < self.next_center + self.window_size
            - self.window_size / 2 && self.next_fed < self.len_samples {
            Some(self.next_fed)
        } else {
            None
        }
    }

    /// Appends the next input sample of each channel.
    pub fn push_input(&mut self, left: T, right: T)
        requires
            old(self).wf(),
            old(self).spec_needs_input(),
        ensures
            final(self).wf(),
            final(self).spec_window_size() == old(self).spec_window_size(),
            final(self).spec_len_samples() == old(self).spec_len_samples(),
            final(self).spec_next_center() == old(self).spec_next_center(),
            final(self).spec_silence() == old(self).spec_silence(),
            final(self).spec_input_left() == old(self).spec_input_left().push(left),
            final(self).spec_input_right() == old(self).spec_input_right().push(right),
    {
        self.left.push_back(left);
        self.right.push_back(right);
        self.next_fed = self.next_fed + 1;
        self.input_left = Ghost(self.input_left@.push(left));
        self.input_right = Ghost(self.input_right@.push(right));
    }

    /// Hands out the window centered on the next sample, as an owned copy per
    /// channel, and advances by one sample. Past the end of the input the
    /// buffers are filled with silence. `None` once every sample has had its
    /// window.
    pub fn take_window(&mut self) -> (r: Option<(usize, Vec<T>, Vec<T>)>)
        requires
            old(self).wf(),
            !old(self).spec_needs_input(),
        ensures
            final(self).wf(),
            final(self).spec_window_size() == old(self).spec_window_size(),
            final(self).spec_len_samples() == old(self).spec_len_samples(),
            final(self).spec_silence() == old(self).spec_silence(),
            final(self).spec_input_left() == old(self).spec_input_left(),
            final(self).spec_input_right() == old(self).spec_input_right(),
            r is None <==> old(self).spec_next_center() >= old(self).spec_len_samples(),
            r is None ==> final(self).spec_next_center() == old(self).spec_next_center(),
            r matches Some((center, left, right)) ==> {
                &&& center == old(self).spec_next_center()
                &&& final(self).spec_next_center() == center + 1
                &&& left@ == window_at(
                    old(self).spec_input_left(),
                    old(self).spec_silence(),
                    old(self).spec_window_size(),
                    center as int,
                )
                &&& right@ == window_at(
                    old(self).spec_input_right(),
                    old(self).spec_silence(),
                    old(self).spec_window_size(),
                    center as int,
                )
            },
    {
        if self.next_center >= self.len_samples {
            return None;
        }
        let end = self.next_center + self.window_size - self.window_size / 2;
        while self.next_fed < end
            invariant
                self.wf(),
                self.window_size == old(self).window_size,
                self.len_samples == old(self).len_samples,
                self.silence == old(self).silence,
                self.next_center == old(self).next_center,
                self.next_center < self.len_samples,
                end == self.buffer_start() + self.window_size,
                self.next_fed >= self.len_samples || self.next_fed == end,
                self.input_left == old(self).input_left,
                self.input_right == old(self).input_right,
            decreases end - self.next_fed,
        {
            self.left.push_back(self.silence);
            self.right.push_back(self.silence);
            self.next_fed = self.next_fed + 1;
        }
        let left = copy_buffer(&self.left);
        let right = copy_buffer(&self.right);
        let ghost start = self.buffer_start();
        assert(left@ =~= window_at(self.input_left@, self.silence, self.window_size as nat, self.next_center as int));
        assert(right@ =~= window_at(self.input_right@, self.silence, self.window_size as nat, self.next_center as int));
        let center = self.next_center;
        self.left.pop_front();
        self.right.pop_front();
        self.next_center = self.next_center + 1;
        assert forall|p: int| 0 <= p < self.left@.len() implies #[trigger] self.left@[p] == padded(
            self.input_left@, self.silence, self.buffer_start() + p) by {
            assert(self.left@[p] == left@[p + 1]);
        }
        assert forall|p: int| 0 <= p < self.right@.len() implies #[trigger] self.right@[p] == padded(
            self.input_right@, self.silence, self.buffer_start() + p) by {
            assert(self.right@[p] == right@[p + 1]);
        }
        Some((center, left, right))
    }
}

fn copy_buffer<T: Copy>(buffer: &VecDeque<T>) -> (r: Vec<T>)
    ensures
        r@ == buffer@,
{
    let mut r: Vec<T> = Vec::with_capacity(buffer.len());
    let mut i: usize = 0;
    while i < buffer.len()
        invariant
            i <= buffer@.len(),
            r@ == buffer@.subrange(0, i as int),
        decreases buffer@.len() - i,
    {
        r.push(buffer[i]);
        i = i + 1;
    }
    assert(r@ =~= buffer@);
    r
}

} // verus!
