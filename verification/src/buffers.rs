use std::collections::VecDeque;
use vstd::prelude::*;

verus! {

/// State of the two vertex buffers: which one is drawn, how many vertices
/// each holds, whether the other one is ready to be shown, and how many
/// vertices a buffer can hold.
#[derive(Debug, Clone, Copy)]
pub struct BufferInfo {
    pub current_buffer: usize,
    pub vertex_counts: [u32; 2],
    pub swap_ready: bool,
    pub total_capacity: usize,
}

impl BufferInfo {
    /// One of the two buffers is drawn and neither holds more than fits.
    pub open spec fn wf(&self) -> bool {
        &&& self.current_buffer < 2
        &&& self.total_capacity <= u32::MAX
        &&& self.vertex_counts[0] <= self.total_capacity
        &&& self.vertex_counts[1] <= self.total_capacity
    }

    /// Vertices in the drawn buffer.
    pub open spec fn drawn(&self) -> u32 {
        self.vertex_counts[self.current_buffer as int]
    }
}

/// The buffer that is not drawn.
pub open spec fn other_buffer(current: usize) -> usize {
    (1 - current) as usize
}

/// `vertex_len` vertices written to buffer `which`: it holds all of them if
/// they fit, else as many as fit.
pub open spec fn with_count(s: BufferInfo, which: usize, vertex_len: usize) -> BufferInfo {
    let n = if vertex_len <= s.total_capacity {
        vertex_len as u32
    } else {
        s.total_capacity as u32
    };
    BufferInfo {
        vertex_counts: if which == 0 {
            [n, s.vertex_counts[1]]
        } else {
            [s.vertex_counts[0], n]
        },
        ..s
    }
}

/// New geometry of `vertex_len` vertices put in the drawn buffer.
pub open spec fn spec_commit_current(s: BufferInfo, vertex_len: usize) -> BufferInfo {
    with_count(s, s.current_buffer, vertex_len)
}

/// New geometry of `vertex_len` vertices prepared in the other buffer; it is
/// ready to be shown only if it fitted.
pub open spec fn spec_commit_next(s: BufferInfo, vertex_len: usize) -> BufferInfo {
    let t = with_count(s, other_buffer(s.current_buffer), vertex_len);
    if vertex_len <= s.total_capacity {
        BufferInfo { swap_ready: true, ..t }
    } else {
        t
    }
}

/// The buffers exchanged if the other one is ready.
pub open spec fn spec_swap(s: BufferInfo) -> BufferInfo {
    if s.swap_ready {
        BufferInfo { current_buffer: other_buffer(s.current_buffer), swap_ready: false, ..s }
    } else {
        s
    }
}

/// Double buffering of vertex data: which buffer is drawn, what each holds,
/// and when to swap them. The GPU writes themselves are made by the caller
/// when a commit reports that the geometry fitted.
pub struct DoubleBuffer {
    current: usize,
    count0: u32,
    count1: u32,
    swap_ready: bool,
    capacity: usize,
}

impl View for DoubleBuffer {
    type V = BufferInfo;

    closed spec fn view(&self) -> BufferInfo {
        BufferInfo {
            current_buffer: self.current,
            vertex_counts: [self.count0, self.count1],
            swap_ready: self.swap_ready,
            total_capacity: self.capacity,
        }
    }
}

impl DoubleBuffer {
    /// Two empty buffers of `max_vertices` vertices each, the first drawn.
    pub fn new(max_vertices: usize) -> (b: Self)
        requires
            max_vertices <= u32::MAX,
        ensures
            b@.wf(),
            b@.current_buffer == 0,
            b@.vertex_counts[0] == 0,
            b@.vertex_counts[1] == 0,
            !b@.swap_ready,
            b@.total_capacity == max_vertices,
    {
        DoubleBuffer { current: 0, count0: 0, count1: 0, swap_ready: false, capacity: max_vertices }
    }

    /// Index of the drawn buffer.
    pub fn current_buffer(&self) -> (r: usize)
        ensures
            r == self@.current_buffer,
    {
        self.current
    }

    /// Index of the buffer that is not drawn.
    pub fn next_buffer(&self) -> (r: usize)
        requires
            self@.wf(),
        ensures
            r == other_buffer(self@.current_buffer),
    {
        1 - self.current
    }

    /// Number of vertices to draw.
    pub fn draw_count(&self) -> (r: u32)
        requires
            self@.wf(),
        ensures
            r == self@.drawn(),
    {
        if self.current == 0 {
            self.count0
        } else {
            self.count1
        }
    }

    fn set_count(&mut self, which: usize, vertex_len: usize)
        requires
            old(self)@.wf(),
            which < 2,
        ensures
            final(self)@ == with_count(old(self)@, which, vertex_len),
            final(self)@.wf(),
    {
        let n: u32 = if vertex_len <= self.capacity {
            vertex_len as u32
        } else {
            self.capacity as u32
        };
        if which == 0 {
            self.count0 = n;
        } else {
            self.count1 = n;
        }
        proof {
            assert(self@.vertex_counts =~= with_count(old(self)@, which, vertex_len).vertex_counts);
        }
    }

    /// Geometry of `vertex_len` vertices for the drawn buffer: returns whether
    /// it fits (and is to be written); if not, the buffer is counted full.
    pub fn commit_current(&mut self, vertex_len: usize) -> (fits: bool)
        requires
            old(self)@.wf(),
        ensures
            fits == (vertex_len <= old(self)@.total_capacity),
            final(self)@ == spec_commit_current(old(self)@, vertex_len),
            final(self)@.wf(),
    {
        let which = self.current;
        self.set_count(which, vertex_len);
        vertex_len <= self.capacity
    }

    /// Geometry of `vertex_len` vertices for the other buffer: returns whether
    /// it fits (and is to be written); only then is that buffer marked ready.
    pub fn commit_next(&mut self, vertex_len: usize) -> (fits: bool)
        requires
            old(self)@.wf(),
        ensures
            fits == (vertex_len <= old(self)@.total_capacity),
            final(self)@ == spec_commit_next(old(self)@, vertex_len),
            final(self)@.wf(),
    {
        let which = 1 - self.current;
        self.set_count(which, vertex_len);
        let fits = vertex_len <= self.capacity;
        if fits {
            self.swap_ready = true;
        }
        proof {
            assert(self@.vertex_counts =~= spec_commit_next(old(self)@, vertex_len).vertex_counts);
        }
        fits
    }

    /// Show the other buffer if it is ready; returns whether the buffers
    /// were exchanged.
    pub fn swap(&mut self) -> (swapped: bool)
        requires
            old(self)@.wf(),
        ensures
            swapped == old(self)@.swap_ready,
            final(self)@ == spec_swap(old(self)@),
            final(self)@.wf(),
    {
        if self.swap_ready {
            self.current = 1 - self.current;
            self.swap_ready = false;
            proof {
                assert(self@.vertex_counts =~= spec_swap(old(self)@).vertex_counts);
            }
            true
        } else {
            false
        }
    }

    /// The state of the buffers.
    pub fn info(&self) -> (r: BufferInfo)
        ensures
            r == self@,
    {
        BufferInfo {
            current_buffer: self.current,
            vertex_counts: [self.count0, self.count1],
            swap_ready: self.swap_ready,
            total_capacity: self.capacity,
        }
    }
}

/// Geometry prepared in the other buffer is what is drawn after the next
/// swap, capped at what a buffer holds; a swap with nothing prepared changes
/// nothing.
pub proof fn law_prepared_geometry_is_drawn(s: BufferInfo, vertex_len: usize)
    requires
        s.wf(),
    ensures
        vertex_len <= s.total_capacity ==> spec_swap(spec_commit_next(s, vertex_len)).drawn()
            == vertex_len,
        spec_commit_next(s, vertex_len).wf(),
        !s.swap_ready ==> spec_swap(s) == s,
{
}

/// Number of render durations kept.
pub const RENDER_TIME_LOG_CAPACITY: usize = 60;

/// The newest `cap` entries of `s` (all of them when there are fewer).
pub open spec fn newest<T>(s: Seq<T>, cap: nat) -> Seq<T> {
    if s.len() > cap {
        s.subrange(s.len() - cap, s.len() as int)
    } else {
        s
    }
}

/// The most recent entries of a stream of measurements, oldest first.
pub struct RecentLog<T> {
    entries: VecDeque<T>,
    capacity: usize,
}

impl<T> View for RecentLog<T> {
    type V = Seq<T>;

    closed spec fn view(&self) -> Seq<T> {
        self.entries@
    }
}

impl<T> RecentLog<T> {
    pub closed spec fn spec_capacity(&self) -> nat {
        self.capacity as nat
    }

    /// An empty log keeping the newest `capacity` entries.
    pub fn new(capacity: usize) -> (r: Self)
        ensures
            r@ == Seq::<T>::empty(),
            r.spec_capacity() == capacity,
    {
        RecentLog { entries: VecDeque::new(), capacity }
    }

    /// An empty log of render durations.
    pub fn render_times() -> (r: Self)
        ensures
            r@ == Seq::<T>::empty(),
            r.spec_capacity() == RENDER_TIME_LOG_CAPACITY,
    {
        Self::new(RENDER_TIME_LOG_CAPACITY)
    }

    /// Record `entry`, dropping the oldest one when more than the capacity
    /// would be kept.
    pub fn push(&mut self, entry: T)
        requires
            old(self)@.len() <= old(self).spec_capacity(),
        ensures
            final(self)@ == newest(old(self)@.push(entry), old(self).spec_capacity()),
            final(self).spec_capacity() == old(self).spec_capacity(),
            final(self)@.len() <= final(self).spec_capacity(),
    {
        let ghost pushed = self.entries@.push(entry);
        self.entries.push_back(entry);
        if self.entries.len() > self.capacity {
            let _ = self.entries.pop_front();
            proof {
                assert(self.entries@ =~= pushed.subrange(pushed.len() - self.capacity, pushed.len() as int));
            }
        }
    }

    /// Number of entries kept.
    pub fn len(&self) -> (n: usize)
        ensures
            n == self@.len(),
    {
        self.entries.len()
    }

    /// Whether nothing was recorded.
    pub fn is_empty(&self) -> (b: bool)
        ensures
            b == (self@.len() == 0),
    {
        self.entries.len() == 0
    }

    /// The oldest entry kept.
    pub fn oldest(&self) -> (r: Option<&T>)
        ensures
            r is None <==> self@.len() == 0,
            r matches Some(e) ==> *e == self@[0],
    {
        if self.entries.len() == 0 {
            None
        } else {
            Some(&self.entries[0])
        }
    }

    /// The entries kept, oldest first.
    pub fn entries(&self) -> (r: &VecDeque<T>)
        ensures
            r@ == self@,
    {
        &self.entries
    }
}

/// A log keeps exactly the newest entries pushed into it, never more than
/// its capacity: pushing one entry at a time gives what keeping the newest
/// of all pushes gives.
pub proof fn law_recent_log_keeps_newest<T>(s: Seq<T>, e: T, cap: nat)
    requires
        cap > 0,
    ensures
        newest(newest(s, cap).push(e), cap) == newest(s.push(e), cap),
        newest(s.push(e), cap).len() <= cap,
        newest(s.push(e), cap).last() == e,
{
    let a = newest(s, cap).push(e);
    let b = s.push(e);
    assert(newest(a, cap) =~= newest(b, cap));
}

} // verus!
