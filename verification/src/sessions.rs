//! The running sessions of a kind (pings, traceroutes, continuous traces),
//! one per target, and the writer that batches the samples of continuous
//! traces before they are stored.
use vstd::prelude::*;

verus! {

/// The sessions that run, by target; a target has at most one.
pub struct SessionRegistry<T> {
    entries: Vec<(String, T)>,
}

/// The targets of the entries, as texts.
pub open spec fn entry_targets<T>(es: Seq<(String, T)>) -> Seq<Seq<char>> {
    es.map_values(|e: (String, T)| e.0@)
}

/// The entries as (target text, information) pairs.
pub open spec fn entry_views<T>(es: Seq<(String, T)>) -> Seq<(Seq<char>, T)> {
    es.map_values(|e: (String, T)| (e.0@, e.1))
}

impl<T> SessionRegistry<T> {
    /// The targets that have a running session, in the order they started.
    pub closed spec fn targets(&self) -> Seq<Seq<char>> {
        entry_targets(self.entries@)
    }

    /// The running sessions: each target with its information, in the order
    /// they started.
    pub closed spec fn sessions(&self) -> Seq<(Seq<char>, T)> {
        entry_views(self.entries@)
    }

    /// The targets are those of the sessions, in order.
    pub proof fn lemma_targets_of_sessions(&self)
        ensures
            self.targets().len() == self.sessions().len(),
            forall|i: int| 0 <= i < self.targets().len() ==> #[trigger] self.targets()[i] == self.sessions()[i].0,
    {
    }

    /// No target has two sessions.
    pub closed spec fn wf(&self) -> bool {
        self.targets().no_duplicates()
    }

    /// No session runs.
    pub fn new() -> (r: SessionRegistry<T>)
        ensures
            r.wf(),
            r.targets() == Seq::<Seq<char>>::empty(),
            r.sessions() == Seq::<(Seq<char>, T)>::empty(),
    {
        let r = SessionRegistry { entries: Vec::new() };
        assert(r.targets() =~= Seq::<Seq<char>>::empty());
        assert(r.sessions() =~= Seq::<(Seq<char>, T)>::empty());
        r
    }

    /// The index of `target`'s session.
    fn position(&self, target: &str) -> (r: Option<usize>)
        ensures
            match r {
                Some(i) => i < self.targets().len() && self.targets()[i as int] == target@,
                None => !self.targets().contains(target@),
            },
    {
        let mut i: usize = 0;
        while i < self.entries.len()
            invariant
                i <= self.entries@.len(),
                forall|k: int| 0 <= k < i ==> #[trigger] self.targets()[k] != target@,
            decreases self.entries@.len() - i,
        {
            assert(self.targets()[i as int] == self.entries@[i as int].0@);
            if crate::text::text_eq(self.entries[i].0.as_str(), target) {
                return Some(i);
            }
            i = i + 1;
        }
        None
    }

    /// Whether `target` has a running session.
    pub fn is_running(&self, target: &str) -> (r: bool)
        ensures
            r == self.targets().contains(target@),
    {
        self.position(target).is_some()
    }

    /// Registers a session for `target` unless one runs already: `false`
    /// and no change then; otherwise `true`, with the target added last.
    pub fn register(&mut self, target: String, info: T) -> (r: bool)
        requires
            old(self).wf(),
        ensures
            final(self).wf(),
            r == !old(self).targets().contains(target@),
            r ==> final(self).targets() == old(self).targets().push(target@),
            r ==> final(self).sessions() == old(self).sessions().push((target@, info)),
            !r ==> final(self).targets() == old(self).targets(),
            !r ==> final(self).sessions() == old(self).sessions(),
    {
        if self.position(target.as_str()).is_some() {
            return false;
        }
        let ghost before = self.targets();
        let ghost sbefore = self.sessions();
        let ghost tv = target@;
        self.entries.push((target, info));
        assert(self.targets() =~= before.push(tv));
        assert(self.sessions() =~= sbefore.push((tv, info)));
        proof {
            assert forall|a: int, b: int| 0 <= a < b < self.targets().len() implies self.targets()[a]
                != self.targets()[b] by {
                if b == before.len() {
                    assert(before[a] == self.targets()[a]);
                }
            }
        }
        true
    }

    /// Ends the session of `target`, handing back its information; `None`
    /// when it has none. Afterwards the target has no session and the
    /// others keep theirs, in order.
    pub fn remove(&mut self, target: &str) -> (r: Option<T>)
        requires
            old(self).wf(),
        ensures
            final(self).wf(),
            r is Some == old(self).targets().contains(target@),
            !final(self).targets().contains(target@),
            final(self).targets() == without(old(self).targets(), target@),
            r is None ==> final(self).sessions() == old(self).sessions(),
            r matches Some(x) ==> exists|i: int|
                0 <= i < old(self).sessions().len() && #[trigger] old(self).sessions()[i] == (target@, x)
                    && final(self).sessions() == old(self).sessions().remove(i),
    {
        let ghost before = self.targets();
        let ghost sbefore = self.sessions();
        match self.position(target) {
            None => {
                assert(without(before, target@) == before) by {
                    lemma_filter_absent(before, target@);
                }
                None
            },
            Some(i) => {
                let ghost ebefore = self.entries@;
                let (_t, info) = self.entries.remove(i);
                let ghost after = self.targets();
                assert(after =~= before.remove(i as int));
                assert(self.sessions() =~= sbefore.remove(i as int));
                assert(sbefore[i as int] == (ebefore[i as int].0@, ebefore[i as int].1));
                assert(before[i as int] == ebefore[i as int].0@);
                assert(sbefore[i as int] == (target@, info));
                proof {
                    lemma_filter_unique(before, target@, i as int);
                    assert forall|a: int, b: int| 0 <= a < b < after.len() implies after[a] != after[b] by {
                        let a2 = if a < i { a } else { a + 1 };
                        let b2 = if b < i { b } else { b + 1 };
                        assert(after[a] == before[a2]);
                        assert(after[b] == before[b2]);
                    }
                    assert(!after.contains(target@)) by {
                        if after.contains(target@) {
                            let k = choose|k: int| 0 <= k < after.len() && after[k] == target@;
                            let k2 = if k < i { k } else { k + 1 };
                            assert(before[k2] == target@);
                        }
                    }
                }
                Some(info)
            },
        }
    }

    /// Ends all sessions, handing back each target with its information, in
    /// the order they started.
    pub fn take_all(&mut self) -> (r: Vec<(String, T)>)
        ensures
            entry_targets(r@) == old(self).targets(),
            entry_views(r@) == old(self).sessions(),
            final(self).targets() == Seq::<Seq<char>>::empty(),
            final(self).sessions() == Seq::<(Seq<char>, T)>::empty(),
            final(self).wf(),
    {
        let mut taken: Vec<(String, T)> = Vec::new();
        std::mem::swap(&mut taken, &mut self.entries);
        assert(self.targets() =~= Seq::<Seq<char>>::empty());
        assert(self.sessions() =~= Seq::<(Seq<char>, T)>::empty());
        taken
    }

    /// The number of running sessions.
    pub fn len(&self) -> (r: usize)
        ensures
            r == self.targets().len(),
    {
        self.entries.len()
    }
}

/// `s` without the occurrences of `x`, in order.
pub open spec fn without(s: Seq<Seq<char>>, x: Seq<char>) -> Seq<Seq<char>>
    decreases s.len(),
{
    if s.len() == 0 {
        s
    } else if s.last() == x {
        without(s.drop_last(), x)
    } else {
        without(s.drop_last(), x).push(s.last())
    }
}

/// Removing what is absent changes nothing.
proof fn lemma_filter_absent(s: Seq<Seq<char>>, x: Seq<char>)
    requires
        !s.contains(x),
    ensures
        without(s, x) == s,
    decreases s.len(),
{
    if s.len() > 0 {
        assert(!s.drop_last().contains(x)) by {
            if s.drop_last().contains(x) {
                let k = choose|k: int| 0 <= k < s.drop_last().len() && s.drop_last()[k] == x;
                assert(s[k] == x);
            }
        }
        lemma_filter_absent(s.drop_last(), x);
        assert(s.last() != x) by {
            assert(s[s.len() - 1] == s.last());
        }
        assert(s.drop_last().push(s.last()) =~= s);
    }
}

/// Removing the one occurrence at `i` is filtering it out.
proof fn lemma_filter_unique(s: Seq<Seq<char>>, x: Seq<char>, i: int)
    requires
        s.no_duplicates(),
        0 <= i < s.len(),
        s[i] == x,
    ensures
        without(s, x) == s.remove(i),
    decreases s.len(),
{
    if i == s.len() - 1 {
        assert(!s.drop_last().contains(x)) by {
            if s.drop_last().contains(x) {
                let k = choose|k: int| 0 <= k < s.drop_last().len() && s.drop_last()[k] == x;
                assert(s[k] == x);
            }
        }
        lemma_filter_absent(s.drop_last(), x);
        assert(s.remove(i) =~= s.drop_last());
    } else {
        let d = s.drop_last();
        assert(d.no_duplicates()) by {
            assert forall|a: int, b: int| 0 <= a < b < d.len() implies d[a] != d[b] by {
                assert(d[a] == s[a] && d[b] == s[b]);
            }
        }
        lemma_filter_unique(d, x, i);
        assert(s.last() != x) by {
            assert(s[s.len() - 1] == s.last());
        }
        assert(s.remove(i) =~= d.remove(i).push(s.last()));
    }
}

/// How many samples the writer gathers before it stores them at once.
pub const FLUSH_BATCH_SIZE: usize = 200;

/// What the writer does after an event.
#[derive(Debug, Clone, Copy, PartialEq, Eq, Structural)]
pub enum WriterStep {
    /// Keep gathering.
    Wait,
    /// Store the pending samples.
    Flush,
    /// Store the pending samples, then mark a session stopped.
    FlushThenStop,
    /// Store the pending samples, then end (the channel closed).
    FlushThenExit,
}

/// The samples gathered by the writer and not yet stored.
pub struct SampleBuffer<T> {
    pending: Vec<T>,
}

impl<T> SampleBuffer<T> {
    /// The samples not yet stored, oldest first.
    pub closed spec fn spec_pending(&self) -> Seq<T> {
        self.pending@
    }

    /// A writer with nothing pending.
    pub fn new() -> (r: SampleBuffer<T>)
        ensures
            r.spec_pending() == Seq::<T>::empty(),
    {
        SampleBuffer { pending: Vec::new() }
    }

    /// The samples not yet stored, oldest first.
    pub fn pending(&self) -> (r: &Vec<T>)
        ensures
            r@ == self.spec_pending(),
    {
        &self.pending
    }

    /// A sample arrived: it is kept, and the pending samples are to be
    /// stored once there are `FLUSH_BATCH_SIZE` or more.
    pub fn on_sample(&mut self, s: T) -> (r: WriterStep)
        ensures
            final(self).spec_pending() == old(self).spec_pending().push(s),
            r == (if final(self).spec_pending().len() >= FLUSH_BATCH_SIZE {
                WriterStep::Flush
            } else {
                WriterStep::Wait
            }),
    {
        self.pending.push(s);
        if self.pending.len() >= FLUSH_BATCH_SIZE {
            WriterStep::Flush
        } else {
            WriterStep::Wait
        }
    }

    /// The periodic tick: pending samples, if any, are to be stored.
    pub fn on_tick(&self) -> (r: WriterStep)
        ensures
            r == (if self.spec_pending().len() > 0 {
                WriterStep::Flush
            } else {
                WriterStep::Wait
            }),
    {
        if self.pending.len() > 0 {
            WriterStep::Flush
        } else {
            WriterStep::Wait
        }
    }

    /// A session stopped: what is pending is stored first, then the session
    /// is marked stopped.
    pub fn on_session_stopped(&self) -> (r: WriterStep)
        ensures
            r == WriterStep::FlushThenStop,
    {
        WriterStep::FlushThenStop
    }

    /// The channel closed: what is pending is stored, then the writer ends.
    pub fn on_closed(&self) -> (r: WriterStep)
        ensures
            r == WriterStep::FlushThenExit,
    {
        WriterStep::FlushThenExit
    }

    /// The pending samples were stored: nothing is pending any more. (After
    /// a failed store nothing is called, and the samples stay pending for
    /// the next attempt.)
    pub fn flushed(&mut self)
        ensures
            final(self).spec_pending() == Seq::<T>::empty(),
    {
        self.pending.clear();
    }
}

/// Milliseconds in a day.
pub const MS_PER_DAY: i64 = 86400000;

/// The oldest time kept when keeping `days_to_keep` days of history, at
/// `now_ms` (milliseconds since the epoch).
pub fn cutoff_time(now_ms: i64, days_to_keep: u32) -> (r: i64)
    requires
        now_ms - days_to_keep * MS_PER_DAY >= i64::MIN,
    ensures
        r == now_ms - days_to_keep * MS_PER_DAY,
{
    let span: i64 = (days_to_keep as i64) * MS_PER_DAY;
    now_ms - span
}

} // verus!
