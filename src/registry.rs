//! The set of connected clients' output channels, each under a unique handle.
use vstd::prelude::*;

verus! {

/// The entries of `s` whose handle is not `h`, in their order.
pub open spec fn without_handle<C>(s: Seq<(u64, C)>, h: u64) -> Seq<(u64, C)>
    decreases s.len(),
{
    if s.len() == 0 {
        s
    } else {
        let rest = without_handle(s.drop_last(), h);
        if s.last().0 == h {
            rest
        } else {
            rest.push(s.last())
        }
    }
}

pub open spec fn has_handle<C>(s: Seq<(u64, C)>, h: u64) -> bool {
    exists|i: int| 0 <= i < s.len() && (#[trigger] s[i]).0 == h
}

pub open spec fn handles_unique<C>(s: Seq<(u64, C)>) -> bool {
    forall|i: int, j: int| 0 <= i < s.len() && 0 <= j < s.len() && i != j ==> (#[trigger] s[i]).0 != (#[trigger] s[j]).0
}

/// The registry of connected clients: each registered channel under a handle
/// that no other entry has, in the order of registration.
pub struct ClientRegistry<C> {
    entries: Vec<(u64, C)>,
    next_handle: u64,
}

impl<C> View for ClientRegistry<C> {
    type V = Seq<(u64, C)>;

    closed spec fn view(&self) -> Seq<(u64, C)> {
        self.entries@
    }
}

impl<C> ClientRegistry<C> {
    /// The handle the next registration receives.
    pub closed spec fn next(&self) -> u64 {
        self.next_handle
    }

    pub closed spec fn wf(&self) -> bool {
        &&& handles_unique(self.entries@)
        &&& forall|i: int| 0 <= i < self.entries@.len() ==> (#[trigger] self.entries@[i]).0 < self.next_handle
    }

    pub fn new() -> (r: Self)
        ensures
            r.wf(),
            r@ == Seq::<(u64, C)>::empty(),
            r.next() == 0,
    {
        ClientRegistry { entries: Vec::new(), next_handle: 0 }
    }

    /// Adds a channel at the end and returns its handle, which no entry had.
    pub fn register(&mut self, channel: C) -> (h: u64)
        requires
            old(self).wf(),
            old(self).next() < u64::MAX,
        ensures
            final(self).wf(),
            h == old(self).next(),
            final(self).next() == old(self).next() + 1,
            !has_handle(old(self)@, h),
            final(self)@ == old(self)@.push((h, channel)),
    {
        let h = self.next_handle;
        self.entries.push((h, channel));
        self.next_handle = h + 1;
        h
    }

    /// Removes the channel registered under `h`; nothing happens if there is none.
    pub fn deregister(&mut self, h: u64)
        requires
            old(self).wf(),
        ensures
            final(self).wf(),
            final(self).next() == old(self).next(),
            final(self)@ == without_handle(old(self)@, h),
            !has_handle(final(self)@, h),
    {
        let n = self.entries.len();
        let mut i: usize = 0;
        while i < n
            invariant
                n == self.entries@.len(),
                0 <= i <= n,
                forall|j: int| 0 <= j < i ==> (#[trigger] self.entries@[j]).0 != h,
                self.entries@ == old(self).entries@,
                self.next_handle == old(self).next_handle,
                old(self).wf(),
            decreases n - i,
        {
            if self.entries[i].0 == h {
                proof {
                    lemma_without_at(self.entries@, h, i as int);
                }
                let _ = self.entries.remove(i);
                proof {
                    let s = old(self).entries@;
                    assert forall|a: int, b: int| 0 <= a < self.entries@.len() && 0 <= b < self.entries@.len() && a != b
                        implies (#[trigger] self.entries@[a]).0 != (#[trigger] self.entries@[b]).0 by {
                        let a2 = if a < i { a } else { a + 1 };
                        let b2 = if b < i { b } else { b + 1 };
                        assert(self.entries@[a] == s[a2]);
                        assert(self.entries@[b] == s[b2]);
                    }
                    assert forall|k: int| 0 <= k < self.entries@.len() implies (#[trigger] self.entries@[k]).0 < self.next_handle by {
                        let k2 = if k < i { k } else { k + 1 };
                        assert(self.entries@[k] == s[k2]);
                    }
                    assert forall|k: int| 0 <= k < self.entries@.len() implies (#[trigger] self.entries@[k]).0 != h by {
                        let k2 = if k < i { k } else { k + 1 };
                        assert(self.entries@[k] == s[k2]);
                    }
                }
                return;
            }
            i = i + 1;
        }
        proof {
            lemma_without_absent(self.entries@, h);
        }
    }

    /// The handle the next registration receives.
    pub fn next_handle(&self) -> (r: u64)
        ensures
            r == self.next(),
    {
        self.next_handle
    }

    /// Whether a channel is registered under `h`.
    pub fn contains(&self, h: u64) -> (r: bool)
        ensures
            r == has_handle(self@, h),
    {
        let n = self.entries.len();
        let mut i: usize = 0;
        while i < n
            invariant
                n == self.entries@.len(),
                0 <= i <= n,
                forall|j: int| 0 <= j < i ==> (#[trigger] self.entries@[j]).0 != h,
            decreases n - i,
        {
            if self.entries[i].0 == h {
                return true;
            }
            i = i + 1;
        }
        false
    }

    /// The registered channels at this moment, with their handles: the
    /// recipients of a broadcast.
    pub fn entries(&self) -> (r: &Vec<(u64, C)>)
        ensures
            r@ == self@,
    {
        &self.entries
    }

    /// How many channels are registered.
    pub fn len(&self) -> (r: usize)
        ensures
            r == self@.len(),
    {
        self.entries.len()
    }
}

proof fn lemma_without_absent<C>(s: Seq<(u64, C)>, h: u64)
    requires
        forall|j: int| 0 <= j < s.len() ==> (#[trigger] s[j]).0 != h,
    ensures
        without_handle(s, h) == s,
    decreases s.len(),
{
    if s.len() > 0 {
        let d = s.drop_last();
        assert forall|j: int| 0 <= j < d.len() implies (#[trigger] d[j]).0 != h by {
            assert(d[j] == s[j]);
        }
        lemma_without_absent(d, h);
        assert(d.push(s.last()) =~= s);
    }
}

proof fn lemma_without_at<C>(s: Seq<(u64, C)>, h: u64, i: int)
    requires
        handles_unique(s),
        0 <= i < s.len(),
        s[i].0 == h,
    ensures
        without_handle(s, h) == s.remove(i),
    decreases s.len(),
{
    let d = s.drop_last();
    let n = s.len() - 1;
    if i == n {
        assert forall|j: int| 0 <= j < d.len() implies (#[trigger] d[j]).0 != h by {
            assert(d[j] == s[j]);
            assert(s[j].0 != s[n].0);
        }
        lemma_without_absent(d, h);
        assert(s.remove(i) =~= d);
    } else {
        assert(s[n].0 != s[i].0);
        assert forall|a: int, b: int| 0 <= a < d.len() && 0 <= b < d.len() && a != b
            implies (#[trigger] d[a]).0 != (#[trigger] d[b]).0 by {
            assert(d[a] == s[a]);
            assert(d[b] == s[b]);
        }
        lemma_without_at(d, h, i);
        assert(d.remove(i).push(s.last()) =~= s.remove(i));
    }
}

/// Removing one client keeps every other registered client, so later
/// broadcasts still reach them.
pub proof fn lemma_deregister_keeps_others<C>(s: Seq<(u64, C)>, h: u64, e: (u64, C))
    requires
        s.contains(e),
        e.0 != h,
    ensures
        without_handle(s, h).contains(e),
    decreases s.len(),
{
    let d = s.drop_last();
    let w = without_handle(d, h);
    if s.last() == e {
        assert(without_handle(s, h) == w.push(e));
        assert(w.push(e)[w.len() as int] == e);
    } else {
        let k = choose|k: int| 0 <= k < s.len() && s[k] == e;
        assert(k < s.len() - 1);
        assert(d[k] == e);
        lemma_deregister_keeps_others(d, h, e);
        let j = choose|j: int| 0 <= j < w.len() && w[j] == e;
        if s.last().0 != h {
            assert(w.push(s.last())[j] == e);
        }
    }
}

/// A client that has just registered is among the recipients of a broadcast,
/// and stays among them when any other client leaves.
pub proof fn lemma_registered_client_stays_recipient<C>(s: Seq<(u64, C)>, h: u64, c: C, other: u64)
    requires
        other != h,
    ensures
        s.push((h, c)).contains((h, c)),
        without_handle(s.push((h, c)), other).contains((h, c)),
{
    assert(s.push((h, c))[s.len() as int] == (h, c));
    lemma_deregister_keeps_others(s.push((h, c)), other, (h, c));
}

} // verus!
