use vstd::prelude::*;

verus! {

/// The highest file descriptor a set can hold, exclusive: the platform's
/// fixed `select` set size.
pub const FD_SETSIZE: usize = 1024;

/// A set of file descriptors for the `select` protocol, modeled as explicit
/// per-descriptor membership over the fixed descriptor range. The embedding
/// program mirrors it into the platform's native descriptor set at the call
/// site.
#[derive(Debug, Clone, PartialEq, Eq)]
pub struct FdSet {
    slots: Vec<bool>,
}

impl FdSet {
    pub closed spec fn slots_view(&self) -> Seq<bool> {
        self.slots@
    }

    pub open spec fn wf(&self) -> bool {
        self.slots_view().len() == FD_SETSIZE
    }

    /// Membership: only descriptors in the fixed range can be members.
    pub open spec fn spec_contains(&self, fd: int) -> bool {
        0 <= fd < FD_SETSIZE && self.slots_view()[fd]
    }

    /// The empty descriptor set.
    pub fn new() -> (r: FdSet)
        ensures
            r.wf(),
            forall|g: int| !r.spec_contains(g),
    {
        let mut slots: Vec<bool> = Vec::new();
        let mut i: usize = 0;
        while i < FD_SETSIZE
            invariant
                i <= FD_SETSIZE,
                slots@.len() == i,
                forall|j: int| 0 <= j < i ==> !slots@[j],
            decreases FD_SETSIZE - i,
        {
            slots.push(false);
            i = i + 1;
        }
        FdSet { slots }
    }

    pub fn insert(&mut self, fd: i64)
        requires
            old(self).wf(),
            0 <= fd < FD_SETSIZE,
        ensures
            final(self).wf(),
            final(self).spec_contains(fd as int),
            forall|g: int|
                g != fd ==> #[trigger] final(self).spec_contains(g) == old(self).spec_contains(g),
    {
        self.slots.set(fd as usize, true);
    }

    pub fn remove(&mut self, fd: i64)
        requires
            old(self).wf(),
            0 <= fd < FD_SETSIZE,
        ensures
            final(self).wf(),
            !final(self).spec_contains(fd as int),
            forall|g: int|
                g != fd ==> #[trigger] final(self).spec_contains(g) == old(self).spec_contains(g),
    {
        self.slots.set(fd as usize, false);
    }

    /// Membership test; descriptors outside the fixed range are never
    /// members.
    pub fn contains(&self, fd: i64) -> (r: bool)
        requires
            self.wf(),
        ensures
            r == self.spec_contains(fd as int),
    {
        if fd < 0 || fd >= FD_SETSIZE as i64 {
            return false;
        }
        self.slots[fd as usize]
    }

    /// Empty the set.
    pub fn clear(&mut self)
        requires
            old(self).wf(),
        ensures
            final(self).wf(),
            forall|g: int| !final(self).spec_contains(g),
    {
        let mut i: usize = 0;
        while i < FD_SETSIZE
            invariant
                i <= FD_SETSIZE,
                self.wf(),
                forall|j: int| 0 <= j < i ==> !self.slots_view()[j],
            decreases FD_SETSIZE - i,
        {
            self.slots.set(i, false);
            i = i + 1;
        }
    }

    /// The largest member, if the set is not empty.
    pub fn highest(&self) -> (r: Option<i64>)
        requires
            self.wf(),
        ensures
            r matches Some(f) ==> self.spec_contains(f as int) && (forall|g: int|
                self.spec_contains(g) ==> g <= f),
            r is None ==> forall|g: int| !self.spec_contains(g),
    {
        let mut i: usize = FD_SETSIZE;
        while i > 0
            invariant
                i <= FD_SETSIZE,
                self.wf(),
                forall|g: int| i <= g ==> !self.spec_contains(g),
            decreases i,
        {
            if self.slots[i - 1] {
                return Some((i - 1) as i64);
            }
            i = i - 1;
        }
        None
    }
}

/// The first argument the `select` protocol wants: one more than the highest
/// descriptor across the three watched sets, or zero when all are empty.
pub fn select_nfds(read_set: &FdSet, write_set: &FdSet, except_set: &FdSet) -> (n: i64)
    requires
        read_set.wf(),
        write_set.wf(),
        except_set.wf(),
    ensures
        0 <= n <= FD_SETSIZE,
        forall|g: int|
            read_set.spec_contains(g) || write_set.spec_contains(g) || except_set.spec_contains(g)
                ==> g < n,
        n > 0 ==> read_set.spec_contains(n - 1) || write_set.spec_contains(n - 1)
            || except_set.spec_contains(n - 1),
{
    let mut best: i64 = -1;
    match read_set.highest() {
        Some(f) => {
            if f > best {
                best = f;
            }
        },
        None => {},
    }
    match write_set.highest() {
        Some(f) => {
            if f > best {
                best = f;
            }
        },
        None => {},
    }
    match except_set.highest() {
        Some(f) => {
            if f > best {
                best = f;
            }
        },
        None => {},
    }
    best + 1
}

} // verus!
