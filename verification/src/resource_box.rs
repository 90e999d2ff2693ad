//! The resource pool: guarded units with shared-reader /
//! exclusive-writer admission, tracked by two occupancy counters.

use vstd::prelude::*;

verus! {

/// One guarded resource: a display name and its occupancy counters.
pub struct Resource {
    pub name: String,
    /// Number of readers currently granted the resource.
    pub read_count: usize,
    /// Number of writers currently granted the resource (zero or one).
    pub write_count: usize,
}

/// A counter after one release: one less if anything was held, and
/// still zero if nothing was — a release at zero is a benign no-op.
pub open spec fn dec_or_zero(c: nat) -> nat {
    if c > 0 {
        (c - 1) as nat
    } else {
        0
    }
}

/// Releasing an untouched counter leaves it untouched, and releasing
/// twice what was acquired once ends one release below the count
/// before the acquisition: a counter can never be driven negative.
pub proof fn lemma_release_idempotent(c: nat)
    ensures
        dec_or_zero(0) == 0,
        dec_or_zero(dec_or_zero(c + 1)) == dec_or_zero(c),
{
}

impl Resource {
    /// Mutual exclusion: at most one writer, and no reader while a
    /// writer is granted.
    pub open spec fn inv(self) -> bool {
        &&& self.write_count <= 1
        &&& self.write_count > 0 ==> self.read_count == 0
    }

    /// A fresh resource: both counters at zero.
    pub fn new(name: String) -> (r: Resource)
        ensures
            r.name == name,
            r.read_count == 0,
            r.write_count == 0,
            r.inv(),
    {
        Resource { name, read_count: 0, write_count: 0 }
    }

    /// Grants a reader if and only if no writer is granted; on success
    /// the reader count rises by one, and nothing changes otherwise.
    pub fn try_set_reading(&mut self) -> (ok: bool)
        requires
            old(self).read_count < usize::MAX,
        ensures
            ok == (old(self).write_count == 0),
            final(self).name == old(self).name,
            final(self).write_count == old(self).write_count,
            final(self).read_count == (if ok {
                old(self).read_count + 1
            } else {
                old(self).read_count as int
            }),
            old(self).inv() ==> final(self).inv(),
    {
        if self.write_count > 0 {
            return false;
        }
        self.read_count = self.read_count + 1;
        true
    }

    /// Grants the writer if and only if the resource is entirely idle;
    /// on success the writer count becomes one, and nothing changes
    /// otherwise.
    pub fn try_set_writing(&mut self) -> (ok: bool)
        ensures
            ok == (old(self).read_count == 0 && old(self).write_count == 0),
            final(self).name == old(self).name,
            final(self).read_count == old(self).read_count,
            final(self).write_count == (if ok {
                1int
            } else {
                old(self).write_count as int
            }),
            old(self).inv() ==> final(self).inv(),
    {
        if self.read_count > 0 || self.write_count > 0 {
            return false;
        }
        self.write_count = self.write_count + 1;
        true
    }

    /// Lets one reader go; a release with no reader granted is a
    /// benign no-op.
    pub fn remove_reading(&mut self)
        ensures
            final(self).name == old(self).name,
            final(self).write_count == old(self).write_count,
            final(self).read_count == dec_or_zero(old(self).read_count as nat),
            old(self).inv() ==> final(self).inv(),
    {
        if self.read_count > 0 {
            self.read_count = self.read_count - 1;
        }
    }

    /// Lets the writer go; a release with no writer granted is a
    /// benign no-op.
    pub fn remove_writing(&mut self)
        ensures
            final(self).name == old(self).name,
            final(self).read_count == old(self).read_count,
            final(self).write_count == dec_or_zero(old(self).write_count as nat),
            old(self).inv() ==> final(self).inv(),
    {
        if self.write_count > 0 {
            self.write_count = self.write_count - 1;
        }
    }
}

/// Relies on `format!` of std to render a numbered display label;
/// no contract needs anything of the text itself.
#[verifier::external_body]
pub(crate) fn numbered_name(prefix: &str, n: usize) -> String {
    format!("{} {}", prefix, n)
}

/// A fixed pool of independent resources, addressed by position.
pub struct ResourceBox {
    pub resources: Vec<Resource>,
}

impl ResourceBox {
    /// Every resource in the pool obeys mutual exclusion.
    pub open spec fn wf(self) -> bool {
        forall|i: int| 0 <= i < self.resources.len() ==> self.resources[i].inv()
    }

    /// A pool of `resources_len` fresh resources, all entirely idle.
    pub fn new(resources_len: usize) -> (r: ResourceBox)
        ensures
            r.resources.len() == resources_len,
            forall|i: int|
                0 <= i < resources_len ==> r.resources[i].read_count == 0
                    && r.resources[i].write_count == 0,
            r.wf(),
    {
        let mut resources: Vec<Resource> = Vec::new();
        let mut i: usize = 0;
        while i < resources_len
            invariant
                i <= resources_len,
                resources.len() == i,
                forall|j: int|
                    0 <= j < i ==> resources[j].read_count == 0 && resources[j].write_count == 0,
            decreases resources_len - i,
        {
            resources.push(Resource::new(numbered_name("Resource", i + 1)));
            i = i + 1;
        }
        ResourceBox { resources }
    }

    /// Tries to grant a reader on the resource at `idx`: succeeds if
    /// and only if the index is in range and no writer is granted
    /// there. An out-of-range index changes nothing and fails.
    pub fn try_set_reading(&mut self, idx: usize) -> (ok: bool)
        requires
            idx < old(self).resources.len() ==> old(self).resources[idx as int].read_count
                < usize::MAX,
        ensures
            final(self).resources.len() == old(self).resources.len(),
            idx >= old(self).resources.len() ==> !ok && final(self).resources@ == old(
                self,
            ).resources@,
            idx < old(self).resources.len() ==> {
                &&& ok == (old(self).resources[idx as int].write_count == 0)
                &&& (forall|j: int|
                    0 <= j < old(self).resources.len() && j != idx ==> final(self).resources[j]
                        == old(self).resources[j])
                &&& final(self).resources[idx as int].name == old(self).resources[idx as int].name
                &&& final(self).resources[idx as int].write_count == old(self).resources[idx as int].write_count
                &&& final(self).resources[idx as int].read_count == (if ok {
                    old(self).resources[idx as int].read_count + 1
                } else {
                    old(self).resources[idx as int].read_count as int
                })
            },
            old(self).wf() ==> final(self).wf(),
    {
        if idx < self.resources.len() {
            let r = &mut self.resources[idx];
            r.try_set_reading()
        } else {
            false
        }
    }

    /// Tries to grant the writer on the resource at `idx`: succeeds if
    /// and only if the index is in range and the resource is entirely
    /// idle there. An out-of-range index changes nothing and fails.
    pub fn try_set_writing(&mut self, idx: usize) -> (ok: bool)
        ensures
            final(self).resources.len() == old(self).resources.len(),
            idx >= old(self).resources.len() ==> !ok && final(self).resources@ == old(
                self,
            ).resources@,
            idx < old(self).resources.len() ==> {
                &&& ok == (old(self).resources[idx as int].read_count == 0 && old(
                    self,
                ).resources[idx as int].write_count == 0)
                &&& (forall|j: int|
                    0 <= j < old(self).resources.len() && j != idx ==> final(self).resources[j]
                        == old(self).resources[j])
                &&& final(self).resources[idx as int].name == old(self).resources[idx as int].name
                &&& final(self).resources[idx as int].read_count == old(self).resources[idx as int].read_count
                &&& final(self).resources[idx as int].write_count == (if ok {
                    1int
                } else {
                    old(self).resources[idx as int].write_count as int
                })
            },
            old(self).wf() ==> final(self).wf(),
    {
        if idx < self.resources.len() {
            let r = &mut self.resources[idx];
            r.try_set_writing()
        } else {
            false
        }
    }

    /// Lets one reader go on the resource at `idx`; out of range or at
    /// zero it is a benign no-op.
    pub fn remove_reading(&mut self, idx: usize)
        ensures
            final(self).resources.len() == old(self).resources.len(),
            idx >= old(self).resources.len() ==> final(self).resources@ == old(self).resources@,
            idx < old(self).resources.len() ==> {
                &&& (forall|j: int|
                    0 <= j < old(self).resources.len() && j != idx ==> final(self).resources[j]
                        == old(self).resources[j])
                &&& final(self).resources[idx as int].name == old(self).resources[idx as int].name
                &&& final(self).resources[idx as int].write_count == old(self).resources[idx as int].write_count
                &&& final(self).resources[idx as int].read_count == dec_or_zero(
                    old(self).resources[idx as int].read_count as nat,
                )
            },
            old(self).wf() ==> final(self).wf(),
    {
        if idx < self.resources.len() {
            let r = &mut self.resources[idx];
            r.remove_reading();
        }
    }

    /// Lets the writer go on the resource at `idx`; out of range or at
    /// zero it is a benign no-op.
    pub fn remove_writing(&mut self, idx: usize)
        ensures
            final(self).resources.len() == old(self).resources.len(),
            idx >= old(self).resources.len() ==> final(self).resources@ == old(self).resources@,
            idx < old(self).resources.len() ==> {
                &&& (forall|j: int|
                    0 <= j < old(self).resources.len() && j != idx ==> final(self).resources[j]
                        == old(self).resources[j])
                &&& final(self).resources[idx as int].name == old(self).resources[idx as int].name
                &&& final(self).resources[idx as int].read_count == old(self).resources[idx as int].read_count
                &&& final(self).resources[idx as int].write_count == dec_or_zero(
                    old(self).resources[idx as int].write_count as nat,
                )
            },
            old(self).wf() ==> final(self).wf(),
    {
        if idx < self.resources.len() {
            let r = &mut self.resources[idx];
            r.remove_writing();
        }
    }
}

} // verus!
